//! Bit strings, written most significant digit first.
//!
//! A stream of bits is a `Seq<bool>` in contracts and a `Vec<bool>` in code.
//! Numbers enter a stream as binary numerals of a given width and leave it
//! through [`value_of`].

use vstd::arithmetic::power2::{lemma2_to64, lemma_pow2_unfold, pow2};
use vstd::prelude::*;

verus! {

/// The `width` lowest binary digits of `value`, most significant first.
pub open spec fn bits_be(value: nat, width: nat) -> Seq<bool>
    decreases width,
{
    if width == 0 {
        Seq::empty()
    } else {
        bits_be(value / 2, (width - 1) as nat).push(value % 2 == 1)
    }
}

/// The number that a bit string spells, most significant digit first.
pub open spec fn value_of(bits: Seq<bool>) -> nat
    decreases bits.len(),
{
    if bits.len() == 0 {
        0
    } else {
        2 * value_of(bits.drop_last()) + if bits.last() {
            1nat
        } else {
            0nat
        }
    }
}

/// How many binary digits `value` has without leading zeros (none for 0).
pub open spec fn bit_width(value: nat) -> nat
    decreases value,
{
    if value == 0 {
        0
    } else {
        1 + bit_width(value / 2)
    }
}

/// The binary numeral of `value`, filled up with zeros on the left to
/// `min_width` digits. A value that needs more digits gets them all.
pub open spec fn padded_binary(value: nat, min_width: nat) -> Seq<bool> {
    bits_be(
        value,
        if bit_width(value) > min_width {
            bit_width(value)
        } else {
            min_width
        },
    )
}

/// The number in the `width` bits that start at `position`, if the stream
/// holds that many.
pub open spec fn read_field(bits: Seq<bool>, position: int, width: int) -> Option<nat> {
    if 0 <= position && 0 <= width && position + width <= bits.len() {
        Some(value_of(bits.subrange(position, position + width)))
    } else {
        None
    }
}

/// A numeral of `width` digits has `width` digits.
pub proof fn lemma_bits_be_len(value: nat, width: nat)
    ensures
        bits_be(value, width).len() == width,
    decreases width,
{
    if width > 0 {
        lemma_bits_be_len(value / 2, (width - 1) as nat);
    }
}

/// A bit string spells a number below two to the power of its length.
pub proof fn lemma_value_of_bound(bits: Seq<bool>)
    ensures
        value_of(bits) < pow2(bits.len()),
    decreases bits.len(),
{
    if bits.len() == 0 {
        lemma2_to64();
    } else {
        lemma_value_of_bound(bits.drop_last());
        lemma_pow2_unfold(bits.len());
    }
}

/// Reading back a numeral gives the number, when the width was enough for it.
pub proof fn lemma_value_of_bits_be(value: nat, width: nat)
    requires
        value < pow2(width),
    ensures
        value_of(bits_be(value, width)) == value,
    decreases width,
{
    if width == 0 {
        lemma2_to64();
    } else {
        lemma_pow2_unfold(width);
        lemma_value_of_bits_be(value / 2, (width - 1) as nat);
        assert(bits_be(value, width).drop_last() =~= bits_be(value / 2, (width - 1) as nat));
    }
}

/// Writing the number that a bit string spells, at the string's own width,
/// gives the string back.
pub proof fn lemma_bits_be_value_of(bits: Seq<bool>)
    ensures
        bits_be(value_of(bits), bits.len()) == bits,
    decreases bits.len(),
{
    if bits.len() > 0 {
        lemma_bits_be_value_of(bits.drop_last());
        assert(bits =~= bits.drop_last().push(bits.last()));
    }
}

/// A number below two to the power of `width` has at most `width` digits.
pub proof fn lemma_bit_width_bound(value: nat, width: nat)
    requires
        value < pow2(width),
    ensures
        bit_width(value) <= width,
    decreases width,
{
    if width == 0 {
        lemma2_to64();
    } else {
        lemma_pow2_unfold(width);
        if value > 0 {
            lemma_bit_width_bound(value / 2, (width - 1) as nat);
        }
    }
}

/// A number that fits `min_width` digits is written with exactly that many.
pub proof fn lemma_padded_binary_fits(value: nat, min_width: nat)
    requires
        value < pow2(min_width),
    ensures
        padded_binary(value, min_width) == bits_be(value, min_width),
{
    lemma_bit_width_bound(value, min_width);
}

/// Two to the power of at most 64 is at most 2^64.
pub proof fn lemma_pow2_bounded(width: nat)
    requires
        width <= 64,
    ensures
        pow2(width) <= 0x1_0000_0000_0000_0000,
    decreases 64 - width,
{
    if width == 64 {
        lemma2_to64();
    } else {
        lemma_pow2_bounded(width + 1);
        lemma_pow2_unfold(width + 1);
    }
}

/// Appends the `width` lowest binary digits of `value`, most significant
/// first.
pub fn push_bits(bits: &mut Vec<bool>, value: u64, width: usize)
    requires
        width <= 64,
    ensures
        final(bits)@ == old(bits)@ + bits_be(value as nat, width as nat),
    decreases width,
{
    if width > 0 {
        push_bits(bits, value / 2, width - 1);
        bits.push(value % 2 == 1);
        assert(bits@ =~= old(bits)@ + bits_be(value as nat, width as nat));
    } else {
        assert(bits@ =~= old(bits)@ + bits_be(value as nat, width as nat));
    }
}

/// The number of binary digits of `value` without leading zeros.
pub fn count_digits(value: u64) -> (digits: usize)
    ensures
        digits == bit_width(value as nat),
        digits <= 64,
{
    let mut rest: u64 = value;
    let mut digits: usize = 0;
    proof {
        lemma2_to64();
    }
    while rest > 0
        invariant
            digits <= 64,
            bit_width(value as nat) == digits + bit_width(rest as nat),
            (rest as nat) < pow2((64 - digits) as nat),
        decreases rest,
    {
        proof {
            if digits == 64 {
                lemma2_to64();
            } else {
                lemma_pow2_unfold((64 - digits) as nat);
            }
        }
        rest = rest / 2;
        digits = digits + 1;
    }
    digits
}

/// Appends the binary numeral of `value`, filled up with zeros on the left
/// to `min_width` digits.
pub fn push_binary(bits: &mut Vec<bool>, value: u64, min_width: usize)
    requires
        min_width <= 64,
    ensures
        final(bits)@ == old(bits)@ + padded_binary(value as nat, min_width as nat),
{
    let digits = count_digits(value);
    let width = if digits > min_width {
        digits
    } else {
        min_width
    };
    push_bits(bits, value, width);
}

/// Reads the number in the `width` bits that start at `position`; `None`
/// when the stream ends before the field does.
pub fn read_bits(bits: &Vec<bool>, position: usize, width: usize) -> (value: Option<u64>)
    requires
        width <= 64,
    ensures
        match value {
            Some(v) => read_field(bits@, position as int, width as int) == Some(v as nat),
            None => read_field(bits@, position as int, width as int) is None,
        },
{
    if position > bits.len() || width > bits.len() - position {
        return None;
    }
    let mut value: u64 = 0;
    let mut taken: usize = 0;
    proof {
        lemma2_to64();
        assert(bits@.subrange(position as int, position as int) =~= Seq::<bool>::empty());
    }
    while taken < width
        invariant
            taken <= width <= 64,
            position + width <= bits.len(),
            value == value_of(bits@.subrange(position as int, position + taken)),
            (value as nat) < pow2(taken as nat),
        decreases width - taken,
    {
        proof {
            let longer = bits@.subrange(position as int, position + taken + 1);
            assert(longer.drop_last() =~= bits@.subrange(position as int, position + taken));
            lemma_pow2_unfold((taken + 1) as nat);
            lemma_pow2_bounded((taken + 1) as nat);
        }
        let bit: u64 = if bits[position + taken] {
            1
        } else {
            0
        };
        value = 2 * value + bit;
        taken = taken + 1;
    }
    Some(value)
}

} // verus!
