//! The text form of a bit stream: one character of a 64-letter alphabet for
//! every six bits.

use crate::bits::{bits_be, lemma_bits_be_value_of, lemma_value_of_bound, value_of};
use vstd::arithmetic::power2::lemma2_to64;
use vstd::prelude::*;

verus! {

/// The alphabet, in the order of the values 0 to 63.
pub open spec fn alphabet() -> Seq<char> {
    "ABCDEFGHIJKLMNOPQRSTUVWXYZabcdefghijklmnopqrstuvwxyz0123456789+/"@
}

/// The character that stands for `value`, for 0 to 63.
pub open spec fn sextet_char(value: int) -> char {
    alphabet()[value]
}

/// The value that `c` stands for, if it is a character of the alphabet.
pub open spec fn char_sextet(c: char) -> Option<int> {
    if 'A' <= c <= 'Z' {
        Some(c as int - 'A' as int)
    } else if 'a' <= c <= 'z' {
        Some(c as int - 'a' as int + 26)
    } else if '0' <= c <= '9' {
        Some(c as int - '0' as int + 52)
    } else if c == '+' {
        Some(62)
    } else if c == '/' {
        Some(63)
    } else {
        None
    }
}

/// The text of a bit stream: one character for each group of six bits, in
/// stream order. Where the length is no multiple of six, the last group is
/// shorter and stands for the number that its bits spell.
pub open spec fn render(bits: Seq<bool>) -> Seq<char>
    decreases bits.len(),
{
    if bits.len() == 0 {
        Seq::empty()
    } else {
        let cut = bits.len() - last_group_len(bits.len());
        render(bits.take(cut)).push(sextet_char(value_of(bits.skip(cut)) as int))
    }
}

/// The length of the last group when `len` bits are cut into groups of six.
pub open spec fn last_group_len(len: nat) -> int {
    if len % 6 == 0 {
        6
    } else {
        (len % 6) as int
    }
}

/// The bit stream of a text: six bits for each character, in text order;
/// `None` where a character is outside the alphabet.
pub open spec fn code_bits(code: Seq<char>) -> Option<Seq<bool>>
    decreases code.len(),
{
    if code.len() == 0 {
        Some(Seq::empty())
    } else {
        match (code_bits(code.drop_last()), char_sextet(code.last())) {
            (Some(bits), Some(value)) => Some(bits + bits_be(value as nat, 6)),
            _ => None,
        }
    }
}

/// The alphabet has 64 one-byte characters, and `char_sextet` is the place of
/// a character in it: the two directions agree on every value and character.
pub proof fn lemma_alphabet()
    ensures
        alphabet().len() == 64,
        vstd::utf8::is_ascii_chars(alphabet()),
        forall|value: int|
            0 <= value < 64 ==> char_sextet(#[trigger] sextet_char(value)) == Some(value),
        forall|c: char|
            (#[trigger] char_sextet(c)) is Some ==> 0 <= char_sextet(c)->0 < 64 && sextet_char(
                char_sextet(c)->0,
            ) == c,
{
    reveal_strlit("ABCDEFGHIJKLMNOPQRSTUVWXYZabcdefghijklmnopqrstuvwxyz0123456789+/");
}

/// A character has a value exactly when the alphabet holds it.
pub proof fn lemma_alphabet_membership(c: char)
    ensures
        char_sextet(c) is Some <==> alphabet().contains(c),
{
    lemma_alphabet();
    if char_sextet(c) is Some {
        assert(alphabet()[char_sextet(c)->0] == c);
    }
    if alphabet().contains(c) {
        let place = choose|place: int| 0 <= place < alphabet().len() && alphabet()[place] == c;
        assert(char_sextet(sextet_char(place)) == Some(place));
    }
}

/// Every character of a rendered text belongs to the alphabet.
pub proof fn lemma_render_in_alphabet(bits: Seq<bool>)
    ensures
        forall|i: int|
            0 <= i < render(bits).len() ==> alphabet().contains(#[trigger] render(bits)[i]),
    decreases bits.len(),
{
    if bits.len() > 0 {
        let cut = bits.len() - last_group_len(bits.len());
        let head = bits.take(cut);
        let tail = bits.skip(cut);
        lemma_render_in_alphabet(head);
        lemma_value_of_bound(tail);
        lemma2_to64();
        if tail.len() < 6 {
            vstd::arithmetic::power2::lemma_pow2_strictly_increases(tail.len(), 6);
        }
        lemma_alphabet();
        let last = sextet_char(value_of(tail) as int);
        lemma_alphabet_membership(last);
        assert forall|i: int| 0 <= i < render(bits).len() implies alphabet().contains(
            #[trigger] render(bits)[i],
        ) by {
            if i < render(head).len() {
                assert(render(bits)[i] == render(head)[i]);
            } else {
                assert(render(bits)[i] == last);
            }
        }
    }
}

/// A stream of whole groups of six is read back from its text unchanged.
pub proof fn lemma_code_bits_render(bits: Seq<bool>)
    requires
        bits.len() % 6 == 0,
    ensures
        code_bits(render(bits)) == Some(bits),
    decreases bits.len(),
{
    if bits.len() > 0 {
        let cut = bits.len() - 6;
        let head = bits.take(cut);
        let tail = bits.skip(cut);
        lemma_code_bits_render(head);
        lemma_value_of_bound(tail);
        lemma2_to64();
        lemma_alphabet();
        lemma_bits_be_value_of(tail);
        assert(render(bits).drop_last() =~= render(head));
        assert(head + tail =~= bits);
    }
}

/// The alphabet as text.
pub fn alphabet_text() -> (text: &'static str)
    ensures
        text@ == alphabet(),
        text@.len() == 64,
        text.is_ascii(),
{
    proof {
        lemma_alphabet();
    }
    "ABCDEFGHIJKLMNOPQRSTUVWXYZabcdefghijklmnopqrstuvwxyz0123456789+/"
}

/// Appends the character that stands for `value`.
pub fn push_sextet(text: &mut String, value: u8)
    requires
        value < 64,
    ensures
        final(text)@ == old(text)@.push(sextet_char(value as int)),
{
    let letters = alphabet_text();
    let place: usize = value as usize;
    let letter = letters.substring_ascii(place, place + 1);
    proof {
        assert(letter@ =~= seq![sextet_char(value as int)]);
    }
    text.append(letter);
    assert(text@ =~= old(text)@.push(sextet_char(value as int)));
}

/// The value of a one-byte character, if the alphabet holds it.
pub fn sextet_of_byte(byte: u8) -> (value: Option<u8>)
    ensures
        match value {
            Some(v) => char_sextet(byte as char) == Some(v as int),
            None => char_sextet(byte as char) is None,
        },
{
    if 'A' as u8 <= byte && byte <= 'Z' as u8 {
        Some(byte - 'A' as u8)
    } else if 'a' as u8 <= byte && byte <= 'z' as u8 {
        Some(byte - 'a' as u8 + 26)
    } else if '0' as u8 <= byte && byte <= '9' as u8 {
        Some(byte - '0' as u8 + 52)
    } else if byte == '+' as u8 {
        Some(62)
    } else if byte == '/' as u8 {
        Some(63)
    } else {
        None
    }
}

} // verus!
