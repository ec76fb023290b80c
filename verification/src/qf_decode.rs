//! From QF code back to move notation.
//!
//! The decoder reads the stream of bits that the text of a code stands for:
//! the header, then as many moves as the header counts. What follows the
//! last move is padding and is not read.

use crate::base64::{alphabet, char_sextet, code_bits, lemma_alphabet_membership, sextet_of_byte};
use crate::bits::{push_bits, read_bits, read_field, value_of};
use crate::board::{slot_anchor, slot_square, Direction, PositionTracker, Track};
use crate::notation::{
    apply_token,
    format_token,
    join_commas,
    join_tokens,
    texts,
    MoveToken,
    Orientation,
    Token,
};
use vstd::prelude::*;
use vstd::utf8::is_ascii_chars;

verus! {

/// Why a text is no code of a game: a character is outside the alphabet,
/// the stream does not open with the marker `0`, `1`, it ends before the
/// last move does, a pawn move has an odd direction number, or a pawn lands
/// outside the columns `a` to `i`.
#[derive(Clone, Copy, Debug, PartialEq, Eq, Structural)]
pub enum QFError {
    QFDecodeError,
}

/// The length of the header in bits.
pub const HEADER_BITS: usize = 12;

/// A decoder's progress in contracts: the state of the game, the place of
/// the next unread bit and the tokens of the moves so far.
pub struct DecodeRun {
    pub track: Track,
    pub position: int,
    pub tokens: Seq<Seq<char>>,
}

/// A move read from a stream in contracts, and the place of the first bit
/// behind it.
pub struct Reading {
    pub token: Token,
    pub next: int,
}

/// The pawn move whose direction stands at `position`, three bits wide, and
/// the place behind it. The pawn lands where the landing rule puts it.
pub open spec fn read_pawn(bits: Seq<bool>, position: int, track: Track) -> Option<Reading> {
    match read_field(bits, position, 3) {
        Some(code) => match Direction::from_code_spec(code) {
            Some(direction) => Some(
                Reading {
                    token: Token::Pawn { target: track.landing(direction) },
                    next: position + 3,
                },
            ),
            None => None,
        },
        None => None,
    }
}

/// The wall at `position`, one bit for the way it lies and six for its slot,
/// and the place behind it.
pub open spec fn read_wall(bits: Seq<bool>, position: int) -> Option<Reading> {
    match read_field(bits, position + 1, 6) {
        Some(slot) => Some(
            Reading {
                token: Token::Wall {
                    anchor: slot_square(slot as int),
                    orientation: if bits[position] {
                        Orientation::Vertical
                    } else {
                        Orientation::Horizontal
                    },
                },
                next: position + 7,
            },
        ),
        None => None,
    }
}

/// The move that begins at `position`, and the place behind it: a bit `0`
/// opens a pawn move, a bit `1` a wall. `None` where the stream ends before
/// the move does or a pawn move has no direction.
pub open spec fn read_token(bits: Seq<bool>, position: int, track: Track) -> Option<Reading> {
    if 0 <= position < bits.len() {
        if bits[position] {
            read_wall(bits, position + 1)
        } else {
            read_pawn(bits, position + 1, track)
        }
    } else {
        None
    }
}

/// The decoder's progress after `count` moves, from the opening position
/// and the first bit behind the header; `None` once a move cannot be read or
/// has no text.
pub open spec fn decode_tokens(bits: Seq<bool>, count: nat) -> Option<DecodeRun>
    decreases count,
{
    if count == 0 {
        Some(
            DecodeRun {
                track: Track::start(),
                position: HEADER_BITS as int,
                tokens: Seq::empty(),
            },
        )
    } else {
        match decode_tokens(bits, (count - 1) as nat) {
            Some(run) => match read_token(bits, run.position, run.track) {
                Some(reading) => match format_token(reading.token) {
                    Some(text) => Some(
                        DecodeRun {
                            track: apply_token(run.track, reading.token),
                            position: reading.next,
                            tokens: run.tokens.push(text),
                        },
                    ),
                    None => None,
                },
                None => None,
            },
            None => None,
        }
    }
}

/// The tokens of a stream: it opens with the marker `0`, `1`, the next ten
/// bits count the moves, and the moves follow.
pub open spec fn decode_bits(bits: Seq<bool>) -> Option<Seq<Seq<char>>> {
    if bits.len() >= HEADER_BITS && !bits[0] && bits[1] {
        match decode_tokens(bits, value_of(bits.subrange(2, HEADER_BITS as int))) {
            Some(run) => Some(run.tokens),
            None => None,
        }
    } else {
        None
    }
}

/// The notation of a code, where it has one.
pub open spec fn decode_spec(code: Seq<char>) -> Option<Seq<char>> {
    match code_bits(code) {
        Some(bits) => match decode_bits(bits) {
            Some(tokens) => Some(join_commas(tokens)),
            None => None,
        },
        None => None,
    }
}

/// Once the decoder has failed on the first moves it fails on all of them.
pub proof fn lemma_decode_tokens_prefix(bits: Seq<bool>, k: nat, count: nat)
    requires
        k <= count,
        decode_tokens(bits, k) is None,
    ensures
        decode_tokens(bits, count) is None,
    decreases count,
{
    if k < count {
        lemma_decode_tokens_prefix(bits, k, (count - 1) as nat);
    }
}

/// A text has bits exactly when each of its characters has a value.
pub proof fn lemma_code_bits_chars(code: Seq<char>)
    ensures
        code_bits(code) is Some <==> forall|i: int|
            0 <= i < code.len() ==> (#[trigger] char_sextet(code[i])) is Some,
    decreases code.len(),
{
    if code.len() > 0 {
        let front = code.drop_last();
        lemma_code_bits_chars(front);
        if code_bits(code) is Some {
            assert forall|i: int| 0 <= i < code.len() implies (#[trigger] char_sextet(
                code[i],
            )) is Some by {
                if i < front.len() {
                    assert(code[i] == front[i]);
                }
            }
        }
        if forall|i: int| 0 <= i < code.len() ==> (#[trigger] char_sextet(code[i])) is Some {
            assert forall|i: int| 0 <= i < front.len() implies (#[trigger] char_sextet(
                front[i],
            )) is Some by {
                assert(front[i] == code[i]);
            }
            assert(char_sextet(code[code.len() - 1]) is Some);
        }
    }
}

/// A text that has bits holds one-byte characters only.
pub proof fn lemma_code_is_ascii(code: Seq<char>)
    requires
        code_bits(code) is Some,
    ensures
        is_ascii_chars(code),
{
    lemma_code_bits_chars(code);
    assert forall|i: int| 0 <= i < code.len() implies '\0' <= #[trigger] code[i] <= '\u{7f}' by {
        assert(char_sextet(code[i]) is Some);
    }
}

/// The stream of bits of a text, six for each character; `None` where a
/// character is outside the alphabet.
pub fn code_to_bits(code: &str) -> (bits: Option<Vec<bool>>)
    ensures
        match bits {
            Some(bits) => code_bits(code@) == Some(bits@),
            None => code_bits(code@) is None,
        },
{
    if !code.is_ascii() {
        proof {
            if code_bits(code@) is Some {
                lemma_code_is_ascii(code@);
            }
        }
        return None;
    }
    let text = code.as_bytes();
    proof {
        broadcast use vstd::string::is_ascii_spec_bytes;

    }
    let mut bits: Vec<bool> = Vec::new();
    let mut i: usize = 0;
    assert(code@.take(0) =~= Seq::<char>::empty());
    while i < text.len()
        invariant
            i <= text.len() == code@.len(),
            code.is_ascii(),
            text@ == Seq::new(code@.len(), |i: int| code@[i] as u8),
            code_bits(code@.take(i as int)) == Some(bits@),
        decreases text.len() - i,
    {
        proof {
            assert(code@.take(i + 1).drop_last() =~= code@.take(i as int));
            assert(text@[i as int] == code@[i as int] as u8);
            assert((text@[i as int] as char) == code@[i as int]);
        }
        match sextet_of_byte(text[i]) {
            Some(value) => {
                push_bits(&mut bits, value as u64, 6);
            },
            None => {
                proof {
                    lemma_code_bits_chars(code@);
                }
                return None;
            },
        }
        i = i + 1;
    }
    assert(code@.take(i as int) =~= code@);
    Some(bits)
}

/// Reads the pawn move whose direction stands at `position` and adds its
/// token to the list: the pawn lands on the next square in that direction,
/// or behind the other pawn where that one stands there. An error where the
/// stream ends before the move does, the direction number is odd or the pawn
/// lands outside the columns `a` to `i`; then nothing changes.
pub fn process_move(
    bits: &Vec<bool>,
    position: &mut usize,
    movelist: &mut Vec<String>,
    tracker: &mut PositionTracker,
) -> (done: Result<(), QFError>)
    requires
        old(tracker)@.can_step(),
    ensures
        match done {
            Ok(_) => {
                let read = read_pawn(bits@, *old(position) as int, old(tracker)@);
                &&& read is Some
                &&& format_token(read->0.token) is Some
                &&& *final(position) == read->0.next
                &&& texts(final(movelist)@) == texts(old(movelist)@).push(
                    format_token(read->0.token)->0,
                )
                &&& final(tracker)@ == apply_token(old(tracker)@, read->0.token)
            },
            Err(_) => {
                let read = read_pawn(bits@, *old(position) as int, old(tracker)@);
                &&& read is None || format_token(read->0.token) is None
                &&& *final(position) == *old(position)
                &&& final(movelist)@ == old(movelist)@
                &&& *final(tracker) == *old(tracker)
            },
        },
{
    let code = match read_bits(bits, *position, 3) {
        Some(code) => code,
        None => {
            return Err(QFError::QFDecodeError);
        },
    };
    assert(*position + 3 <= bits.len());
    let direction = match Direction::from_code(code) {
        Some(direction) => direction,
        None => {
            return Err(QFError::QFDecodeError);
        },
    };
    let mut moved = *tracker;
    let landing = moved.resolve_pawn_landing(direction);
    let token = MoveToken::PawnMove { target: landing };
    match token.to_text() {
        Some(text) => {
            movelist.push(text);
            *tracker = moved;
            *position = *position + 3;
            assert(texts(movelist@) =~= texts(old(movelist)@).push(format_token(token@)->0));
            Ok(())
        },
        None => Err(QFError::QFDecodeError),
    }
}

/// Reads the wall at `position` and adds its token to the list; the turn
/// passes. An error where the stream ends before the wall does; then nothing
/// changes.
pub fn process_wall(
    bits: &Vec<bool>,
    position: &mut usize,
    movelist: &mut Vec<String>,
    tracker: &mut PositionTracker,
) -> (done: Result<(), QFError>)
    ensures
        match done {
            Ok(_) => {
                let read = read_wall(bits@, *old(position) as int);
                &&& read is Some
                &&& format_token(read->0.token) is Some
                &&& *final(position) == read->0.next
                &&& texts(final(movelist)@) == texts(old(movelist)@).push(
                    format_token(read->0.token)->0,
                )
                &&& final(tracker)@ == apply_token(old(tracker)@, read->0.token)
            },
            Err(_) => {
                &&& read_wall(bits@, *old(position) as int) is None
                &&& *final(position) == *old(position)
                &&& final(movelist)@ == old(movelist)@
                &&& *final(tracker) == *old(tracker)
            },
        },
{
    if *position >= bits.len() {
        return Err(QFError::QFDecodeError);
    }
    let slot = match read_bits(bits, *position + 1, 6) {
        Some(slot) => slot,
        None => {
            return Err(QFError::QFDecodeError);
        },
    };
    proof {
        crate::bits::lemma_value_of_bound(
            bits@.subrange(*position as int + 1, *position as int + 7),
        );
        vstd::arithmetic::power2::lemma2_to64();
    }
    let orientation = if bits[*position] {
        Orientation::Vertical
    } else {
        Orientation::Horizontal
    };
    let token = MoveToken::WallPlacement { anchor: slot_anchor(slot), orientation };
    match token.to_text() {
        Some(text) => {
            movelist.push(text);
            tracker.pass_turn();
            *position = *position + 7;
            assert(texts(movelist@) =~= texts(old(movelist)@).push(format_token(token@)->0));
            Ok(())
        },
        None => Err(QFError::QFDecodeError),
    }
}

/// How far a pawn can be from the opening squares after `moves` moves.
pub open spec fn within_reach(track: Track, moves: int) -> bool {
    &&& -2 * moves <= track.first.column <= 10 + 2 * moves
    &&& -2 * moves <= track.first.row <= 10 + 2 * moves
    &&& -2 * moves <= track.second.column <= 10 + 2 * moves
    &&& -2 * moves <= track.second.row <= 10 + 2 * moves
}

/// Decodes a QF code to the notation of its game.
///
/// The text has a notation where all its characters belong to the alphabet,
/// its stream of bits opens with the marker `0`, `1` and holds every move
/// that its header counts, every pawn move has one of the four direction
/// numbers, and every pawn lands on a column from `a` to `i`; otherwise the
/// result is an error.
pub fn decode(qf_code: &str) -> (notation: Result<String, QFError>)
    ensures
        match notation {
            Ok(notation) => decode_spec(qf_code@) == Some(notation@),
            Err(_) => decode_spec(qf_code@) is None,
        },
        (exists|i: int| 0 <= i < qf_code@.len() && !alphabet().contains(qf_code@[i]))
            ==> notation is Err,
        notation is Ok ==> {
            let bits = code_bits(qf_code@);
            &&& bits is Some
            &&& bits->0.len() >= HEADER_BITS
            &&& bits->0[0] == false
            &&& bits->0[1] == true
        },
{
    let bits = match code_to_bits(qf_code) {
        Some(bits) => bits,
        None => {
            return Err(QFError::QFDecodeError);
        },
    };
    proof {
        lemma_code_bits_chars(qf_code@);
        assert forall|i: int| 0 <= i < qf_code@.len() implies alphabet().contains(
            #[trigger] qf_code@[i],
        ) by {
            assert(char_sextet(qf_code@[i]) is Some);
            lemma_alphabet_membership(qf_code@[i]);
        }
    }
    if bits.len() < HEADER_BITS || bits[0] || !bits[1] {
        return Err(QFError::QFDecodeError);
    }
    let count = match read_bits(&bits, 2, 10) {
        Some(count) => count,
        None => {
            return Err(QFError::QFDecodeError);
        },
    };
    proof {
        crate::bits::lemma_value_of_bound(bits@.subrange(2, 12));
        vstd::arithmetic::power2::lemma2_to64();
    }
    let mut tracker = PositionTracker::new();
    let mut movelist: Vec<String> = Vec::new();
    let mut position: usize = HEADER_BITS;
    let mut read: u64 = 0;
    assert(texts(movelist@) =~= Seq::<Seq<char>>::empty());
    while read < count
        invariant
            read <= count < 1024,
            bits.len() >= HEADER_BITS,
            code_bits(qf_code@) == Some(bits@),
            !bits[0] && bits[1],
            count == value_of(bits@.subrange(2, 12)),
            decode_tokens(bits@, read as nat) == Some(
                DecodeRun {
                    track: tracker@,
                    position: position as int,
                    tokens: texts(movelist@),
                },
            ),
            within_reach(tracker@, read as int),
        decreases count - read,
    {
        proof {
            if decode_tokens(bits@, (read + 1) as nat) is None {
                lemma_decode_tokens_prefix(bits@, (read + 1) as nat, count as nat);
            }
        }
        if position >= bits.len() {
            return Err(QFError::QFDecodeError);
        }
        let wall = bits[position];
        position = position + 1;
        let done = if wall {
            process_wall(&bits, &mut position, &mut movelist, &mut tracker)
        } else {
            process_move(&bits, &mut position, &mut movelist, &mut tracker)
        };
        match done {
            Ok(_) => {},
            Err(e) => {
                return Err(e);
            },
        }
        read = read + 1;
    }
    Ok(join_tokens(&movelist))
}

} // verus!
