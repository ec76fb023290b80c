//! From move notation to QF code.
//!
//! A code is a stream of bits in text form. The stream opens with a header
//! of twelve bits: the marker `0`, `1` and the number of moves in ten bits.
//! Each pawn move follows as `0` and the three bits of its direction, each
//! wall as `1`, one bit for the way it lies and its slot number. Zeros fill
//! the stream up to a whole number of characters.

use crate::base64::{
    alphabet,
    code_bits,
    last_group_len,
    lemma_code_bits_render,
    lemma_render_in_alphabet,
    push_sextet,
    render,
};
use crate::bits::{
    bits_be,
    lemma_bits_be_len,
    lemma_padded_binary_fits,
    padded_binary,
    push_binary,
    push_bits,
    read_bits,
};
use crate::board::{
    on_wall_grid,
    slot_word,
    wall_slot,
    wall_slot_word,
    Coordinate,
    Direction,
    PositionTracker,
    Square,
    Track,
};
use crate::notation::{
    apply_token,
    lemma_parsed_is_ascii,
    lemma_split_ascii,
    lemma_split_prefix,
    lemma_split_push,
    parse_token,
    split_commas,
    MoveToken,
    Orientation,
    Token,
};
use vstd::prelude::*;
use vstd::utf8::is_ascii_chars;

verus! {

/// Why a notation has no code: a token spells no move, a pawn move is not
/// one or two squares along one axis, or there are more than 1023 moves.
#[derive(Clone, Copy, Debug, PartialEq, Eq, Structural)]
pub enum QFError {
    QFEncodeError,
}

/// The largest number of moves that the header can hold.
pub const MAX_MOVES: usize = 1023;

/// An encoder's progress in contracts: the state of the game and the bits
/// written for the moves so far.
pub struct EncodeRun {
    pub track: Track,
    pub payload: Seq<bool>,
}

/// The bits of a pawn move: `0`, then the direction in three bits.
pub open spec fn pawn_bits(direction: Direction) -> Seq<bool> {
    seq![false] + bits_be(direction.code_spec(), 3)
}

/// The bits of a wall: `1`, then `0` for a horizontal or `1` for a vertical
/// wall, then the slot number in binary, filled up to six digits. On the
/// wall grid these are six digits exactly. An anchor beside the grid has a
/// slot number above 63 or below 0, which takes all the digits of its
/// machine word: seven or sixty-four.
pub open spec fn wall_bits(anchor: Square, orientation: Orientation) -> Seq<bool> {
    seq![true, orientation == Orientation::Vertical] + padded_binary(
        slot_word(wall_slot(anchor)),
        6,
    )
}

/// The bits of a move in a given state of the game. A pawn move that is not
/// one or two squares along one axis has none.
pub open spec fn token_bits(track: Track, token: Token) -> Option<Seq<bool>> {
    match token {
        Token::Pawn { target } => match track.pawn_direction(target) {
            Some(direction) => Some(pawn_bits(direction)),
            None => None,
        },
        Token::Wall { anchor, orientation } => Some(wall_bits(anchor, orientation)),
    }
}

/// The encoder's progress after the given tokens, from the opening position;
/// `None` once a token spells no move or has no bits.
pub open spec fn encode_tokens(tokens: Seq<Seq<char>>) -> Option<EncodeRun>
    decreases tokens.len(),
{
    if tokens.len() == 0 {
        Some(EncodeRun { track: Track::start(), payload: Seq::empty() })
    } else {
        match (encode_tokens(tokens.drop_last()), parse_token(tokens.last())) {
            (Some(run), Some(token)) => match token_bits(run.track, token) {
                Some(bits) => Some(
                    EncodeRun {
                        track: apply_token(run.track, token),
                        payload: run.payload + bits,
                    },
                ),
                None => None,
            },
            _ => None,
        }
    }
}

/// The header of a stream with `count` moves.
pub open spec fn header(count: nat) -> Seq<bool> {
    seq![false, true] + bits_be(count, 10)
}

/// The zeros that fill a stream of `len` bits up to a multiple of six.
pub open spec fn padding(len: nat) -> Seq<bool> {
    Seq::new(((6 - len % 6) % 6) as nat, |i: int| false)
}

/// The bit stream of a notation: header, moves and padding.
pub open spec fn encode_bits(notation: Seq<char>) -> Option<Seq<bool>> {
    let tokens = split_commas(notation);
    if tokens.len() > MAX_MOVES {
        None
    } else {
        match encode_tokens(tokens) {
            Some(run) => {
                let stream = header(tokens.len()) + run.payload;
                Some(stream + padding(stream.len()))
            },
            None => None,
        }
    }
}

/// The code of a notation, where it has one.
pub open spec fn encode_spec(notation: Seq<char>) -> Option<Seq<char>> {
    match encode_bits(notation) {
        Some(bits) => Some(render(bits)),
        None => None,
    }
}

/// A wall on the grid takes eight bits: the slot number fits six digits.
pub proof fn lemma_wall_bits_on_grid(anchor: Square, orientation: Orientation)
    requires
        on_wall_grid(anchor),
    ensures
        0 <= wall_slot(anchor) < 64,
        wall_bits(anchor, orientation) == seq![true, orientation == Orientation::Vertical]
            + bits_be(wall_slot(anchor) as nat, 6),
        wall_bits(anchor, orientation).len() == 8,
{
    vstd::arithmetic::power2::lemma2_to64();
    lemma_padded_binary_fits(wall_slot(anchor) as nat, 6);
    lemma_bits_be_len(wall_slot(anchor) as nat, 6);
}

/// Once the encoder has failed on the first tokens it fails on all of them.
pub proof fn lemma_encode_tokens_prefix(tokens: Seq<Seq<char>>, k: int)
    requires
        0 <= k <= tokens.len(),
        encode_tokens(tokens.take(k)) is None,
    ensures
        encode_tokens(tokens) is None,
    decreases tokens.len() - k,
{
    if k == tokens.len() {
        assert(tokens.take(k) =~= tokens);
    } else {
        assert(tokens.take(k + 1).drop_last() =~= tokens.take(k));
        lemma_encode_tokens_prefix(tokens, k + 1);
    }
}

/// Every token that the encoder accepts spells a move.
pub proof fn lemma_encode_tokens_parse(tokens: Seq<Seq<char>>)
    requires
        encode_tokens(tokens) is Some,
    ensures
        forall|k: int| 0 <= k < tokens.len() ==> parse_token(#[trigger] tokens[k]) is Some,
    decreases tokens.len(),
{
    if tokens.len() > 0 {
        lemma_encode_tokens_parse(tokens.drop_last());
        assert forall|k: int| 0 <= k < tokens.len() implies parse_token(
            #[trigger] tokens[k],
        ) is Some by {
            if k < tokens.len() - 1 {
                assert(tokens.drop_last()[k] == tokens[k]);
            }
        }
    }
}

/// A notation that has a code holds one-byte characters only.
pub proof fn lemma_encodable_is_ascii(notation: Seq<char>)
    requires
        encode_spec(notation) is Some,
    ensures
        is_ascii_chars(notation),
{
    let tokens = split_commas(notation);
    lemma_encode_tokens_parse(tokens);
    assert forall|k: int| 0 <= k < tokens.len() implies is_ascii_chars(#[trigger] tokens[k]) by {
        lemma_parsed_is_ascii(tokens[k]);
    }
    lemma_split_ascii(notation);
}

/// Writes a pawn move to `target`: where the move is one or two squares
/// along one axis, its bits go to the stream and the pawn to `target`;
/// otherwise it is an error and nothing changes.
pub fn process_move(
    target: Coordinate,
    bits: &mut Vec<bool>,
    tracker: &mut PositionTracker,
) -> (done: Result<(), QFError>)
    ensures
        match done {
            Ok(_) => {
                &&& old(tracker)@.pawn_direction(target@) is Some
                &&& final(bits)@ == old(bits)@ + pawn_bits(
                    old(tracker)@.pawn_direction(target@)->0,
                )
                &&& final(tracker)@ == old(tracker)@.moved_to(target@)
            },
            Err(_) => {
                &&& old(tracker)@.pawn_direction(target@) is None
                &&& final(bits)@ == old(bits)@
                &&& *final(tracker) == *old(tracker)
            },
        },
{
    match tracker.apply_pawn_delta(target) {
        Some(direction) => {
            bits.push(false);
            push_bits(bits, direction.code() as u64, 3);
            assert(bits@ =~= old(bits)@ + pawn_bits(direction));
            Ok(())
        },
        None => Err(QFError::QFEncodeError),
    }
}

/// Writes a wall: its bits go to the stream and the turn passes.
pub fn process_wall(
    anchor: Coordinate,
    orientation: Orientation,
    bits: &mut Vec<bool>,
    tracker: &mut PositionTracker,
)
    ensures
        final(bits)@ == old(bits)@ + wall_bits(anchor@, orientation),
        final(tracker)@ == old(tracker)@.passed(),
{
    bits.push(true);
    bits.push(
        match orientation {
            Orientation::Horizontal => false,
            Orientation::Vertical => true,
        },
    );
    push_binary(bits, wall_slot_word(anchor), 6);
    tracker.pass_turn();
    assert(bits@ =~= old(bits)@ + wall_bits(anchor@, orientation));
}

/// Reads one token and writes its move. An error where the token spells no
/// move or the move has no bits; then nothing changes.
pub fn process_token(text: &str, bits: &mut Vec<bool>, tracker: &mut PositionTracker) -> (done:
    Result<(), QFError>)
    ensures
        match done {
            Ok(_) => {
                &&& parse_token(text@) is Some
                &&& token_bits(old(tracker)@, parse_token(text@)->0) is Some
                &&& final(bits)@ == old(bits)@ + token_bits(
                    old(tracker)@,
                    parse_token(text@)->0,
                )->0
                &&& final(tracker)@ == apply_token(old(tracker)@, parse_token(text@)->0)
            },
            Err(_) => {
                &&& parse_token(text@) is None || token_bits(
                    old(tracker)@,
                    parse_token(text@)->0,
                ) is None
                &&& final(bits)@ == old(bits)@
                &&& *final(tracker) == *old(tracker)
            },
        },
{
    match MoveToken::parse(text) {
        Some(MoveToken::PawnMove { target }) => process_move(target, bits, tracker),
        Some(MoveToken::WallPlacement { anchor, orientation }) => {
            process_wall(anchor, orientation, bits, tracker);
            Ok(())
        },
        None => Err(QFError::QFEncodeError),
    }
}

/// Fills the stream up with zeros to a multiple of six bits.
pub fn pad_binary_string(bits: &mut Vec<bool>)
    ensures
        final(bits)@ == old(bits)@ + padding(old(bits)@.len()),
        final(bits)@.len() % 6 == 0,
{
    let missing: usize = (6 - bits.len() % 6) % 6;
    let mut added: usize = 0;
    while added < missing
        invariant
            added <= missing,
            missing == (6 - old(bits)@.len() % 6) % 6,
            bits@ == old(bits)@ + Seq::new(added as nat, |i: int| false),
        decreases missing - added,
    {
        bits.push(false);
        added = added + 1;
        assert(bits@ =~= old(bits)@ + Seq::new(added as nat, |i: int| false));
    }
}

/// Renders a stream as text: one character of the alphabet for each six
/// bits, the last group being shorter where the length is no multiple of six.
pub fn convert_to_base64(bits: &Vec<bool>) -> (code: String)
    ensures
        code@ == render(bits@),
{
    let mut code = String::new();
    let len = bits.len();
    let mut done: usize = 0;
    assert(bits@.take(0) =~= Seq::<bool>::empty());
    while done < len
        invariant
            done <= len == bits.len(),
            done % 6 == 0 || done == len,
            code@ == render(bits@.take(done as int)),
        decreases len - done,
    {
        let width: usize = if len - done < 6 {
            len - done
        } else {
            6
        };
        let value = match read_bits(bits, done, width) {
            Some(value) => value,
            None => 0,
        };
        proof {
            let next = bits@.take(done + width);
            let cut = next.len() - last_group_len(next.len());
            assert(cut == done);
            assert(next.take(cut) =~= bits@.take(done as int));
            assert(next.skip(cut) =~= bits@.subrange(done as int, done + width));
            crate::bits::lemma_value_of_bound(next.skip(cut));
            vstd::arithmetic::power2::lemma2_to64();
            if width < 6 {
                vstd::arithmetic::power2::lemma_pow2_strictly_increases(width as nat, 6);
            }
        }
        push_sextet(&mut code, value as u8);
        done = done + width;
    }
    assert(bits@.take(len as int) =~= bits@);
    code
}

/// The number of tokens of a notation of one-byte characters, or `None`
/// where they are more than the header can count.
fn count_tokens(text: &[u8], Ghost(notation): Ghost<Seq<char>>) -> (count: Option<usize>)
    requires
        is_ascii_chars(notation),
        text@ == Seq::new(notation.len(), |i: int| notation[i] as u8),
    ensures
        match count {
            Some(count) => count == split_commas(notation).len() && count <= MAX_MOVES,
            None => split_commas(notation).len() > MAX_MOVES,
        },
{
    let mut count: usize = 1;
    let mut i: usize = 0;
    assert(notation.take(0) =~= Seq::<char>::empty());
    while i < text.len()
        invariant
            i <= text.len() == notation.len(),
            is_ascii_chars(notation),
            text@ == Seq::new(notation.len(), |i: int| notation[i] as u8),
            count == split_commas(notation.take(i as int)).len(),
            1 <= count <= MAX_MOVES,
        decreases text.len() - i,
    {
        proof {
            lemma_split_push(notation.take(i as int), notation[i as int]);
            assert(notation.take(i + 1) =~= notation.take(i as int).push(notation[i as int]));
            assert(text@[i as int] == notation[i as int] as u8);
        }
        if text[i] == ',' as u8 {
            if count == MAX_MOVES {
                proof {
                    lemma_split_prefix(notation, i + 1);
                }
                return None;
            }
            count = count + 1;
        }
        i = i + 1;
    }
    assert(notation.take(i as int) =~= notation);
    Some(count)
}

/// Encodes a notation as a QF code.
///
/// The notation is a list of tokens with commas between them, at most 1023.
/// It has a code where every token spells a move and every pawn move goes
/// one or two squares along one axis from where that player's pawn stands;
/// otherwise the result is an error. The code is text over the alphabet, and
/// its stream of bits opens with the marker `0`, `1`.
pub fn encode(notation: &str) -> (code: Result<String, QFError>)
    ensures
        match code {
            Ok(code) => encode_spec(notation@) == Some(code@),
            Err(_) => encode_spec(notation@) is None,
        },
        split_commas(notation@).len() > MAX_MOVES ==> code is Err,
        code is Ok ==> {
            let text = code->Ok_0@;
            &&& forall|i: int| 0 <= i < text.len() ==> alphabet().contains(#[trigger] text[i])
            &&& code_bits(text) is Some
            &&& code_bits(text)->0.len() >= 12
            &&& code_bits(text)->0[0] == false
            &&& code_bits(text)->0[1] == true
        },
{
    if !notation.is_ascii() {
        proof {
            if encode_spec(notation@) is Some {
                lemma_encodable_is_ascii(notation@);
            }
        }
        return Err(QFError::QFEncodeError);
    }
    let text = notation.as_bytes();
    proof {
        broadcast use vstd::string::is_ascii_spec_bytes;

    }
    let count = match count_tokens(text, Ghost(notation@)) {
        Some(count) => count,
        None => {
            return Err(QFError::QFEncodeError);
        },
    };
    let mut bits: Vec<bool> = Vec::new();
    bits.push(false);
    bits.push(true);
    push_bits(&mut bits, count as u64, 10);
    assert(bits@ =~= header(count as nat));
    let mut tracker = PositionTracker::new();
    let len = text.len();
    let mut start: usize = 0;
    let mut i: usize = 0;
    let ghost mut done: Seq<Seq<char>> = Seq::empty();
    proof {
        assert(notation@.take(0) =~= Seq::<char>::empty());
        assert(notation@.subrange(0, 0) =~= Seq::<char>::empty());
        assert(split_commas(notation@.take(0)) =~= done.push(notation@.subrange(0, 0)));
    }
    while i < len
        invariant
            start <= i <= len == notation@.len(),
            notation.is_ascii(),
            text@ == Seq::new(notation@.len(), |i: int| notation@[i] as u8),
            count == split_commas(notation@).len(),
            split_commas(notation@.take(i as int)) == done.push(
                notation@.subrange(start as int, i as int),
            ),
            encode_tokens(done) is Some,
            encode_tokens(done)->0.track == tracker@,
            bits@ == header(count as nat) + encode_tokens(done)->0.payload,
        decreases len - i,
    {
        proof {
            lemma_split_push(notation@.take(i as int), notation@[i as int]);
            assert(notation@.take(i + 1) =~= notation@.take(i as int).push(notation@[i as int]));
            assert(text@[i as int] == notation@[i as int] as u8);
        }
        if text[i] == ',' as u8 {
            let token = notation.substring_ascii(start, i);
            let ghost before = bits@;
            let ghost longer = done.push(token@);
            proof {
                assert(longer.drop_last() =~= done);
                lemma_split_prefix(notation@, i + 1);
                assert(split_commas(notation@.take(i + 1)).drop_last() =~= longer);
                assert(longer =~= split_commas(notation@).take(longer.len() as int));
            }
            match process_token(token, &mut bits, &mut tracker) {
                Ok(_) => {},
                Err(e) => {
                    proof {
                        lemma_encode_tokens_prefix(split_commas(notation@), longer.len() as int);
                    }
                    return Err(e);
                },
            }
            proof {
                assert(bits@ =~= header(count as nat) + encode_tokens(longer)->0.payload);
                done = longer;
                assert(notation@.subrange(i + 1, i + 1) =~= Seq::<char>::empty());
                assert(split_commas(notation@.take(i + 1)) =~= done.push(
                    notation@.subrange(i + 1, i + 1),
                ));
            }
            start = i + 1;
        } else {
            proof {
                assert(notation@.subrange(start as int, i + 1) =~= notation@.subrange(
                    start as int,
                    i as int,
                ).push(notation@[i as int]));
                assert(split_commas(notation@.take(i + 1)) =~= done.push(
                    notation@.subrange(start as int, i + 1),
                ));
            }
        }
        i = i + 1;
    }
    let token = notation.substring_ascii(start, len);
    let ghost all = done.push(token@);
    proof {
        assert(notation@.take(len as int) =~= notation@);
        assert(all.drop_last() =~= done);
    }
    match process_token(token, &mut bits, &mut tracker) {
        Ok(_) => {},
        Err(e) => {
            return Err(e);
        },
    }
    proof {
        assert(bits@ =~= header(count as nat) + encode_tokens(all)->0.payload);
        lemma_bits_be_len(count as nat, 10);
    }
    let ghost stream = bits@;
    pad_binary_string(&mut bits);
    let code = convert_to_base64(&bits);
    proof {
        lemma_render_in_alphabet(bits@);
        lemma_code_bits_render(bits@);
        assert(bits@[0] == stream[0]);
        assert(bits@[1] == stream[1]);
    }
    Ok(code)
}

} // verus!
