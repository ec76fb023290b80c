//! What holds of the codec as a whole: the laws that relate encoding and
//! decoding, stated over the functions that the contracts of
//! [`encode`](crate::qf_encode::encode) and
//! [`decode`](crate::qf_decode::decode) speak of.

use crate::base64::{
    alphabet,
    char_sextet,
    code_bits,
    lemma_alphabet_membership,
    lemma_code_bits_render,
    lemma_render_in_alphabet,
};
use crate::bits::{
    bits_be,
    lemma_bits_be_len,
    lemma_value_of_bits_be,
    value_of,
};
use crate::board::{on_wall_grid, slot_square, slot_word, wall_slot, Direction, Square, Track};
use crate::notation::{
    format_token,
    join_commas,
    lemma_format_parse,
    lemma_join_split,
    lemma_split_nonempty,
    parse_token,
    split_commas,
    Orientation,
    Token,
};
use crate::qf_decode::{
    decode_spec,
    decode_tokens,
    lemma_code_bits_chars,
    read_token,
    DecodeRun,
    Reading,
};
use crate::qf_encode::{
    encode_bits,
    encode_spec,
    encode_tokens,
    header,
    lemma_wall_bits_on_grid,
    padding,
    pawn_bits,
    token_bits,
    wall_bits,
    MAX_MOVES,
};
use vstd::arithmetic::power2::lemma2_to64;
use vstd::prelude::*;

verus! {

/// Whether a token, in a given state of the game, is one that the decoder
/// writes: a pawn move that is a step or a jump, or a wall on the 8 by 8
/// grid whose last letter is `h` or `v`.
pub open spec fn faithful_token(track: Track, text: Seq<char>) -> bool {
    match parse_token(text) {
        Some(Token::Pawn { target }) => track.is_step_or_jump(target),
        Some(Token::Wall { anchor, .. }) => on_wall_grid(anchor) && (text[2] == 'h' || text[2]
            == 'v'),
        None => false,
    }
}

/// Whether each of the tokens is faithful in the state of the game that the
/// tokens before it lead to.
pub open spec fn faithful_tokens(tokens: Seq<Seq<char>>) -> bool
    decreases tokens.len(),
{
    tokens.len() == 0 || (faithful_tokens(tokens.drop_last()) && match encode_tokens(
        tokens.drop_last(),
    ) {
        Some(run) => faithful_token(run.track, tokens.last()),
        None => false,
    })
}

/// Whether a notation records a game the way the decoder writes it: at most
/// 1023 tokens, each of them faithful.
pub open spec fn faithful_notation(notation: Seq<char>) -> bool {
    split_commas(notation).len() <= MAX_MOVES && faithful_tokens(split_commas(notation))
}

/// The slot number of a square on the wall grid lies between 0 and 63 and
/// leads back to the square, and the square of a slot number between 0 and
/// 63 lies on the grid and leads back to the number.
pub proof fn law_wall_slot_bijection(anchor: Square, slot: int)
    ensures
        on_wall_grid(anchor) ==> 0 <= wall_slot(anchor) < 64 && slot_square(wall_slot(anchor))
            == anchor,
        0 <= slot < 64 ==> on_wall_grid(slot_square(slot)) && wall_slot(slot_square(slot)) == slot,
{
}

/// A jump is found again: where the other pawn stands on the next square in
/// some direction, the move to the square behind it is written with that
/// direction, and the landing rule reads that direction as the square behind
/// the other pawn, not as the square between.
pub proof fn law_jump_inference(track: Track, direction: Direction)
    requires
        track.mover().stepped(direction, 1) == track.waiter(),
    ensures
        track.pawn_direction(track.mover().stepped(direction, 2)) == Some(direction),
        track.landing(direction) == track.mover().stepped(direction, 2),
        track.landing(direction) != track.waiter(),
        track.is_step_or_jump(track.mover().stepped(direction, 2)),
{
}

/// A step or a jump has a direction, and the landing rule leads from that
/// direction back to the target.
pub proof fn lemma_step_or_jump(track: Track, target: Square)
    requires
        track.is_step_or_jump(target),
    ensures
        track.pawn_direction(target) is Some,
        track.landing(track.pawn_direction(target)->0) == target,
{
    let direction = choose|direction: Direction|
        {
            ||| (#[trigger] track.mover().stepped(direction, 1)) == target && target
                != track.waiter()
            ||| track.mover().stepped(direction, 1) == track.waiter() && track.mover().stepped(
                direction,
                2,
            ) == target
        };
    assert(track.pawn_direction(target) == Some(direction));
}

/// The bits of a faithful token are read as the move that the token spells,
/// wherever they stand in a stream, and the text of that move is the token.
pub proof fn lemma_token_round_trip(
    track: Track,
    text: Seq<char>,
    bits: Seq<bool>,
    position: int,
)
    requires
        faithful_token(track, text),
        0 <= position,
        token_bits(track, parse_token(text)->0) is Some ==> {
            let written = token_bits(track, parse_token(text)->0)->0;
            position + written.len() as int <= bits.len() && bits.subrange(
                position,
                position + written.len() as int,
            ) == written
        },
    ensures
        token_bits(track, parse_token(text)->0) is Some,
        read_token(bits, position, track) == Some(
            Reading {
                token: parse_token(text)->0,
                next: position + token_bits(track, parse_token(text)->0)->0.len() as int,
            },
        ),
        format_token(parse_token(text)->0) == Some(text),
{
    let token = parse_token(text)->0;
    lemma_format_parse(text);
    lemma2_to64();
    match token {
        Token::Pawn { target } => {
            lemma_step_or_jump(track, target);
            let direction = track.pawn_direction(target)->0;
            let written = pawn_bits(direction);
            lemma_bits_be_len(direction.code_spec(), 3);
            lemma_value_of_bits_be(direction.code_spec(), 3);
            assert(bits[position] == written[0]);
            let field = bits.subrange(position + 1, position + 4);
            assert(field =~= bits_be(direction.code_spec(), 3)) by {
                assert forall|i: int| 0 <= i < 3 implies #[trigger] field[i] == bits_be(
                    direction.code_spec(),
                    3,
                )[i] by {
                    assert(bits[position + 1 + i] == written[1 + i]);
                }
            }
        },
        Token::Wall { anchor, orientation } => {
            let slot = wall_slot(anchor);
            law_wall_slot_bijection(anchor, slot);
            lemma_wall_bits_on_grid(anchor, orientation);
            lemma_value_of_bits_be(slot as nat, 6);
            let written = wall_bits(anchor, orientation);
            assert(bits[position] == written[0]);
            assert(bits[position + 1] == written[1]);
            let field = bits.subrange(position + 2, position + 8);
            assert(field =~= bits_be(slot as nat, 6)) by {
                assert forall|i: int| 0 <= i < 6 implies #[trigger] field[i] == bits_be(
                    slot as nat,
                    6,
                )[i] by {
                    assert(bits[position + 2 + i] == written[2 + i]);
                }
            }
        },
    }
}

/// Faithful tokens have bits, and a stream that holds those bits behind its
/// header is read as the same tokens, in the same states of the game.
pub proof fn lemma_tokens_round_trip(tokens: Seq<Seq<char>>, bits: Seq<bool>)
    requires
        faithful_tokens(tokens),
        encode_tokens(tokens) is Some ==> {
            let payload = encode_tokens(tokens)->0.payload;
            &&& 12 + payload.len() as int <= bits.len()
            &&& bits.subrange(12, 12 + payload.len() as int) == payload
        },
    ensures
        encode_tokens(tokens) is Some,
        decode_tokens(bits, tokens.len()) == Some(
            DecodeRun {
                track: encode_tokens(tokens)->0.track,
                position: 12 + encode_tokens(tokens)->0.payload.len() as int,
                tokens,
            },
        ),
    decreases tokens.len(),
{
    if tokens.len() == 0 {
        assert(tokens =~= Seq::<Seq<char>>::empty());
    } else {
        let front = tokens.drop_last();
        lemma_faithful_has_bits(tokens);
        let before = encode_tokens(front)->0;
        let token = parse_token(tokens.last())->0;
        let written = token_bits(before.track, token)->0;
        let payload = encode_tokens(tokens)->0.payload;
        assert(payload == before.payload + written);
        let whole = bits.subrange(12, 12 + payload.len() as int);
        let head = bits.subrange(12, 12 + before.payload.len() as int);
        assert(head =~= before.payload) by {
            assert forall|i: int| 0 <= i < before.payload.len() implies #[trigger] head[i]
                == before.payload[i] by {
                assert(whole[i] == payload[i]);
            }
        }
        lemma_tokens_round_trip(front, bits);
        let position: int = 12 + before.payload.len() as int;
        let tail = bits.subrange(position, position + written.len() as int);
        assert(tail =~= written) by {
            assert forall|i: int| 0 <= i < written.len() implies #[trigger] tail[i]
                == written[i] by {
                assert(whole[before.payload.len() + i] == payload[before.payload.len() + i]);
            }
        }
        lemma_token_round_trip(before.track, tokens.last(), bits, position);
        assert(front.push(tokens.last()) =~= tokens);
    }
}

/// Faithful tokens have bits.
pub proof fn lemma_faithful_has_bits(tokens: Seq<Seq<char>>)
    requires
        faithful_tokens(tokens),
    ensures
        encode_tokens(tokens) is Some,
    decreases tokens.len(),
{
    if tokens.len() > 0 {
        let front = tokens.drop_last();
        lemma_faithful_has_bits(front);
        let before = encode_tokens(front)->0;
        match parse_token(tokens.last())->0 {
            Token::Pawn { target } => {
                lemma_step_or_jump(before.track, target);
            },
            Token::Wall { .. } => {},
        }
    }
}

/// A stream with its padding is a whole number of groups of six bits, and
/// the padding changes none of the bits before it.
pub proof fn lemma_padding(stream: Seq<bool>)
    ensures
        (stream + padding(stream.len())).len() % 6 == 0,
        (stream + padding(stream.len())).len() >= stream.len(),
        (stream + padding(stream.len())).take(stream.len() as int) == stream,
{
    assert((stream + padding(stream.len())).take(stream.len() as int) =~= stream);
}

/// Decoding undoes encoding: a faithful notation has a code, and the code
/// has that very notation.
pub proof fn law_round_trip(notation: Seq<char>)
    requires
        faithful_notation(notation),
    ensures
        encode_spec(notation) is Some,
        decode_spec(encode_spec(notation)->0) == Some(notation),
{
    let tokens = split_commas(notation);
    lemma_faithful_has_bits(tokens);
    lemma_encoded_stream(notation);
    lemma_tokens_round_trip(tokens, encode_bits(notation)->0);
    lemma_join_split(notation);
}

/// The encoder's progress on the first tokens is part of its progress on all
/// of them: it has one, and the bits written so far stay where they are.
pub proof fn lemma_encode_tokens_take(tokens: Seq<Seq<char>>, k: int)
    requires
        encode_tokens(tokens) is Some,
        0 <= k <= tokens.len(),
    ensures
        encode_tokens(tokens.take(k)) is Some,
        encode_tokens(tokens.take(k))->0.payload.len() <= encode_tokens(tokens)->0.payload.len(),
        encode_tokens(tokens)->0.payload.take(
            encode_tokens(tokens.take(k))->0.payload.len() as int,
        ) == encode_tokens(tokens.take(k))->0.payload,
    decreases tokens.len(),
{
    let payload = encode_tokens(tokens)->0.payload;
    if k == tokens.len() {
        assert(tokens.take(k) =~= tokens);
        assert(payload.take(payload.len() as int) =~= payload);
    } else {
        let front = tokens.drop_last();
        lemma_encode_tokens_take(front, k);
        assert(front.take(k) =~= tokens.take(k));
        let shorter = encode_tokens(tokens.take(k))->0.payload;
        let before = encode_tokens(front)->0.payload;
        assert(payload.take(shorter.len() as int) =~= before.take(shorter.len() as int));
    }
}

/// The decoder's progress after `count` moves holds `count` tokens, and it
/// grows out of its progress after fewer moves.
pub proof fn lemma_decode_tokens_take(bits: Seq<bool>, count: nat, k: nat)
    requires
        decode_tokens(bits, count) is Some,
        k <= count,
    ensures
        decode_tokens(bits, k) is Some,
        decode_tokens(bits, count)->0.tokens.len() == count,
        decode_tokens(bits, k)->0.tokens == decode_tokens(bits, count)->0.tokens.take(k as int),
    decreases count,
{
    let tokens = decode_tokens(bits, count)->0.tokens;
    if count == 0 {
        assert(tokens.take(0) =~= tokens);
    } else {
        lemma_decode_tokens_take(bits, (count - 1) as nat, if k == count {
            (count - 1) as nat
        } else {
            k
        });
        let before = decode_tokens(bits, (count - 1) as nat)->0.tokens;
        if k == count {
            assert(tokens.take(k as int) =~= tokens);
        } else {
            assert(tokens.take(k as int) =~= before.take(k as int));
        }
    }
}

/// Where the landing rule leads from the direction of a move back to its
/// target, the move is a step or a jump.
pub proof fn lemma_landing_is_step_or_jump(track: Track, target: Square)
    requires
        track.pawn_direction(target) is Some,
        track.landing(track.pawn_direction(target)->0) == target,
    ensures
        track.is_step_or_jump(target),
{
    let direction = track.pawn_direction(target)->0;
    if track.mover().stepped(direction, 1) == track.waiter() {
        assert(track.mover().stepped(direction, 2) == target);
    } else {
        assert(track.mover().stepped(direction, 1) == target);
    }
}

/// A token that the decoder reads from the token's own bits with the token's
/// own text is faithful.
pub proof fn lemma_token_read_back(track: Track, text: Seq<char>, bits: Seq<bool>, position: int)
    requires
        0 <= position,
        parse_token(text) is Some,
        token_bits(track, parse_token(text)->0) is Some,
        position + token_bits(track, parse_token(text)->0)->0.len() as int <= bits.len(),
        bits.subrange(
            position,
            position + token_bits(track, parse_token(text)->0)->0.len() as int,
        ) == token_bits(track, parse_token(text)->0)->0,
        read_token(bits, position, track) is Some,
        format_token(read_token(bits, position, track)->0.token) == Some(text),
    ensures
        faithful_token(track, text),
{
    let token = parse_token(text)->0;
    let written = token_bits(track, token)->0;
    let part = bits.subrange(position, position + written.len() as int);
    let read = read_token(bits, position, track)->0.token;
    lemma2_to64();
    crate::notation::lemma_letters();
    match token {
        Token::Pawn { target } => {
            let direction = track.pawn_direction(target)->0;
            lemma_bits_be_len(direction.code_spec(), 3);
            lemma_value_of_bits_be(direction.code_spec(), 3);
            assert(bits[position] == part[0]);
            let field = bits.subrange(position + 1, position + 4);
            assert(field =~= bits_be(direction.code_spec(), 3)) by {
                assert forall|i: int| 0 <= i < 3 implies #[trigger] field[i] == bits_be(
                    direction.code_spec(),
                    3,
                )[i] by {
                    assert(bits[position + 1 + i] == part[1 + i]);
                }
            }
            let landing = track.landing(direction);
            assert(read == Token::Pawn { target: landing });
            crate::notation::lemma_decimal(landing.row);
            assert(format_token(read)->0.len() == 1 + crate::notation::decimal(landing.row).len());
            crate::notation::lemma_parse_format(read);
            lemma_landing_is_step_or_jump(track, target);
        },
        Token::Wall { anchor, orientation } => {
            lemma_bits_be_len(slot_word(wall_slot(anchor)), 6);
            assert(written.len() >= 2);
            assert(bits[position] == part[0]);
            let slot = value_of(bits.subrange(position + 2, position + 8));
            crate::bits::lemma_value_of_bound(bits.subrange(position + 2, position + 8));
            law_wall_slot_bijection(anchor, slot as int);
            crate::notation::lemma_parse_format(read);
            assert(text[2] == crate::notation::orientation_letter(
                if bits[position + 1] {
                    Orientation::Vertical
                } else {
                    Orientation::Horizontal
                },
            ));
        },
    }
}

/// Tokens that the decoder reads back from their own bits are faithful.
pub proof fn lemma_tokens_read_back(tokens: Seq<Seq<char>>, bits: Seq<bool>, k: int)
    requires
        0 <= k <= tokens.len(),
        encode_tokens(tokens) is Some,
        12 + encode_tokens(tokens)->0.payload.len() as int <= bits.len(),
        bits.subrange(12, 12 + encode_tokens(tokens)->0.payload.len() as int) == encode_tokens(
            tokens,
        )->0.payload,
        decode_tokens(bits, k as nat) is Some,
        decode_tokens(bits, k as nat)->0.tokens == tokens.take(k),
    ensures
        faithful_tokens(tokens.take(k)),
    decreases k,
{
    if k > 0 {
        let payload = encode_tokens(tokens)->0.payload;
        let whole = bits.subrange(12, 12 + payload.len() as int);
        let front = tokens.take(k - 1);
        let text = tokens[k - 1];
        assert(tokens.take(k).drop_last() =~= front);
        assert(tokens.take(k).last() == text);
        lemma_decode_tokens_take(bits, k as nat, (k - 1) as nat);
        assert(tokens.take(k).take(k - 1) =~= front);
        lemma_tokens_read_back(tokens, bits, k - 1);
        lemma_encode_tokens_take(tokens, k - 1);
        lemma_encode_tokens_take(tokens, k);
        let before = encode_tokens(front)->0;
        let after = encode_tokens(tokens.take(k))->0;
        let token = parse_token(text)->0;
        let written = token_bits(before.track, token)->0;
        assert(after.payload == before.payload + written);
        let head = bits.subrange(12, 12 + before.payload.len() as int);
        assert(head =~= before.payload) by {
            assert forall|i: int| 0 <= i < before.payload.len() implies #[trigger] head[i]
                == before.payload[i] by {
                assert(whole[i] == payload[i]);
                assert(payload.take(before.payload.len() as int)[i] == payload[i]);
            }
        }
        lemma_tokens_round_trip(front, bits);
        let position: int = 12 + before.payload.len() as int;
        let tail = bits.subrange(position, position + written.len() as int);
        assert(tail =~= written) by {
            assert forall|i: int| 0 <= i < written.len() implies #[trigger] tail[i]
                == written[i] by {
                assert(whole[before.payload.len() + i] == payload[before.payload.len() + i]);
                assert(payload.take(after.payload.len() as int)[before.payload.len() + i]
                    == payload[before.payload.len() + i]);
            }
        }
        let run = decode_tokens(bits, (k - 1) as nat)->0;
        let reading = read_token(bits, run.position, run.track)->0;
        assert(decode_tokens(bits, k as nat)->0.tokens == run.tokens.push(
            format_token(reading.token)->0,
        ));
        assert(format_token(reading.token)->0 == tokens.take(k)[k - 1]);
        lemma_token_read_back(before.track, text, bits, position);
    }
}

/// The tokens that the decoder writes hold no comma.
pub proof fn lemma_decoded_plain(bits: Seq<bool>, count: nat)
    requires
        decode_tokens(bits, count) is Some,
    ensures
        decode_tokens(bits, count)->0.tokens.len() == count,
        forall|k: int|
            0 <= k < count ==> !(#[trigger] decode_tokens(bits, count)->0.tokens[k]).contains(','),
    decreases count,
{
    if count > 0 {
        let before = decode_tokens(bits, (count - 1) as nat)->0;
        lemma_decoded_plain(bits, (count - 1) as nat);
        let reading = read_token(bits, before.position, before.track)->0;
        crate::notation::lemma_format_plain(reading.token);
        let tokens = decode_tokens(bits, count)->0.tokens;
        assert(tokens == before.tokens.push(format_token(reading.token)->0));
        assert forall|k: int| 0 <= k < count implies !(#[trigger] tokens[k]).contains(',') by {
            if k < count - 1 {
                assert(tokens[k] == before.tokens[k]);
            }
        }
    }
}

/// The stream of a notation that has a code: the text of the code stands
/// for it, it opens with the marker and the number of tokens, and the bits
/// of the tokens follow the header.
pub proof fn lemma_encoded_stream(notation: Seq<char>)
    requires
        encode_spec(notation) is Some,
    ensures
        code_bits(encode_spec(notation)->0) == encode_bits(notation),
        encode_tokens(split_commas(notation)) is Some,
        split_commas(notation).len() <= MAX_MOVES,
        ({
            let bits = encode_bits(notation)->0;
            let payload = encode_tokens(split_commas(notation))->0.payload;
            &&& bits.len() >= 12 + payload.len()
            &&& bits[0] == false
            &&& bits[1] == true
            &&& value_of(bits.subrange(2, 12)) == split_commas(notation).len()
            &&& bits.subrange(12, 12 + payload.len() as int) == payload
        }),
{
    let tokens = split_commas(notation);
    let run = encode_tokens(tokens)->0;
    let count = tokens.len();
    let stream = header(count) + run.payload;
    let bits = stream + padding(stream.len());
    lemma_padding(stream);
    lemma_bits_be_len(count, 10);
    lemma2_to64();
    lemma_value_of_bits_be(count, 10);
    lemma_code_bits_render(bits);
    assert(bits.subrange(2, 12) =~= bits_be(count, 10));
    assert(bits.subrange(12, 12 + run.payload.len() as int) =~= run.payload);
}

/// Only a faithful notation comes back: where a notation has a code and the
/// code has that very notation, the notation is faithful.
pub proof fn law_round_trip_only_faithful(notation: Seq<char>)
    requires
        encode_spec(notation) is Some,
        decode_spec(encode_spec(notation)->0) == Some(notation),
    ensures
        faithful_notation(notation),
{
    let tokens = split_commas(notation);
    let count = tokens.len();
    let bits = encode_bits(notation)->0;
    lemma_encoded_stream(notation);
    let read = decode_tokens(bits, count)->0.tokens;
    assert(join_commas(read) == notation);
    lemma_decoded_plain(bits, count);
    lemma_split_nonempty(notation);
    crate::notation::lemma_split_join(read);
    assert(read == tokens);
    assert(tokens.take(count as int) =~= tokens);
    lemma_tokens_read_back(tokens, bits, count as int);
}

/// The header counts at most 1023 moves: a notation with more tokens has no
/// code, and a notation with at most 1023 tokens has one as soon as each of
/// its tokens has bits.
pub proof fn law_move_count_bound(notation: Seq<char>)
    ensures
        split_commas(notation).len() > 1023 ==> encode_spec(notation) is None,
        split_commas(notation).len() <= 1023 && encode_tokens(split_commas(notation)) is Some
            ==> encode_spec(notation) is Some,
{
}

/// Every code opens with the marker: the stream of bits of an encoder's
/// code begins with `0`, `1`.
pub proof fn law_header_marker(notation: Seq<char>)
    requires
        encode_spec(notation) is Some,
    ensures
        code_bits(encode_spec(notation)->0) == encode_bits(notation),
        encode_bits(notation)->0.len() >= 12,
        encode_bits(notation)->0[0] == false,
        encode_bits(notation)->0[1] == true,
{
    lemma_encoded_stream(notation);
}

/// The marker guards the code: a text whose stream of bits differs from that
/// of a code with a notation in the first or the second bit has no notation.
pub proof fn law_header_flip(code: Seq<char>, other: Seq<char>)
    requires
        decode_spec(code) is Some,
        code_bits(other) is Some,
        code_bits(other)->0.len() >= 2,
        code_bits(other)->0[0] != code_bits(code)->0[0] || code_bits(other)->0[1] != code_bits(
            code,
        )->0[1],
    ensures
        decode_spec(other) is None,
{
}

/// Every character of an encoder's code belongs to the alphabet.
pub proof fn law_alphabet_closure(notation: Seq<char>)
    requires
        encode_spec(notation) is Some,
    ensures
        forall|i: int|
            0 <= i < encode_spec(notation)->0.len() ==> alphabet().contains(
                #[trigger] encode_spec(notation)->0[i],
            ),
{
    lemma_render_in_alphabet(encode_bits(notation)->0);
}

/// A text with a character outside the alphabet has no notation.
pub proof fn law_foreign_character(code: Seq<char>, i: int)
    requires
        0 <= i < code.len(),
        !alphabet().contains(code[i]),
    ensures
        decode_spec(code) is None,
{
    lemma_code_bits_chars(code);
    lemma_alphabet_membership(code[i]);
    if code_bits(code) is Some {
        assert(char_sextet(code[i]) is Some);
    }
}

} // verus!
