//! Move notation: a list of tokens with commas between them.
//!
//! A pawn move is the square it goes to, a column letter and a row digit
//! (`e2`). A wall is its anchor square and one more character for the way it
//! lies (`d2h`, `e7v`).

use crate::board::{Coordinate, Square, Track};
use vstd::prelude::*;
use vstd::utf8::is_ascii_chars;

verus! {

/// The way a wall lies.
#[derive(Clone, Copy, Debug, PartialEq, Eq, Structural)]
pub enum Orientation {
    Horizontal,
    Vertical,
}

/// A move in contracts.
pub enum Token {
    Pawn { target: Square },
    Wall { anchor: Square, orientation: Orientation },
}

/// A move: a pawn goes to a square, or a wall is placed at one.
#[derive(Clone, Copy, Debug, PartialEq, Eq, Structural)]
pub enum MoveToken {
    PawnMove { target: Coordinate },
    WallPlacement { anchor: Coordinate, orientation: Orientation },
}

impl View for MoveToken {
    type V = Token;

    open spec fn view(&self) -> Token {
        match *self {
            MoveToken::PawnMove { target } => Token::Pawn { target: target@ },
            MoveToken::WallPlacement { anchor, orientation } => Token::Wall {
                anchor: anchor@,
                orientation,
            },
        }
    }
}

/// The column letters, in the order of the columns 1 to 9.
pub open spec fn columns() -> Seq<char> {
    "abcdefghi"@
}

/// The ten digits, in the order of their values.
pub open spec fn digits() -> Seq<char> {
    "0123456789"@
}

/// The column that a letter names, 1 to 9 for `a` to `i`.
pub open spec fn column_of(c: char) -> Option<int> {
    if 'a' <= c <= 'i' {
        Some(c as int - 'a' as int + 1)
    } else {
        None
    }
}

/// The value of a decimal digit.
pub open spec fn digit_of(c: char) -> Option<int> {
    if '0' <= c <= '9' {
        Some(c as int - '0' as int)
    } else {
        None
    }
}

/// The letter of a column, for 1 to 9.
pub open spec fn column_letter(column: int) -> char {
    columns()[column - 1]
}

/// The digit of a value, for 0 to 9.
pub open spec fn digit_char(value: int) -> char {
    digits()[value]
}

/// Whether a character takes one byte in UTF-8.
pub open spec fn one_byte(c: char) -> bool {
    '\0' <= c <= '\u{7f}'
}

/// The move that a token spells. The length of a token counts in bytes of
/// UTF-8: a pawn move is a column letter and a digit; a wall is a column
/// letter, a digit and one more one-byte character, where `h` lays the wall
/// horizontally and every other character vertically. Anything else spells
/// no move.
pub open spec fn parse_token(text: Seq<char>) -> Option<Token> {
    if text.len() == 2 || (text.len() == 3 && one_byte(text[2])) {
        match (column_of(text[0]), digit_of(text[1])) {
            (Some(column), Some(row)) => {
                let square = Square { column, row };
                if text.len() == 2 {
                    Some(Token::Pawn { target: square })
                } else {
                    Some(
                        Token::Wall {
                            anchor: square,
                            orientation: if text[2] == 'h' {
                                Orientation::Horizontal
                            } else {
                                Orientation::Vertical
                            },
                        },
                    )
                }
            },
            _ => None,
        }
    } else {
        None
    }
}

/// The decimal numeral of a natural number.
pub open spec fn decimal_nat(n: nat) -> Seq<char>
    decreases n,
{
    if n < 10 {
        seq![digit_char(n as int)]
    } else {
        decimal_nat(n / 10).push(digit_char((n % 10) as int))
    }
}

/// The decimal numeral of an integer, with a minus sign where it is negative.
pub open spec fn decimal(n: int) -> Seq<char> {
    if n < 0 {
        seq!['-'] + decimal_nat((-n) as nat)
    } else {
        decimal_nat(n as nat)
    }
}

/// The letter for the way a wall lies.
pub open spec fn orientation_letter(orientation: Orientation) -> char {
    match orientation {
        Orientation::Horizontal => 'h',
        Orientation::Vertical => 'v',
    }
}

/// The square of a move.
pub open spec fn token_square(token: Token) -> Square {
    match token {
        Token::Pawn { target } => target,
        Token::Wall { anchor, .. } => anchor,
    }
}

/// The state of the game after a move: a pawn move puts the player to move
/// on its target, a wall moves no pawn, and either hands the turn over.
pub open spec fn apply_token(track: Track, token: Token) -> Track {
    match token {
        Token::Pawn { target } => track.moved_to(target),
        Token::Wall { .. } => track.passed(),
    }
}

/// The text of a move: the column letter, the row in decimal and, for a
/// wall, the orientation letter. A square outside the columns 1 to 9 has no
/// text.
pub open spec fn format_token(token: Token) -> Option<Seq<char>> {
    let square = token_square(token);
    if 1 <= square.column <= 9 {
        let place = seq![column_letter(square.column)] + decimal(square.row);
        match token {
            Token::Pawn { .. } => Some(place),
            Token::Wall { orientation, .. } => Some(place.push(orientation_letter(orientation))),
        }
    } else {
        None
    }
}

/// The pieces of a text between its commas, in order. A text without a comma
/// is one piece, and so is the empty text.
pub open spec fn split_commas(text: Seq<char>) -> Seq<Seq<char>>
    decreases text.len(),
{
    if text.len() == 0 {
        seq![Seq::empty()]
    } else {
        let before = split_commas(text.drop_last());
        if text.last() == ',' {
            before.push(Seq::empty())
        } else {
            before.update(before.len() - 1, before.last().push(text.last()))
        }
    }
}

/// The pieces in order with a comma between each two.
pub open spec fn join_commas(pieces: Seq<Seq<char>>) -> Seq<char>
    decreases pieces.len(),
{
    if pieces.len() == 0 {
        Seq::empty()
    } else if pieces.len() == 1 {
        pieces[0]
    } else {
        join_commas(pieces.drop_last()) + seq![','] + pieces.last()
    }
}

/// The texts of a list of strings.
pub open spec fn texts(list: Seq<String>) -> Seq<Seq<char>> {
    Seq::new(list.len(), |i: int| list[i]@)
}

/// The column letters and the digits are what `column_of` and `digit_of`
/// read.
pub proof fn lemma_letters()
    ensures
        columns().len() == 9,
        digits().len() == 10,
        is_ascii_chars(columns()),
        is_ascii_chars(digits()),
        forall|column: int|
            1 <= column <= 9 ==> column_of(#[trigger] column_letter(column)) == Some(column),
        forall|value: int|
            0 <= value <= 9 ==> digit_of(#[trigger] digit_char(value)) == Some(value),
        forall|c: char|
            (#[trigger] column_of(c)) is Some ==> 1 <= column_of(c)->0 <= 9 && column_letter(
                column_of(c)->0,
            ) == c,
        forall|c: char|
            (#[trigger] digit_of(c)) is Some ==> 0 <= digit_of(c)->0 <= 9 && digit_char(
                digit_of(c)->0,
            ) == c,
{
    reveal_strlit("abcdefghi");
    reveal_strlit("0123456789");
}

/// A text always has at least one piece.
pub proof fn lemma_split_nonempty(text: Seq<char>)
    ensures
        split_commas(text).len() >= 1,
    decreases text.len(),
{
    if text.len() > 0 {
        lemma_split_nonempty(text.drop_last());
    }
}

/// What one more character does to the pieces: a comma opens a new, empty
/// piece, and any other character goes to the end of the last piece.
pub proof fn lemma_split_push(text: Seq<char>, c: char)
    ensures
        split_commas(text).len() >= 1,
        c == ',' ==> split_commas(text.push(c)) == split_commas(text).push(Seq::empty()),
        c != ',' ==> split_commas(text.push(c)) == split_commas(text).update(
            split_commas(text).len() - 1,
            split_commas(text).last().push(c),
        ),
{
    lemma_split_nonempty(text);
    assert(text.push(c).drop_last() =~= text);
}

/// Joining the pieces of a text gives the text back.
pub proof fn lemma_join_split(text: Seq<char>)
    ensures
        join_commas(split_commas(text)) == text,
    decreases text.len(),
{
    if text.len() == 0 {
        assert(join_commas(split_commas(text)) =~= text);
    } else {
        let front = text.drop_last();
        let before = split_commas(front);
        let pieces = split_commas(text);
        lemma_join_split(front);
        lemma_split_nonempty(front);
        if text.last() == ',' {
            assert(pieces.drop_last() =~= before);
            assert(join_commas(pieces) =~= text);
        } else if before.len() == 1 {
            assert(join_commas(pieces) =~= text);
        } else {
            assert(pieces.drop_last() =~= before.drop_last());
            assert(pieces.last() == before.last().push(text.last()));
            assert(join_commas(before) == join_commas(before.drop_last()) + seq![',']
                + before.last());
            assert(text =~= front.push(text.last()));
            assert(join_commas(pieces) =~= text);
        }
    }
}

/// Characters other than commas, put behind a text, go to the end of its
/// last piece.
pub proof fn lemma_split_append_plain(text: Seq<char>, more: Seq<char>)
    requires
        !more.contains(','),
    ensures
        split_commas(text).len() >= 1,
        split_commas(text + more) == split_commas(text).update(
            split_commas(text).len() - 1,
            split_commas(text).last() + more,
        ),
    decreases more.len(),
{
    lemma_split_nonempty(text);
    let pieces = split_commas(text);
    if more.len() == 0 {
        assert(text + more =~= text);
        assert(pieces.last() + more =~= pieces.last());
        assert(pieces.update(pieces.len() - 1, pieces.last()) =~= pieces);
    } else {
        let front = more.drop_last();
        assert(!front.contains(',')) by {
            if front.contains(',') {
                let i = choose|i: int| 0 <= i < front.len() && front[i] == ',';
                assert(more[i] == ',');
            }
        }
        assert(more.last() != ',') by {
            assert(more[more.len() - 1] == more.last());
        }
        lemma_split_append_plain(text, front);
        lemma_split_push(text + front, more.last());
        assert((text + front).push(more.last()) =~= text + more);
        assert((pieces.last() + front).push(more.last()) =~= pieces.last() + more);
        assert(split_commas(text + more) =~= pieces.update(
            pieces.len() - 1,
            pieces.last() + more,
        ));
    }
}

/// The pieces of joined pieces are the pieces, where there is at least one
/// and none of them holds a comma.
pub proof fn lemma_split_join(pieces: Seq<Seq<char>>)
    requires
        pieces.len() >= 1,
        forall|k: int| 0 <= k < pieces.len() ==> !(#[trigger] pieces[k]).contains(','),
    ensures
        split_commas(join_commas(pieces)) == pieces,
    decreases pieces.len(),
{
    let none = Seq::<char>::empty();
    if pieces.len() == 1 {
        lemma_split_append_plain(none, pieces[0]);
        assert(none + pieces[0] =~= pieces[0]);
        assert(split_commas(join_commas(pieces)) =~= pieces);
    } else {
        let front = pieces.drop_last();
        assert forall|k: int| 0 <= k < front.len() implies !(#[trigger] front[k]).contains(
            ',',
        ) by {
            assert(front[k] == pieces[k]);
        }
        lemma_split_join(front);
        let joined = join_commas(front);
        lemma_split_push(joined, ',');
        assert(joined.push(',') =~= joined + seq![',']);
        assert(!pieces.last().contains(',')) by {
            assert(pieces[pieces.len() - 1] == pieces.last());
        }
        lemma_split_append_plain(joined + seq![','], pieces.last());
        assert(none + pieces.last() =~= pieces.last());
        assert(split_commas(join_commas(pieces)) =~= pieces);
    }
}

/// A decimal numeral holds digits only.
pub proof fn lemma_decimal_nat_digits(n: nat)
    ensures
        decimal_nat(n).len() >= 1,
        n >= 10 ==> decimal_nat(n).len() >= 2,
        forall|i: int|
            0 <= i < decimal_nat(n).len() ==> digit_of(#[trigger] decimal_nat(n)[i]) is Some,
    decreases n,
{
    lemma_letters();
    if n >= 10 {
        lemma_decimal_nat_digits(n / 10);
    }
}

/// The numeral of an integer has one character exactly for 0 to 9, and it
/// never holds a comma.
pub proof fn lemma_decimal(n: int)
    ensures
        decimal(n).len() >= 1,
        decimal(n).len() == 1 ==> 0 <= n <= 9,
        !decimal(n).contains(','),
{
    if n < 0 {
        lemma_decimal_nat_digits((-n) as nat);
    } else {
        lemma_decimal_nat_digits(n as nat);
    }
    if decimal(n).contains(',') {
        let i = choose|i: int| 0 <= i < decimal(n).len() && decimal(n)[i] == ',';
        if n < 0 {
            if i > 0 {
                assert(decimal(n)[i] == decimal_nat((-n) as nat)[i - 1]);
            }
        } else {
            assert(decimal(n)[i] == decimal_nat(n as nat)[i]);
        }
    }
}

/// The text of a move holds no comma.
pub proof fn lemma_format_plain(token: Token)
    requires
        format_token(token) is Some,
    ensures
        !format_token(token)->0.contains(','),
{
    lemma_letters();
    let square = token_square(token);
    lemma_decimal(square.row);
    let text = format_token(token)->0;
    if text.contains(',') {
        let i = choose|i: int| 0 <= i < text.len() && text[i] == ',';
        let numeral = decimal(square.row);
        assert(column_of(column_letter(square.column)) is Some);
        if 1 <= i <= numeral.len() {
            assert(text[i] == numeral[i - 1]);
        }
    }
}

/// The pieces of a longer text begin with the pieces of a shorter one, but
/// for its last piece, which may still grow.
pub proof fn lemma_split_prefix(text: Seq<char>, cut: int)
    requires
        0 <= cut <= text.len(),
    ensures
        split_commas(text.take(cut)).len() >= 1,
        split_commas(text.take(cut)).len() <= split_commas(text).len(),
        split_commas(text.take(cut)).drop_last() == split_commas(text).take(
            split_commas(text.take(cut)).len() - 1,
        ),
    decreases text.len(),
{
    lemma_split_nonempty(text.take(cut));
    if cut == text.len() {
        assert(text.take(cut) =~= text);
        assert(split_commas(text).drop_last() =~= split_commas(text).take(
            split_commas(text).len() - 1,
        ));
    } else {
        let front = text.drop_last();
        lemma_split_prefix(front, cut);
        assert(front.take(cut) =~= text.take(cut));
        lemma_split_nonempty(front);
        let shorter = split_commas(text.take(cut));
        assert(shorter.drop_last() =~= split_commas(text).take(shorter.len() - 1));
    }
}

/// A text whose pieces hold one-byte characters only holds nothing else.
pub proof fn lemma_split_ascii(text: Seq<char>)
    requires
        forall|k: int|
            0 <= k < split_commas(text).len() ==> is_ascii_chars(#[trigger] split_commas(text)[k]),
    ensures
        is_ascii_chars(text),
    decreases text.len(),
{
    if text.len() > 0 {
        let front = text.drop_last();
        let before = split_commas(front);
        let pieces = split_commas(text);
        lemma_split_nonempty(front);
        assert forall|k: int| 0 <= k < before.len() implies is_ascii_chars(
            #[trigger] before[k],
        ) by {
            assert(is_ascii_chars(pieces[k]));
            if text.last() != ',' && k == before.len() - 1 {
                assert forall|i: int| 0 <= i < before[k].len() implies '\0'
                    <= #[trigger] before[k][i] <= '\u{7f}' by {
                    assert(pieces[k][i] == before[k][i]);
                }
            }
        }
        lemma_split_ascii(front);
        if text.last() != ',' {
            let last = pieces[before.len() - 1];
            assert(is_ascii_chars(last));
            assert(last[last.len() - 1] == text.last());
        }
        assert forall|i: int| 0 <= i < text.len() implies '\0' <= #[trigger] text[i]
            <= '\u{7f}' by {
            if i < front.len() {
                assert(front[i] == text[i]);
            }
        }
    }
}

/// A token that spells a move holds one-byte characters only.
pub proof fn lemma_parsed_is_ascii(text: Seq<char>)
    requires
        parse_token(text) is Some,
    ensures
        is_ascii_chars(text),
{
    assert forall|i: int| 0 <= i < text.len() implies '\0' <= #[trigger] text[i] <= '\u{7f}' by {
        if i == 0 {
            assert(column_of(text[0]) is Some);
        } else if i == 1 {
            assert(digit_of(text[1]) is Some);
        } else {
            assert(one_byte(text[2]));
        }
    }
}

/// The text of a move on the columns 1 to 9 and the rows 0 to 9 spells the
/// move again.
pub proof fn lemma_parse_format(token: Token)
    requires
        1 <= token_square(token).column <= 9,
        0 <= token_square(token).row <= 9,
    ensures
        format_token(token) is Some,
        parse_token(format_token(token)->0) == Some(token),
{
    lemma_letters();
}

/// A token that spells a move on the wall grid or a pawn move is the text of
/// that move, where the third character of a wall is `h` or `v`.
pub proof fn lemma_format_parse(text: Seq<char>)
    requires
        parse_token(text) is Some,
        text.len() == 3 ==> text[2] == 'h' || text[2] == 'v',
    ensures
        format_token(parse_token(text)->0) == Some(text),
{
    lemma_letters();
    let token = parse_token(text)->0;
    assert(format_token(token)->0 =~= text);
}

impl MoveToken {
    /// Reads a token. `None` where it spells no move.
    pub fn parse(text: &str) -> (token: Option<MoveToken>)
        ensures
            match token {
                Some(t) => parse_token(text@) == Some(t@),
                None => parse_token(text@) is None,
            },
    {
        if !text.is_ascii() {
            proof {
                if parse_token(text@) is Some {
                    lemma_parsed_is_ascii(text@);
                }
            }
            return None;
        }
        let bytes = text.as_bytes();
        proof {
            broadcast use vstd::string::is_ascii_spec_bytes;

        }
        let len = bytes.len();
        if len != 2 && len != 3 {
            return None;
        }
        let letter: u8 = bytes[0];
        let digit: u8 = bytes[1];
        assert(letter == text@[0] as u8);
        assert(digit == text@[1] as u8);
        if letter < 'a' as u8 || letter > 'i' as u8 || digit < '0' as u8 || digit > '9' as u8 {
            return None;
        }
        let square = Coordinate {
            column: (letter - 'a' as u8) as i32 + 1,
            row: (digit - '0' as u8) as i32,
        };
        if len == 2 {
            Some(MoveToken::PawnMove { target: square })
        } else {
            assert(bytes[2] == text@[2] as u8);
            let orientation = if bytes[2] == 'h' as u8 {
                Orientation::Horizontal
            } else {
                Orientation::Vertical
            };
            Some(MoveToken::WallPlacement { anchor: square, orientation })
        }
    }

    /// The square of the move.
    pub fn square(&self) -> (square: Coordinate)
        ensures
            square@ == token_square(self@),
    {
        match *self {
            MoveToken::PawnMove { target } => target,
            MoveToken::WallPlacement { anchor, .. } => anchor,
        }
    }

    /// Writes the move as a token. `None` where its square lies outside the
    /// columns 1 to 9.
    pub fn to_text(&self) -> (text: Option<String>)
        ensures
            match text {
                Some(t) => format_token(self@) == Some(t@),
                None => format_token(self@) is None,
            },
    {
        let square = self.square();
        if square.column < 1 || square.column > 9 {
            return None;
        }
        let mut text = String::new();
        let letters = "abcdefghi";
        proof {
            lemma_letters();
            reveal_strlit("abcdefghi");
        }
        let place: usize = (square.column - 1) as usize;
        let letter = letters.substring_ascii(place, place + 1);
        assert(letter@ =~= seq![column_letter(square.column as int)]);
        text.append(letter);
        push_decimal(&mut text, square.row);
        match *self {
            MoveToken::PawnMove { .. } => {},
            MoveToken::WallPlacement { orientation, .. } => {
                proof {
                    reveal_strlit("h");
                    reveal_strlit("v");
                }
                match orientation {
                    Orientation::Horizontal => {
                        assert("h"@ =~= seq!['h']);
                        text.append("h");
                    },
                    Orientation::Vertical => {
                        assert("v"@ =~= seq!['v']);
                        text.append("v");
                    },
                }
            },
        }
        assert(text@ =~= format_token(self@)->0);
        Some(text)
    }
}

/// Joins tokens to a notation, with a comma between each two.
pub fn join_tokens(list: &Vec<String>) -> (joined: String)
    ensures
        joined@ == join_commas(texts(list@)),
{
    let mut joined = String::new();
    let mut i: usize = 0;
    assert(texts(list@).take(0) =~= Seq::<Seq<char>>::empty());
    while i < list.len()
        invariant
            i <= list.len(),
            joined@ == join_commas(texts(list@).take(i as int)),
        decreases list.len() - i,
    {
        let ghost before = joined@;
        if i > 0 {
            proof {
                reveal_strlit(",");
            }
            assert(","@ =~= seq![',']);
            joined.append(",");
        }
        joined.append(list[i].as_str());
        proof {
            let longer = texts(list@).take(i + 1);
            assert(longer.drop_last() =~= texts(list@).take(i as int));
            assert(longer.last() == list@[i as int]@);
            assert(joined@ =~= join_commas(longer));
        }
        i = i + 1;
    }
    assert(texts(list@).take(i as int) =~= texts(list@));
    joined
}

/// Appends the decimal numeral of a natural number.
pub fn push_decimal_nat(text: &mut String, n: u64)
    ensures
        final(text)@ == old(text)@ + decimal_nat(n as nat),
    decreases n,
{
    if n >= 10 {
        push_decimal_nat(text, n / 10);
    }
    let all = "0123456789";
    proof {
        lemma_letters();
        reveal_strlit("0123456789");
    }
    let place: usize = (n % 10) as usize;
    let digit = all.substring_ascii(place, place + 1);
    assert(digit@ =~= seq![digit_char((n % 10) as int)]);
    text.append(digit);
    assert(text@ =~= old(text)@ + decimal_nat(n as nat));
}

/// Appends the decimal numeral of an integer.
pub fn push_decimal(text: &mut String, n: i32)
    ensures
        final(text)@ == old(text)@ + decimal(n as int),
{
    if n < 0 {
        proof {
            reveal_strlit("-");
        }
        assert("-"@ =~= seq!['-']);
        text.append("-");
        let magnitude: u64 = (-(n as i64)) as u64;
        push_decimal_nat(text, magnitude);
        assert(text@ =~= old(text)@ + decimal(n as int));
    } else {
        push_decimal_nat(text, n as u64);
    }
}

} // verus!
