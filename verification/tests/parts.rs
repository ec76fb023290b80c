use qf_codec::base64::{alphabet_text, push_sextet, sextet_of_byte};
use qf_codec::bits::{count_digits, push_binary, push_bits, read_bits};
use qf_codec::board::{
    slot_anchor, wall_slot_word, Coordinate, Direction, Player, PositionTracker,
};
use qf_codec::notation::{join_tokens, push_decimal, push_decimal_nat, MoveToken, Orientation};
use qf_codec::qf_decode;
use qf_codec::qf_encode;

fn bits_of(text: &str) -> Vec<bool> {
    text.chars().map(|c| c == '1').collect()
}

fn square(column: i32, row: i32) -> Coordinate {
    Coordinate { column, row }
}

#[test]
fn bits_are_written_most_significant_first() {
    let mut bits = bits_of("01");
    push_bits(&mut bits, 6, 10);
    assert_eq!(bits, bits_of("010000000110"));
    push_bits(&mut bits, 2, 3);
    assert_eq!(bits, bits_of("010000000110010"));
    push_bits(&mut bits, 5, 0);
    assert_eq!(bits, bits_of("010000000110010"));
}

#[test]
fn bits_beyond_the_width_are_cut_off() {
    let mut bits = Vec::new();
    push_bits(&mut bits, 72, 6);
    assert_eq!(bits, bits_of("001000"));
    let mut bits = Vec::new();
    push_bits(&mut bits, u64::MAX, 64);
    assert_eq!(bits, vec![true; 64]);
}

#[test]
fn digits_of_a_number_are_counted() {
    assert_eq!(count_digits(0), 0);
    assert_eq!(count_digits(1), 1);
    assert_eq!(count_digits(63), 6);
    assert_eq!(count_digits(64), 7);
    assert_eq!(count_digits(1023), 10);
    assert_eq!(count_digits(u64::MAX), 64);
}

#[test]
fn binary_numeral_is_filled_up_on_the_left() {
    let mut bits = Vec::new();
    push_binary(&mut bits, 0, 6);
    assert_eq!(bits, bits_of("000000"));
    let mut bits = Vec::new();
    push_binary(&mut bits, 11, 6);
    assert_eq!(bits, bits_of("001011"));
    let mut bits = Vec::new();
    push_binary(&mut bits, 63, 6);
    assert_eq!(bits, bits_of("111111"));
    let mut bits = Vec::new();
    push_binary(&mut bits, 72, 6);
    assert_eq!(bits, bits_of("1001000"));
    let mut bits = Vec::new();
    push_binary(&mut bits, 5, 0);
    assert_eq!(bits, bits_of("101"));
}

#[test]
fn field_is_read_where_the_stream_holds_it() {
    let bits = bits_of("010000000110010");
    assert_eq!(read_bits(&bits, 2, 10), Some(6));
    assert_eq!(read_bits(&bits, 12, 3), Some(2));
    assert_eq!(read_bits(&bits, 0, 2), Some(1));
    assert_eq!(read_bits(&bits, 15, 0), Some(0));
    assert_eq!(read_bits(&bits, 13, 3), None);
    assert_eq!(read_bits(&bits, 16, 0), None);
    assert_eq!(read_bits(&bits, usize::MAX, 3), None);
    assert_eq!(read_bits(&vec![true; 64], 0, 64), Some(u64::MAX));
}

#[test]
fn what_is_written_is_read_back() {
    for value in [0u64, 1, 2, 37, 63, 64, 1000, 1023] {
        let mut bits = bits_of("110");
        push_bits(&mut bits, value, 10);
        assert_eq!(read_bits(&bits, 3, 10), Some(value));
    }
}

#[test]
fn alphabet_has_sixty_four_characters_in_order() {
    let text = alphabet_text();
    assert_eq!(text, "ABCDEFGHIJKLMNOPQRSTUVWXYZabcdefghijklmnopqrstuvwxyz0123456789+/");
    for (place, byte) in text.bytes().enumerate() {
        assert_eq!(sextet_of_byte(byte), Some(place as u8));
        let mut out = String::from("x");
        push_sextet(&mut out, place as u8);
        assert_eq!(out.len(), 2);
        assert_eq!(out.as_bytes()[1], byte);
    }
}

#[test]
fn bytes_outside_the_alphabet_have_no_value() {
    let text = alphabet_text();
    for byte in 0u8..=255 {
        if !text.as_bytes().contains(&byte) {
            assert_eq!(sextet_of_byte(byte), None);
        }
    }
    assert_eq!(sextet_of_byte(b'='), None);
    assert_eq!(sextet_of_byte(b'-'), None);
    assert_eq!(sextet_of_byte(b'_'), None);
}

#[test]
fn stream_is_rendered_in_groups_of_six() {
    assert_eq!(qf_encode::convert_to_base64(&Vec::new()), "");
    assert_eq!(qf_encode::convert_to_base64(&bits_of("010000000001000000")), "QBA");
    assert_eq!(qf_encode::convert_to_base64(&bits_of("111111111110")), "/+");
    // a last group of fewer than six bits stands for the number it spells
    assert_eq!(qf_encode::convert_to_base64(&bits_of("0100001")), "QB");
    assert_eq!(qf_encode::convert_to_base64(&bits_of("1")), "B");
    assert_eq!(qf_encode::convert_to_base64(&bits_of("10")), "C");
}

#[test]
fn stream_is_padded_to_whole_groups() {
    for (before, after) in [
        ("", ""),
        ("1", "100000"),
        ("11", "110000"),
        ("101", "101000"),
        ("1011", "101100"),
        ("10111", "101110"),
        ("101111", "101111"),
        ("1011111", "101111100000"),
    ] {
        let mut bits = bits_of(before);
        qf_encode::pad_binary_string(&mut bits);
        assert_eq!(bits, bits_of(after));
    }
}

#[test]
fn text_is_read_as_six_bits_for_each_character() {
    assert_eq!(qf_decode::code_to_bits(""), Some(Vec::new()));
    assert_eq!(qf_decode::code_to_bits("QBA"), Some(bits_of("010000000001000000")));
    assert_eq!(qf_decode::code_to_bits("/+"), Some(bits_of("111111111110")));
    assert_eq!(qf_decode::code_to_bits("QB="), None);
    assert_eq!(qf_decode::code_to_bits("Q\u{e9}"), None);
}

#[test]
fn rendering_and_reading_a_stream_are_inverse() {
    let bits = bits_of("010000000110000010001011001001001111010001000000");
    let text = qf_encode::convert_to_base64(&bits);
    assert_eq!(text, "QGCLJPRA");
    assert_eq!(qf_decode::code_to_bits(&text), Some(bits));
}

#[test]
fn direction_numbers() {
    assert_eq!(Direction::North.code(), 0);
    assert_eq!(Direction::East.code(), 2);
    assert_eq!(Direction::South.code(), 4);
    assert_eq!(Direction::West.code(), 6);
    assert_eq!(Direction::from_code(0), Some(Direction::North));
    assert_eq!(Direction::from_code(2), Some(Direction::East));
    assert_eq!(Direction::from_code(4), Some(Direction::South));
    assert_eq!(Direction::from_code(6), Some(Direction::West));
    for code in [1u64, 3, 5, 7, 8, 100] {
        assert_eq!(Direction::from_code(code), None);
    }
}

#[test]
fn wall_slots_count_along_the_rows() {
    assert_eq!(wall_slot_word(square(1, 1)), 0);
    assert_eq!(wall_slot_word(square(8, 1)), 7);
    assert_eq!(wall_slot_word(square(1, 2)), 8);
    assert_eq!(wall_slot_word(square(4, 2)), 11);
    assert_eq!(wall_slot_word(square(5, 7)), 52);
    assert_eq!(wall_slot_word(square(8, 8)), 63);
    assert_eq!(wall_slot_word(square(9, 9)), 72);
    assert_eq!(wall_slot_word(square(9, 0)), 0);
    assert_eq!(wall_slot_word(square(1, 0)), u64::MAX - 7);
}

#[test]
fn wall_slot_and_anchor_are_inverse_on_the_grid() {
    for column in 1..=8 {
        for row in 1..=8 {
            let slot = wall_slot_word(square(column, row));
            assert_eq!(slot, ((column - 1) + (row - 1) * 8) as u64);
            assert_eq!(slot_anchor(slot), square(column, row));
        }
    }
    for slot in 0u64..64 {
        let anchor = slot_anchor(slot);
        assert_eq!(anchor.column as u64, slot % 8 + 1);
        assert_eq!(anchor.row as u64, slot / 8 + 1);
        assert_eq!(wall_slot_word(anchor), slot);
    }
}

#[test]
fn tracker_opens_with_both_pawns_in_column_five() {
    let tracker = PositionTracker::new();
    assert_eq!(tracker.first, square(5, 1));
    assert_eq!(tracker.second, square(5, 9));
    assert_eq!(tracker.turn, Player::First);
    assert_eq!(tracker.mover(), square(5, 1));
    assert_eq!(tracker.waiter(), square(5, 9));
}

#[test]
fn pawn_move_is_classified_and_applied() {
    let mut tracker = PositionTracker::new();
    assert_eq!(tracker.apply_pawn_delta(square(5, 2)), Some(Direction::North));
    assert_eq!(tracker.first, square(5, 2));
    assert_eq!(tracker.turn, Player::Second);
    assert_eq!(tracker.apply_pawn_delta(square(4, 9)), Some(Direction::West));
    assert_eq!(tracker.second, square(4, 9));
    assert_eq!(tracker.turn, Player::First);
    assert_eq!(tracker.apply_pawn_delta(square(7, 2)), Some(Direction::East));
    // the pawn stands on the target itself
    assert_eq!(tracker.first, square(7, 2));
    assert_eq!(tracker.apply_pawn_delta(square(4, 7)), Some(Direction::South));
    assert_eq!(tracker.second, square(4, 7));
}

#[test]
fn pawn_move_off_the_axes_changes_nothing() {
    let mut tracker = PositionTracker::new();
    let before = tracker;
    for target in [square(6, 2), square(4, 0), square(5, 1), square(5, 4), square(8, 1), square(2, 1)] {
        assert_eq!(tracker.apply_pawn_delta(target), None);
        assert_eq!(tracker, before);
    }
}

#[test]
fn landing_is_the_next_square_or_the_one_behind_the_other_pawn() {
    let mut tracker = PositionTracker { first: square(5, 5), second: square(5, 6), turn: Player::First };
    assert_eq!(tracker.resolve_pawn_landing(Direction::North), square(5, 7));
    assert_eq!(tracker.first, square(5, 7));
    assert_eq!(tracker.turn, Player::Second);
    assert_eq!(tracker.resolve_pawn_landing(Direction::North), square(5, 8));
    assert_eq!(tracker.second, square(5, 8));
    assert_eq!(tracker.resolve_pawn_landing(Direction::East), square(6, 7));
    assert_eq!(tracker.resolve_pawn_landing(Direction::West), square(4, 8));
    assert_eq!(tracker.resolve_pawn_landing(Direction::South), square(6, 6));
    let mut tracker = PositionTracker { first: square(3, 4), second: square(4, 4), turn: Player::Second };
    assert_eq!(tracker.resolve_pawn_landing(Direction::West), square(2, 4));
    assert_eq!(tracker.second, square(2, 4));
    assert_eq!(tracker.first, square(3, 4));
}

#[test]
fn wall_hands_the_turn_over() {
    let mut tracker = PositionTracker::new();
    tracker.pass_turn();
    assert_eq!(tracker.turn, Player::Second);
    assert_eq!(tracker.first, square(5, 1));
    assert_eq!(tracker.second, square(5, 9));
    tracker.pass_turn();
    assert_eq!(tracker, PositionTracker::new());
}

#[test]
fn tokens_are_parsed() {
    assert_eq!(MoveToken::parse("e2"), Some(MoveToken::PawnMove { target: square(5, 2) }));
    assert_eq!(MoveToken::parse("a0"), Some(MoveToken::PawnMove { target: square(1, 0) }));
    assert_eq!(MoveToken::parse("i9"), Some(MoveToken::PawnMove { target: square(9, 9) }));
    assert_eq!(
        MoveToken::parse("d2h"),
        Some(MoveToken::WallPlacement { anchor: square(4, 2), orientation: Orientation::Horizontal })
    );
    assert_eq!(
        MoveToken::parse("e7v"),
        Some(MoveToken::WallPlacement { anchor: square(5, 7), orientation: Orientation::Vertical })
    );
    assert_eq!(
        MoveToken::parse("e7H"),
        Some(MoveToken::WallPlacement { anchor: square(5, 7), orientation: Orientation::Vertical })
    );
}

#[test]
fn tokens_that_spell_no_move_are_refused() {
    for text in ["", "e", "e2hv", "j2", "e:", "E2", "2e", "aaa", "e2\u{e9}", "\u{e9}2", "e\u{e9}", " e2"] {
        assert_eq!(MoveToken::parse(text), None);
    }
}

#[test]
fn tokens_are_written() {
    assert_eq!(MoveToken::PawnMove { target: square(5, 2) }.to_text(), Some("e2".to_string()));
    assert_eq!(MoveToken::PawnMove { target: square(9, 10) }.to_text(), Some("i10".to_string()));
    assert_eq!(MoveToken::PawnMove { target: square(1, -3) }.to_text(), Some("a-3".to_string()));
    assert_eq!(MoveToken::PawnMove { target: square(0, 2) }.to_text(), None);
    assert_eq!(MoveToken::PawnMove { target: square(10, 2) }.to_text(), None);
    assert_eq!(
        MoveToken::WallPlacement { anchor: square(4, 2), orientation: Orientation::Horizontal }.to_text(),
        Some("d2h".to_string())
    );
    assert_eq!(
        MoveToken::WallPlacement { anchor: square(8, 8), orientation: Orientation::Vertical }.to_text(),
        Some("h8v".to_string())
    );
}

#[test]
fn written_tokens_are_parsed_back() {
    for column in 1..=9 {
        for row in 0..=9 {
            let pawn = MoveToken::PawnMove { target: square(column, row) };
            assert_eq!(MoveToken::parse(&pawn.to_text().unwrap()), Some(pawn));
            for orientation in [Orientation::Horizontal, Orientation::Vertical] {
                let wall = MoveToken::WallPlacement { anchor: square(column, row), orientation };
                assert_eq!(MoveToken::parse(&wall.to_text().unwrap()), Some(wall));
            }
        }
    }
}

#[test]
fn decimal_numerals() {
    for (n, text) in [(0, "0"), (7, "7"), (10, "10"), (905, "905"), (-1, "-1"), (-2046, "-2046"),
        (i32::MAX, "2147483647"), (i32::MIN, "-2147483648")]
    {
        let mut out = String::from("e");
        push_decimal(&mut out, n);
        assert_eq!(out, format!("e{}", text));
    }
    let mut out = String::new();
    push_decimal_nat(&mut out, u64::MAX);
    assert_eq!(out, "18446744073709551615");
}

#[test]
fn tokens_are_joined_with_commas() {
    assert_eq!(join_tokens(&Vec::new()), "");
    assert_eq!(join_tokens(&vec!["e2".to_string()]), "e2");
    assert_eq!(join_tokens(&vec!["e2".to_string(), "d2h".to_string(), "".to_string()]), "e2,d2h,");
}

#[test]
fn encoder_writes_one_move_at_a_time() {
    let mut bits = bits_of("01");
    let mut tracker = PositionTracker::new();
    assert_eq!(qf_encode::process_move(square(5, 2), &mut bits, &mut tracker), Ok(()));
    assert_eq!(bits, bits_of("010000"));
    qf_encode::process_wall(square(4, 2), Orientation::Horizontal, &mut bits, &mut tracker);
    assert_eq!(bits, bits_of("01000010001011"));
    assert_eq!(tracker.turn, Player::First);
    assert_eq!(
        qf_encode::process_move(square(6, 3), &mut bits, &mut tracker),
        Err(qf_encode::QFError::QFEncodeError)
    );
    assert_eq!(bits, bits_of("01000010001011"));
    assert_eq!(qf_encode::process_token("f2", &mut bits, &mut tracker), Ok(()));
    assert_eq!(bits, bits_of("010000100010110010"));
    assert_eq!(qf_encode::process_token("e7v", &mut bits, &mut tracker), Ok(()));
    assert_eq!(bits, bits_of("01000010001011001011110100"));
    assert_eq!(
        qf_encode::process_token("x1", &mut bits, &mut tracker),
        Err(qf_encode::QFError::QFEncodeError)
    );
    assert_eq!(bits, bits_of("01000010001011001011110100"));
}

#[test]
fn decoder_reads_one_move_at_a_time() {
    let bits = bits_of("0000100010110101");
    let mut position = 1;
    let mut moves: Vec<String> = Vec::new();
    let mut tracker = PositionTracker::new();
    assert_eq!(qf_decode::process_move(&bits, &mut position, &mut moves, &mut tracker), Ok(()));
    assert_eq!((position, moves.len()), (4, 1));
    assert_eq!(moves[0], "e2");
    position = 5;
    assert_eq!(qf_decode::process_wall(&bits, &mut position, &mut moves, &mut tracker), Ok(()));
    assert_eq!(position, 12);
    assert_eq!(moves[1], "d2h");
    assert_eq!(tracker.turn, Player::First);
    position = 13;
    // odd direction number
    assert_eq!(
        qf_decode::process_move(&bits, &mut position, &mut moves, &mut tracker),
        Err(qf_decode::QFError::QFDecodeError)
    );
    assert_eq!((position, moves.len()), (13, 2));
    position = 14;
    // the stream ends before the move does
    assert_eq!(
        qf_decode::process_move(&bits, &mut position, &mut moves, &mut tracker),
        Err(qf_decode::QFError::QFDecodeError)
    );
    position = 10;
    assert_eq!(
        qf_decode::process_wall(&bits, &mut position, &mut moves, &mut tracker),
        Err(qf_decode::QFError::QFDecodeError)
    );
    assert_eq!((position, moves.len()), (10, 2));
}
