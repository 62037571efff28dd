use gomoku::cli::{drop_last, is_question, parse_letter, parse_number, parse_pos, Command};

#[test]
fn parse_pos_accepts_simple_coordinates() {
    assert_eq!(parse_pos("A1"), Command::Move(0, 0));
    assert_eq!(parse_pos("C10"), Command::Move(2, 9));
    assert_eq!(parse_pos("O15"), Command::Move(14, 14));
    assert_eq!(parse_pos("B7"), Command::Move(1, 6));
}

#[test]
fn parse_pos_rejects_out_of_range_letters() {
    assert_eq!(parse_pos("Z99"), Command::Nothing);
    assert_eq!(parse_pos("P1"), Command::Nothing);
}

#[test]
fn parse_pos_rejects_out_of_range_numbers() {
    assert_eq!(parse_pos("A0"), Command::Nothing);
    assert_eq!(parse_pos("A16"), Command::Nothing);
    assert_eq!(parse_pos("A99999999999999999999"), Command::Nothing);
}

#[test]
fn parse_pos_is_case_and_whitespace_sensitive() {
    assert_eq!(parse_pos("a1"), Command::Nothing);
    assert_eq!(parse_pos("A 1"), Command::Nothing);
    assert_eq!(parse_pos(" A1"), Command::Nothing);
    assert_eq!(parse_pos("A1 "), Command::Nothing);
}

#[test]
fn parse_pos_rejects_short_or_empty_input() {
    assert_eq!(parse_pos(""), Command::Nothing);
    assert_eq!(parse_pos("A"), Command::Nothing);
    assert_eq!(parse_pos("7"), Command::Nothing);
}

#[test]
fn parse_pos_accepts_leading_zeros() {
    assert_eq!(parse_pos("A01"), Command::Move(0, 0));
    assert_eq!(parse_pos("B015"), Command::Move(1, 14));
}

#[test]
fn parse_letter_covers_the_board_columns() {
    assert_eq!(parse_letter('A'), Some(0));
    assert_eq!(parse_letter('O'), Some(14));
    assert_eq!(parse_letter('P'), None);
    assert_eq!(parse_letter('a'), None);
    assert_eq!(parse_letter('1'), None);
}

#[test]
fn parse_number_covers_the_board_rows() {
    assert_eq!(parse_number("1"), Some(0));
    assert_eq!(parse_number("15"), Some(14));
    assert_eq!(parse_number("0"), None);
    assert_eq!(parse_number("16"), None);
    assert_eq!(parse_number(""), None);
    assert_eq!(parse_number("x"), None);
    assert_eq!(parse_number("1x"), None);
}

#[test]
fn question_marks_are_recognised_and_stripped() {
    assert!(is_question("C5?"));
    assert!(!is_question("C5"));
    assert!(!is_question(""));
    assert!(!is_question("?C5"));
    assert_eq!(drop_last("C5?"), "C5");
    assert_eq!(drop_last("x"), "");
    assert_eq!(drop_last(""), "");
}
