use gomoku::game::{in_bounds, same_parity, Game, Move, AREA, SIZE};

/// Whether the cell belongs to the first player in a known drawn filling of
/// the board: period-four horizontal stripes shifted two cells per row,
/// which never makes five in a row for either side.
fn draw_pattern(x: i32, y: i32) -> bool {
    (x + 2 * y) % 4 < 2
}

/// The cells of each side in the drawn filling, in row-major order.
fn draw_cells() -> (Vec<(i32, i32)>, Vec<(i32, i32)>) {
    let mut first = Vec::new();
    let mut second = Vec::new();
    for y in 0..SIZE {
        for x in 0..SIZE {
            if draw_pattern(x, y) {
                first.push((x, y));
            } else {
                second.push((x, y));
            }
        }
    }
    (first, second)
}

/// A position where the side to move has four in a row on row 0 at columns
/// 1 through 4, with both ends open.
fn four_in_a_row() -> Game {
    let mut game = Game::new();
    for i in 1..5 {
        assert!(matches!(game.make_move(i, 0), Move::Normal));
        assert!(matches!(game.make_move(i, 14), Move::Normal));
    }
    game
}

#[test]
fn new_board_is_empty_at_turn_one() {
    let game = Game::new();
    assert_eq!(game.turn, 1);
    for y in 0..SIZE {
        for x in 0..SIZE {
            assert_eq!(game.piece(x, y), 0);
            assert!(game.can_move(x, y));
        }
    }
}

#[test]
fn constants_match_board_shape() {
    assert_eq!(SIZE, 15);
    assert_eq!(AREA, 225);
}

#[test]
fn moves_record_turn_numbers() {
    let mut game = Game::new();
    assert!(matches!(game.make_move(0, 0), Move::Normal));
    assert!(matches!(game.make_move(14, 14), Move::Normal));
    assert_eq!(game.piece(0, 0), 1);
    assert_eq!(game.piece(14, 14), 2);
    assert_eq!(game.turn, 3);
}

#[test]
fn occupied_cell_rejected_and_position_unchanged() {
    let mut game = Game::new();
    assert!(matches!(game.make_move(7, 7), Move::Normal));
    let turn_before = game.turn;
    let mut pieces_before = Vec::new();
    for y in 0..SIZE {
        for x in 0..SIZE {
            pieces_before.push(game.piece(x, y));
        }
    }
    assert!(matches!(game.make_move(7, 7), Move::Fail));
    assert_eq!(game.turn, turn_before);
    let mut i = 0;
    for y in 0..SIZE {
        for x in 0..SIZE {
            assert_eq!(game.piece(x, y), pieces_before[i]);
            i += 1;
        }
    }
}

#[test]
fn third_turn_rejects_central_zone() {
    let mut game = Game::new();
    assert!(matches!(game.make_move(0, 0), Move::Normal));
    assert!(matches!(game.make_move(14, 0), Move::Normal));
    assert_eq!(game.turn, 3);
    assert!(!game.can_move(7, 7));
    assert!(!game.can_move(4, 4));
    assert!(!game.can_move(10, 10));
    assert!(game.can_move(3, 7));
    assert!(game.can_move(7, 3));
    assert!(matches!(game.make_move(7, 7), Move::Fail));
    assert!(matches!(game.make_move(3, 3), Move::Normal));
    assert_eq!(game.turn, 4);
    assert!(game.can_move(7, 8));
}

#[test]
fn horizontal_five_wins() {
    let mut game = four_in_a_row();
    let turn_before = game.turn;
    assert!(matches!(game.make_move(5, 0), Move::Win));
    assert_eq!(game.turn, turn_before);
}

#[test]
fn horizontal_five_wins_at_other_end() {
    let mut game = four_in_a_row();
    assert!(matches!(game.make_move(0, 0), Move::Win));
}

#[test]
fn vertical_five_wins() {
    let mut game = Game::new();
    for i in 0..4 {
        assert!(matches!(game.make_move(0, i), Move::Normal));
        assert!(matches!(game.make_move(14, i), Move::Normal));
    }
    assert!(matches!(game.make_move(0, 4), Move::Win));
}

#[test]
fn diagonal_five_wins() {
    let mut game = Game::new();
    for i in 0..4 {
        assert!(matches!(game.make_move(i, i), Move::Normal));
        assert!(matches!(game.make_move(14 - i, 0), Move::Normal));
    }
    assert!(matches!(game.make_move(4, 4), Move::Win));
}

#[test]
fn anti_diagonal_five_wins() {
    let mut game = Game::new();
    for i in 0..4 {
        assert!(matches!(game.make_move(i, 14 - i), Move::Normal));
        assert!(matches!(game.make_move(14, 14 - i), Move::Normal));
    }
    assert!(matches!(game.make_move(4, 10), Move::Win));
}

#[test]
fn four_in_a_row_does_not_win() {
    let mut game = Game::new();
    for i in 1..4 {
        assert!(matches!(game.make_move(i, 0), Move::Normal));
        assert!(matches!(game.make_move(i, 14), Move::Normal));
    }
    assert!(matches!(game.make_move(4, 0), Move::Normal));
}

#[test]
fn gap_breaks_the_run() {
    let mut game = Game::new();
    // Stones at columns 0..=3 and 5..=8 of row 7 for the first player,
    // with column 4 left empty until the end.
    let firsts = [(0, 7), (1, 7), (2, 7), (3, 7), (5, 7), (6, 7), (7, 7), (8, 7)];
    let seconds = [(0, 0), (1, 0), (2, 0), (14, 0), (4, 14), (5, 14), (6, 14), (7, 14)];
    for i in 0..firsts.len() {
        let (x, y) = firsts[i];
        assert!(matches!(game.make_move(x, y), Move::Normal));
        let (x, y) = seconds[i];
        assert!(matches!(game.make_move(x, y), Move::Normal));
    }
    // Filling the gap makes nine in a row, which is counted as a win.
    assert!(matches!(game.make_move(4, 7), Move::Win));
}

#[test]
fn full_board_without_five_is_a_tie() {
    let (first, second) = draw_cells();
    assert_eq!(first.len(), 113);
    assert_eq!(second.len(), 112);
    let mut game = Game::new();
    for i in 0..112 {
        let (x, y) = first[i];
        assert!(matches!(game.make_move(x, y), Move::Normal));
        let (x, y) = second[i];
        assert!(matches!(game.make_move(x, y), Move::Normal));
    }
    assert_eq!(game.turn, 225);
    let (x, y) = first[112];
    assert!(matches!(game.make_move(x, y), Move::Tie));
    assert_eq!(game.turn, 225);
}

#[test]
fn duplicate_is_independent() {
    let mut game = Game::new();
    assert!(matches!(game.make_move(3, 4), Move::Normal));
    let mut copy = game.duplicate();
    assert_eq!(copy.turn, game.turn);
    assert_eq!(copy.piece(3, 4), 1);
    assert!(matches!(copy.make_move(5, 5), Move::Normal));
    assert_eq!(game.piece(5, 5), 0);
    assert_eq!(game.turn, 2);
}

#[test]
fn bounds_and_parity_helpers() {
    assert!(in_bounds(0, 0));
    assert!(in_bounds(14, 14));
    assert!(!in_bounds(-1, 0));
    assert!(!in_bounds(0, 15));
    assert!(same_parity(1, 3));
    assert!(same_parity(2, 4));
    assert!(!same_parity(1, 2));
    assert!(same_parity(0, 2));
}
