use gomoku::ai::{get_random_move, legal_moves, make_move, search, simulate, simulate_move, GameTree};
use gomoku::game::{Game, Move, SIZE};
use gomoku::random::Sampler;

/// A position where the side to move has four in a row on row 0 at columns
/// 1 through 4, with both ends open.
fn four_in_a_row() -> Game {
    let mut game = Game::new();
    for i in 1..5 {
        assert!(matches!(game.make_move(i, 0), Move::Normal));
        assert!(matches!(game.make_move(i, 14), Move::Normal));
    }
    game
}

/// A fresh, childless search node rooted at no move.
fn fresh_root() -> GameTree {
    GameTree { move_: (-1, -1), wins: 0, games: 0, children: Vec::new() }
}

/// A position with only `open` empty cells left: a prefix of a complete
/// drawn game, in which the first player owns the cells of `draw_pattern`
/// and nobody ever has five in a row.
fn nearly_full(open: usize) -> Game {
    let mut first = Vec::new();
    let mut second = Vec::new();
    for y in 0..SIZE {
        for x in 0..SIZE {
            if (x + 2 * y) % 4 < 2 {
                first.push((x, y));
            } else {
                second.push((x, y));
            }
        }
    }
    let mut sequence = Vec::new();
    for i in 0..112 {
        sequence.push(first[i]);
        sequence.push(second[i]);
    }
    sequence.push(first[112]);
    let mut game = Game::new();
    for i in 0..225 - open {
        let (x, y) = sequence[i];
        assert!(matches!(game.make_move(x, y), Move::Normal));
    }
    game
}

#[test]
fn rollout_reports_values_in_range() {
    let mut rng = Sampler::seeded(7);
    for seed in 0..5u64 {
        let mut rng = Sampler::seeded(seed);
        let mut game = Game::new();
        let v = simulate(&mut game, &mut rng).expect("a fresh position cannot abort");
        assert!((0..=2).contains(&v));
    }
    let mut game = four_in_a_row();
    let v = simulate(&mut game, &mut rng).expect("a consistent position cannot abort");
    assert!((0..=2).contains(&v));
}

#[test]
fn expansion_gives_every_legal_cell_one_child() {
    let game = nearly_full(3);
    let legal = legal_moves(&game);
    assert_eq!(legal.len(), 3);
    let mut rng = Sampler::seeded(11);
    let root = fresh_root();
    let (wins, games, children) =
        root.expand(&game, &mut rng).expect("a consistent position cannot abort");
    assert_eq!(children.len(), 3);
    assert_eq!(games, 6);
    assert!(wins >= 0 && wins <= games);
    for (i, child) in children.iter().enumerate() {
        assert_eq!(child.move_, legal[i]);
        assert_eq!(child.games, 2);
        assert!(child.wins >= 0 && child.wins <= 2);
        assert!(child.children.is_empty());
    }
}

#[test]
fn expansion_on_empty_board_covers_every_cell() {
    let game = Game::new();
    let mut rng = Sampler::seeded(2);
    let root = fresh_root();
    let (_, games, children) =
        root.expand(&game, &mut rng).expect("a consistent position cannot abort");
    assert_eq!(children.len(), 225);
    assert_eq!(games, 450);
}

#[test]
fn winning_move_is_classified_without_further_rollout() {
    let game = four_in_a_row();
    let mut rng = Sampler::seeded(3);
    let mut played = game.duplicate();
    assert_eq!(simulate_move(5, 0, &mut played, &mut rng), Some(2));
    let mut played = game.duplicate();
    assert_eq!(simulate_move(0, 0, &mut played, &mut rng), Some(2));
    // No playout ran: the sampler was never stepped, so it still agrees
    // with an untouched sampler of the same seed.
    let mut fresh = Sampler::seeded(3);
    for n in 2..10usize {
        assert_eq!(rng.below(n), fresh.below(n));
    }
}

#[test]
fn winning_move_child_holds_a_sure_score() {
    let game = four_in_a_row();
    let mut rng = Sampler::seeded(5);
    let root = fresh_root();
    let (_, _, children) =
        root.expand(&game, &mut rng).expect("a consistent position cannot abort");
    let child = children
        .iter()
        .find(|c| c.move_ == (5, 0))
        .expect("the winning cell is legal and gets a child");
    assert_eq!(child.wins, 2);
    assert_eq!(child.games, 2);
    let other = children
        .iter()
        .find(|c| c.move_ == (0, 0))
        .expect("the other winning cell is legal and gets a child");
    assert_eq!(other.wins, 2);
    assert_eq!(other.games, 2);
}

#[test]
fn illegal_move_reports_minus_one() {
    let mut game = Game::new();
    assert!(matches!(game.make_move(4, 4), Move::Normal));
    let mut rng = Sampler::seeded(9);
    let turn_before = game.turn;
    assert_eq!(simulate_move(4, 4, &mut game, &mut rng), Some(-1));
    assert_eq!(game.turn, turn_before);
    assert_eq!(game.piece(4, 4), 1);
}

#[test]
fn node_statistics_stay_in_the_doubled_scale() {
    let game = nearly_full(4);
    let mut rng = Sampler::seeded(13);
    let mut root = fresh_root();
    for _ in 0..8 {
        let mut played = game.duplicate();
        root.backpropagate(&mut played, &mut rng)
            .expect("a consistent position cannot abort");
        assert!(root.wins >= 0 && root.wins <= 2 * root.games);
        for child in root.children.iter() {
            assert!(child.wins >= 0 && child.wins <= 2 * child.games);
            assert!(child.games >= 2 && child.games <= root.games);
        }
    }
    assert!(root.games > 0);
}

#[test]
fn random_moves_are_legal() {
    let game = nearly_full(2);
    for seed in 0..10u64 {
        let mut rng = Sampler::seeded(seed);
        let (x, y) = get_random_move(&game, &mut rng).expect("two cells are open");
        assert!(game.can_move(x, y));
    }
}

#[test]
fn random_move_still_found_after_a_win() {
    let mut game = four_in_a_row();
    assert!(matches!(game.make_move(5, 0), Move::Win));
    // The board still has room, so a move is found.
    let mut rng = Sampler::seeded(1);
    assert!(get_random_move(&game, &mut rng).is_some());
}

#[test]
fn search_on_an_empty_board_returns_a_legal_move() {
    let game = Game::new();
    let mut rng = Sampler::seeded(42);
    let (x, y) = search(&game, &mut rng, 20).expect("a fresh position cannot abort");
    assert!(x >= 0 && x < 15);
    assert!(y >= 0 && y < 15);
    assert!(game.can_move(x, y));
    assert_eq!(game.turn, 1);
    assert_eq!(game.piece(x, y), 0);
}

#[test]
fn search_is_deterministic_for_a_fixed_seed() {
    let game = nearly_full(5);
    let mut rng1 = Sampler::seeded(1234);
    let mut rng2 = Sampler::seeded(1234);
    let first = search(&game, &mut rng1, 40);
    let second = search(&game, &mut rng2, 40);
    assert!(first.is_some());
    assert_eq!(first, second);
    let mut rng3 = Sampler::seeded(1234);
    assert_eq!(search(&game, &mut rng3, 40), first);
}

#[test]
fn search_takes_an_immediate_win() {
    let game = four_in_a_row();
    let mut rng = Sampler::seeded(8);
    let (x, y) = search(&game, &mut rng, 30).expect("a consistent position cannot abort");
    // Both ends of the open four win at once; the search must prefer one of
    // them over everything else.
    assert!((x, y) == (5, 0) || (x, y) == (0, 0), "search chose ({}, {})", x, y);
}

#[test]
fn full_budget_search_plays_a_legal_move() {
    let game = nearly_full(3);
    let (x, y) = make_move(&game).expect("a consistent position cannot abort");
    assert!(game.can_move(x, y));
}

#[test]
fn seeded_sampler_is_reproducible_and_bounded() {
    let mut a = Sampler::seeded(99);
    let mut b = Sampler::seeded(99);
    for n in 1..50usize {
        let x = a.below(n);
        assert_eq!(x, b.below(n));
        assert!(x < n);
    }
}
