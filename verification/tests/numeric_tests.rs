use gomoku::numeric::{isqrt, ln_fp, uct, FP, LN2_FP};

#[test]
fn integer_square_roots_are_exact() {
    assert_eq!(isqrt(0), 0);
    assert_eq!(isqrt(1), 1);
    assert_eq!(isqrt(3), 1);
    assert_eq!(isqrt(4), 2);
    assert_eq!(isqrt(15), 3);
    assert_eq!(isqrt(16), 4);
    assert_eq!(isqrt(1_000_000), 1000);
    assert_eq!(isqrt(u64::MAX), 4_294_967_295);
}

#[test]
fn fixed_point_logarithm_matches_the_formula() {
    assert_eq!(FP, 65536);
    assert_eq!(LN2_FP, 45426);
    // At powers of two the piecewise-linear term vanishes.
    assert_eq!(ln_fp(1), 0);
    assert_eq!(ln_fp(2), LN2_FP);
    assert_eq!(ln_fp(4), 2 * LN2_FP);
    assert_eq!(ln_fp(1024), 10 * LN2_FP);
    // Between powers of two the fraction interpolates linearly:
    // ln(3) ~ ln2 * (1 + 1/2).
    assert_eq!(ln_fp(3), 68139);
    assert_eq!(ln_fp(10), 147634);
}

#[test]
fn uct_matches_the_formula() {
    // wins/games = 1/2 -> 32768; exploration = isqrt(2 * ln(4) * FP / 2).
    assert_eq!(uct(1, 2, 4), 109930);
    assert_eq!(uct(2, 2, 4), 142698);
    assert_eq!(uct(0, 2, 4), 77162);
    assert_eq!(uct(4, 4, 8), 132360);
}

#[test]
fn uct_is_monotone_in_wins_for_equal_games() {
    for games in 1..20u64 {
        for parent in [2u64, 5, 40, 45000] {
            let mut last = 0;
            for wins in 0..=2 * games {
                let u = uct(wins, games, parent);
                assert!(u >= last, "uct fell from {} to {}", last, u);
                last = u;
            }
        }
    }
}

#[test]
fn equal_statistics_give_equal_heuristics() {
    assert_eq!(uct(3, 4, 17), uct(3, 4, 17));
    assert!(uct(3, 4, 17) > uct(2, 4, 17));
}
