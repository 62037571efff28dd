//! Monte-Carlo tree search for choosing a move.
//!
//! The search grows a tree of candidate continuations rooted at the current
//! position.  Each pass clones the position, descends along UCT-best
//! children, expands the first childless node it reaches by giving every
//! legal cell one random playout, and carries the aggregated result back up
//! the recursion.  Scores use a doubled scale per playout -- 2 for a win, 1
//! for a tie, 0 for a loss, always from the perspective of the player who
//! made the move into the node -- so each level flips a result `v` from the
//! level below into `games_credited - wins_credited`.
//!
//! A playout that runs out of legal moves before the board reports a win or
//! a tie would mean the position state contradicts itself; the search then
//! aborts by returning `None` rather than guess.  From any consistent
//! position a playout is proved to terminate with a result, so this arises
//! only after descending through an already-decided child.

use vstd::prelude::*;

use crate::game::{
    cell_index, count_occupied, lemma_count_fill, lemma_count_prefix_bounds, lemma_exists_legal,
    lemma_legal_moves_nonempty, lemma_legal_prefix_elements, legal_prefix, spec_cell_legal,
    spec_in_bounds, spec_legal_moves, spec_wins, Game, Move,
};
use crate::numeric::spec_uct;
use crate::random::{spec_mix, Sampler};

verus! {

/// One node of the search tree: the move that leads into it, the statistics
/// accumulated for that move, and one optional child per board cell.
pub struct GameTree {
    /// The move that leads from the parent's position into this node.
    pub move_: (i32, i32),
    /// Accumulated doubled-scale score, for the player who made `move_`.
    pub wins: i32,
    /// Accumulated play count, on the same doubled scale.
    pub games: i32,
    /// Children in row-major order of their moves; empty until expansion.
    pub children: Vec<GameTree>,
}

/// The largest play count a node can reach here: the search driver runs at
/// most 100 passes and each pass credits at most `2 * 225` games.
pub const GAMES_CAP: i32 = 45450;

/// Well-formedness of a search node and everything below it: statistics
/// stay in the doubled-scale range, play counts are capped, and every child
/// is itself well-formed, carries an on-board move, and has been visited at
/// least once but no more often than its parent.
pub open spec fn wf_tree(t: GameTree) -> bool
    decreases t,
{
    &&& 0 <= t.wins <= 2 * t.games
    &&& t.games <= GAMES_CAP
    &&& forall|i: int|
        0 <= i < t.children@.len() ==> {
            let c = #[trigger] t.children@[i];
            &&& wf_tree(c)
            &&& 2 <= c.games <= t.games
            &&& spec_in_bounds(c.move_.0 as int, c.move_.1 as int)
        }
}

/// All legal moves of the position, in row-major order.
pub fn legal_moves(game: &Game) -> (moves: Vec<(i32, i32)>)
    requires
        game.wf(),
    ensures
        moves@ == spec_legal_moves(game.board@, game.turn as int),
{
    let mut moves: Vec<(i32, i32)> = Vec::new();
    let mut k: usize = 0;
    while k < 225
        invariant
            game.wf(),
            k <= 225,
            moves@ == legal_prefix(game.board@, game.turn as int, k as int),
        decreases 225 - k,
    {
        let x = (k % 15) as i32;
        let y = (k / 15) as i32;
        if game.can_move(x, y) {
            moves.push((x, y));
        }
        k = k + 1;
    }
    moves
}

/// Choose one legal move uniformly at random, or report that none exists.
/// Over a seeded sampler the choice is a pure function of the position and
/// the sampler's state.
pub fn get_random_move(game: &Game, rng: &mut Sampler) -> (r: Option<(i32, i32)>)
    requires
        game.wf(),
    ensures
        r is None <==> spec_legal_moves(game.board@, game.turn as int).len() == 0,
        r matches Some(m) ==> spec_in_bounds(m.0 as int, m.1 as int) && game.spec_can_move(
            m.0 as int,
            m.1 as int,
        ),
        r is None ==> *final(rng) == *old(rng),
        *old(rng) is System ==> *final(rng) is System,
        *old(rng) matches Sampler::Seeded(st) ==> (r is Some ==> {
            let legal = spec_legal_moves(game.board@, game.turn as int);
            &&& r == Some(legal[spec_mix(st) as int % legal.len() as int])
            &&& *final(rng) == Sampler::Seeded(spec_mix(st))
        }),
{
    let moves = legal_moves(game);
    if moves.len() == 0 {
        return None;
    }
    proof {
        lemma_legal_prefix_elements(game.board@, game.turn as int, 225);
    }
    let i = rng.below(moves.len());
    Some(moves[i])
}

/// The playout as a function of the board, the turn and the seeded
/// generator's state: the reported value and the state left behind.  Each
/// step draws the next index from the generator, plays that legal move,
/// and flips the deeper result; it mirrors `simulate` exactly.
pub open spec fn spec_simulate(board: Seq<i32>, turn: int, s: u64) -> (Option<i32>, u64)
    decreases 225 - count_occupied(board)
        when board.len() == 225 && 1 <= turn <= 225 via spec_simulate_decreases
{
    let legal = spec_legal_moves(board, turn);
    if legal.len() == 0 {
        (None, s)
    } else {
        let s1 = spec_mix(s);
        let m = legal[s1 as int % legal.len() as int];
        let x = m.0 as int;
        let y = m.1 as int;
        let b2 = board.update(cell_index(x, y), turn as i32);
        if spec_wins(b2, turn, x, y) {
            (Some(2i32), s1)
        } else if turn == 225 {
            (Some(1i32), s1)
        } else {
            let r = spec_simulate(b2, turn + 1, s1);
            match r.0 {
                None => (None, r.1),
                Some(v) => (Some((2 - v) as i32), r.1),
            }
        }
    }
}

#[via_fn]
proof fn spec_simulate_decreases(board: Seq<i32>, turn: int, s: u64) {
    lemma_count_prefix_bounds(board, 225);
    let legal = spec_legal_moves(board, turn);
    if legal.len() > 0 {
        lemma_legal_prefix_elements(board, turn, 225);
        let s1 = spec_mix(s);
        let m = legal[s1 as int % legal.len() as int];
        let x = m.0 as int;
        let y = m.1 as int;
        let b2 = board.update(cell_index(x, y), turn as i32);
        lemma_count_fill(board, cell_index(x, y), turn as i32, 225);
        lemma_count_prefix_bounds(b2, 225);
    }
}

/// Play uniformly random legal moves until the game ends, and report the
/// outcome for the player who is about to move: 2 for a win, 1 for a tie,
/// 0 for a loss.  Every step fills one empty cell, so a playout ends
/// within the 225 cells of the board.  Returns `None` only if the position
/// runs out of legal moves without ever reporting a tie, which a
/// consistent position cannot.  Over a seeded sampler the playout follows
/// `spec_simulate` exactly.
pub fn simulate(game: &mut Game, rng: &mut Sampler) -> (r: Option<i32>)
    requires
        old(game).wf(),
    ensures
        final(game).wf(),
        r matches Some(v) ==> 0 <= v <= 2,
        old(game).consistent() ==> r is Some,
        *old(rng) is System ==> *final(rng) is System,
        *old(rng) matches Sampler::Seeded(st) ==> {
            let m = spec_simulate(old(game).board@, old(game).turn as int, st);
            r == m.0 && *final(rng) == Sampler::Seeded(m.1)
        },
    decreases 225 - count_occupied(old(game).board@),
{
    proof {
        lemma_count_prefix_bounds(game.board@, 225);
    }
    match get_random_move(game, rng) {
        None => {
            proof {
                if old(game).consistent() {
                    lemma_exists_legal(*old(game));
                    let (x, y) = choose|x: int, y: int|
                        spec_in_bounds(x, y) && #[trigger] old(game).spec_can_move(x, y);
                    lemma_legal_moves_nonempty(game.board@, game.turn as int, x, y);
                }
            }
            None
        },
        Some((x, y)) => {
            proof {
                lemma_count_fill(game.board@, cell_index(x as int, y as int), game.turn, 225);
            }
            match game.make_move(x, y) {
                Move::Win => Some(2),
                Move::Tie => Some(1),
                Move::Fail => unreached(),
                Move::Normal => {
                    proof {
                        lemma_count_prefix_bounds(game.board@, 225);
                    }
                    match simulate(game, rng) {
                        None => None,
                        Some(v) => Some(2 - v),
                    }
                },
            }
        },
    }
}

/// A search node as a pure value: the same statistics and children as a
/// `GameTree`, but over mathematical integers and sequences, so that the
/// whole search can be stated as a function of position and seed.
pub struct TreeModel {
    /// The move that leads into the node.
    pub move_: (i32, i32),
    /// Accumulated doubled-scale score.
    pub wins: int,
    /// Accumulated play count.
    pub games: int,
    /// Children in row-major order of their moves.
    pub children: Seq<TreeModel>,
}

/// The value of a search node.
pub open spec fn tree_model(t: GameTree) -> TreeModel
    decreases t, 0int,
{
    TreeModel {
        move_: t.move_,
        wins: t.wins as int,
        games: t.games as int,
        children: children_models(t.children@, t.children@.len() as int),
    }
}

/// The values of the first `n` nodes of a child sequence.
pub open spec fn children_models(cs: Seq<GameTree>, n: int) -> Seq<TreeModel>
    decreases cs, n
        when n <= cs.len()
{
    if n <= 0 {
        Seq::empty()
    } else {
        children_models(cs, n - 1).push(tree_model(cs[n - 1]))
    }
}

/// `children_models` is the elementwise value of the child sequence.
pub proof fn lemma_children_models_index(cs: Seq<GameTree>, n: int)
    requires
        0 <= n <= cs.len(),
    ensures
        children_models(cs, n).len() == n,
        forall|i: int| 0 <= i < n ==> #[trigger] children_models(cs, n)[i] == tree_model(cs[i]),
    decreases n,
{
    if n > 0 {
        lemma_children_models_index(cs, n - 1);
    }
}

/// The selection scan over the first `n` children: the index and heuristic
/// of the provisional best child, starting from index 0 with heuristic 0
/// and replacing it only on a strictly greater heuristic.
pub open spec fn spec_select(children: Seq<TreeModel>, parent_games: int, n: int) -> (int, int)
    decreases n,
{
    if n <= 0 {
        (0, 0)
    } else {
        let prev = spec_select(children, parent_games, n - 1);
        let u = spec_uct(children[n - 1].wins, children[n - 1].games, parent_games);
        if u > prev.1 {
            (n - 1, u)
        } else {
            prev
        }
    }
}

/// What one attempted move does to a position: an illegal move changes
/// nothing; a legal one places the stone, and advances the turn only when
/// it neither wins nor fills the board.  It mirrors `Game::make_move`.
pub open spec fn spec_move_effect(board: Seq<i32>, turn: int, x: int, y: int) -> (Seq<i32>, int) {
    if !spec_cell_legal(board, turn, x, y) {
        (board, turn)
    } else {
        let b2 = board.update(cell_index(x, y), turn as i32);
        if spec_wins(b2, turn, x, y) {
            (b2, turn)
        } else if turn == 225 {
            (b2, turn)
        } else {
            (b2, turn + 1)
        }
    }
}

/// The summed scores of the first `n` entries of a win-score sequence.
pub open spec fn sum_scores(ws: Seq<i32>, n: int) -> int
    decreases n,
{
    if n <= 0 {
        0
    } else {
        sum_scores(ws, n - 1) + ws[n - 1]
    }
}

/// The two win-score sums agree on children whose scores form `ws`.
proof fn lemma_sum_scores_agree(children: Seq<GameTree>, ws: Seq<i32>, n: int)
    requires
        0 <= n <= children.len(),
        ws == children.map_values(|c: GameTree| c.wins),
    ensures
        sum_child_wins(children, n) == sum_scores(ws, n),
    decreases n,
{
    if n > 0 {
        lemma_sum_scores_agree(children, ws, n - 1);
    }
}

/// The summed win scores of the first `n` children.
pub open spec fn sum_child_wins(children: Seq<GameTree>, n: int) -> int
    decreases n,
{
    if n <= 0 {
        0
    } else {
        sum_child_wins(children, n - 1) + children[n - 1].wins
    }
}

/// Appending a child leaves the sum over an existing prefix unchanged.
proof fn lemma_sum_child_wins_push(children: Seq<GameTree>, c: GameTree, n: int)
    requires
        0 <= n <= children.len(),
    ensures
        sum_child_wins(children.push(c), n) == sum_child_wins(children, n),
    decreases n,
{
    if n > 0 {
        lemma_sum_child_wins_push(children, c, n - 1);
    }
}

/// The expansion scan over the first `k` cells, as a function of the
/// board, the turn and the seeded generator's state: `None` once any
/// playout aborts, otherwise the per-child win scores in row-major order
/// together with the state left behind.  It mirrors `expand` exactly.
pub open spec fn spec_expand(board: Seq<i32>, turn: int, s: u64, k: int) -> Option<(Seq<i32>, u64)>
    decreases k,
{
    if k <= 0 {
        Some((Seq::empty(), s))
    } else {
        match spec_expand(board, turn, s, k - 1) {
            None => None,
            Some((ws, s1)) => {
                let m = spec_simulate_move((k - 1) % 15, (k - 1) / 15, board, turn, s1);
                match m.0 {
                    None => None,
                    Some(v) => if v >= 0 {
                        Some((ws.push(v), m.1))
                    } else {
                        Some((ws, m.1))
                    },
                }
            },
        }
    }
}

/// Once the expansion scan aborts, every longer scan aborts too.
proof fn lemma_spec_expand_abort(board: Seq<i32>, turn: int, s: u64, k1: int, k2: int)
    requires
        0 <= k1 <= k2,
        spec_expand(board, turn, s, k1) is None,
    ensures
        spec_expand(board, turn, s, k2) is None,
    decreases k2 - k1,
{
    if k1 < k2 {
        lemma_spec_expand_abort(board, turn, s, k1, k2 - 1);
    }
}

/// The selection scan always yields an index of a scanned child, or 0.
pub proof fn lemma_spec_select_range(children: Seq<TreeModel>, parent_games: int, n: int)
    ensures
        0 <= spec_select(children, parent_games, n).0,
        spec_select(children, parent_games, n).0 < (if n < 1 {
            1int
        } else {
            n
        }),
    decreases n,
{
    if n > 0 {
        lemma_spec_select_range(children, parent_games, n - 1);
    }
}

/// One search pass as a function of the node's value, the position and
/// the seeded generator's state: the node's own increment, the node's new
/// value and the state left behind.  An aborted pass leaves the node
/// unchanged, and the search then stops, so the state it reports is not
/// relied upon.  It mirrors `GameTree::backpropagate` exactly.
pub open spec fn spec_backprop(t: TreeModel, board: Seq<i32>, turn: int, s: u64) -> (
    Option<(int, int)>,
    TreeModel,
    u64,
)
    decreases t, 0int
        via spec_backprop_decreases
{
    if t.children.len() > 0 {
        let idx = spec_select(t.children, t.games, t.children.len() as int).0;
        let c = t.children[idx];
        let e = spec_move_effect(board, turn, c.move_.0 as int, c.move_.1 as int);
        let rec = spec_backprop(c, e.0, e.1, s);
        match rec.0 {
            None => (None, t, s),
            Some((w, g)) => (
                Some((g - w, g)),
                TreeModel {
                    move_: t.move_,
                    wins: t.wins + (g - w),
                    games: t.games + g,
                    children: t.children.update(idx, rec.1),
                },
                rec.2,
            ),
        }
    } else {
        match spec_expand(board, turn, s, 225) {
            None => (None, t, s),
            Some((ws, s2)) => {
                let g = 2 * ws.len() as int;
                let w = g - sum_scores(ws, ws.len() as int);
                let legal = spec_legal_moves(board, turn);
                (
                    Some((w, g)),
                    TreeModel {
                        move_: t.move_,
                        wins: t.wins + w,
                        games: t.games + g,
                        children: Seq::new(
                            ws.len(),
                            |j: int|
                                TreeModel {
                                    move_: legal[j],
                                    wins: ws[j] as int,
                                    games: 2,
                                    children: Seq::empty(),
                                },
                        ),
                    },
                    s2,
                )
            },
        }
    }
}

#[via_fn]
proof fn spec_backprop_decreases(t: TreeModel, board: Seq<i32>, turn: int, s: u64) {
    if t.children.len() > 0 {
        lemma_spec_select_range(t.children, t.games, t.children.len() as int);
    }
}

impl GameTree {
    /// The UCT heuristic of this node, seen as a child of a parent with
    /// the given play count.
    pub fn uct(&self, parent_games: i32) -> (r: u64)
        requires
            1 <= self.games,
            0 <= self.wins,
            1 <= parent_games,
        ensures
            r == spec_uct(self.wins as int, self.games as int, parent_games as int),
    {
        crate::numeric::uct(self.wins as u64, self.games as u64, parent_games as u64)
    }

    /// The index of the child with the strictly greatest UCT heuristic,
    /// ties resolved in favour of the earliest child; index 0 stands if no
    /// child beats the initial provisional heuristic of zero.
    pub fn select(&self) -> (idx: usize)
        requires
            wf_tree(*self),
            self.children@.len() > 0,
        ensures
            idx < self.children@.len(),
            idx as int == spec_select(
                tree_model(*self).children,
                self.games as int,
                self.children@.len() as int,
            ).0,
    {
        let mut best_index: usize = 0;
        let mut best_uct: u64 = 0;
        let mut i: usize = 0;
        while i < self.children.len()
            invariant
                wf_tree(*self),
                0 < self.children@.len(),
                i <= self.children@.len(),
                best_index < self.children@.len(),
                (best_index as int, best_uct as int) == spec_select(
                    tree_model(*self).children,
                    self.games as int,
                    i as int,
                ),
            decreases self.children@.len() - i,
        {
            let child = &self.children[i];
            proof {
                let c = self.children@[i as int];
                assert(wf_tree(c) && 2 <= c.games <= self.games && self.games <= GAMES_CAP);
                lemma_children_models_index(self.children@, self.children@.len() as int);
                assert(tree_model(*self).children[i as int] == tree_model(c));
                assert(tree_model(c).wins == c.wins as int && tree_model(c).games
                    == c.games as int);
            }
            let u = child.uct(self.games);
            if u > best_uct {
                best_index = i;
                best_uct = u;
            }
            i = i + 1;
        }
        best_index
    }

    /// Give every legal cell of the position a child seeded with one
    /// playout, and report the summed statistics from the parent's
    /// perspective: a child whose playout scored `v` for its mover
    /// contributes `2 - v` wins and 2 games.  `None` propagates a playout
    /// abort, which cannot arise from a consistent position.  Over a
    /// seeded sampler the children's scores follow `spec_expand` exactly.
    pub fn expand(&self, game: &Game, rng: &mut Sampler) -> (r: Option<(i32, i32, Vec<GameTree>)>)
        requires
            game.wf(),
        ensures
            r matches Some((w, g, children)) ==> {
                let legal = spec_legal_moves(game.board@, game.turn as int);
                &&& children@.len() == legal.len()
                &&& g == 2 * children@.len()
                &&& w == g - sum_child_wins(children@, children@.len() as int)
                &&& 0 <= w <= g
                &&& forall|j: int|
                    0 <= j < children@.len() ==> {
                        let c = #[trigger] children@[j];
                        &&& c.move_ == legal[j]
                        &&& c.games == 2
                        &&& 0 <= c.wins <= 2
                        &&& c.children@.len() == 0
                        &&& (spec_wins(
                            game.board_after(c.move_.0 as int, c.move_.1 as int),
                            game.turn as int,
                            c.move_.0 as int,
                            c.move_.1 as int,
                        ) ==> c.wins == 2)
                        &&& (!spec_wins(
                            game.board_after(c.move_.0 as int, c.move_.1 as int),
                            game.turn as int,
                            c.move_.0 as int,
                            c.move_.1 as int,
                        ) && game.turn == 225 ==> c.wins == 1)
                    }
            },
            game.consistent() ==> r is Some,
            *old(rng) is System ==> *final(rng) is System,
            *old(rng) matches Sampler::Seeded(st) ==> match spec_expand(
                game.board@,
                game.turn as int,
                st,
                225,
            ) {
                None => r is None,
                Some((ws, s2)) => r is Some && (r matches Some((w, g, children))
                    ==> children@.map_values(|c: GameTree| c.wins) == ws && *final(rng)
                    == Sampler::Seeded(s2)),
            },
    {
        let mut total_wins: i32 = 0;
        let mut total_games: i32 = 0;
        let mut children: Vec<GameTree> = Vec::new();
        let mut k: usize = 0;
        while k < 225
            invariant
                game.wf(),
                k <= 225,
                children@.len() == legal_prefix(game.board@, game.turn as int, k as int).len(),
                total_games == 2 * children@.len(),
                total_wins == total_games - sum_child_wins(children@, children@.len() as int),
                0 <= total_wins <= total_games,
                forall|j: int|
                    0 <= j < children@.len() ==> {
                        let c = #[trigger] children@[j];
                        &&& c.move_ == legal_prefix(game.board@, game.turn as int, k as int)[j]
                        &&& c.games == 2
                        &&& 0 <= c.wins <= 2
                        &&& c.children@.len() == 0
                        &&& (spec_wins(
                            game.board_after(c.move_.0 as int, c.move_.1 as int),
                            game.turn as int,
                            c.move_.0 as int,
                            c.move_.1 as int,
                        ) ==> c.wins == 2)
                        &&& (!spec_wins(
                            game.board_after(c.move_.0 as int, c.move_.1 as int),
                            game.turn as int,
                            c.move_.0 as int,
                            c.move_.1 as int,
                        ) && game.turn == 225 ==> c.wins == 1)
                    },
                *old(rng) is System ==> *rng is System,
                *old(rng) matches Sampler::Seeded(st) ==> match spec_expand(
                    game.board@,
                    game.turn as int,
                    st,
                    k as int,
                ) {
                    None => false,
                    Some((ws, s1)) => children@.map_values(|c: GameTree| c.wins) == ws && *rng
                        == Sampler::Seeded(s1),
                },
            decreases 225 - k,
        {
            let x = (k % 15) as i32;
            let y = (k / 15) as i32;
            proof {
                lemma_legal_prefix_elements(game.board@, game.turn as int, k as int);
            }
            let mut played = game.duplicate();
            let r = simulate_move(x, y, &mut played, rng);
            match r {
                None => {
                    proof {
                        if let Sampler::Seeded(st) = *old(rng) {
                            lemma_spec_expand_abort(
                                game.board@,
                                game.turn as int,
                                st,
                                k as int + 1,
                                225,
                            );
                        }
                    }
                    return None;
                },
                Some(v) => {
                    if v >= 0 {
                        total_wins = total_wins + (2 - v);
                        total_games = total_games + 2;
                        let node = GameTree {
                            move_: (x, y),
                            wins: v,
                            games: 2,
                            children: Vec::new(),
                        };
                        proof {
                            lemma_sum_child_wins_push(children@, node, children@.len() as int);
                            assert(children@.push(node).map_values(|c: GameTree| c.wins)
                                =~= children@.map_values(|c: GameTree| c.wins).push(node.wins));
                        }
                        children.push(node);
                    }
                },
            }
            k = k + 1;
        }
        Some((total_wins, total_games, children))
    }
}

impl GameTree {
    /// One search pass from this node against the given position clone:
    /// descend along UCT-best children, expand the first childless node
    /// reached, and credit the pass's result to every node on the path.
    /// The returned pair is this node's own increment, already flipped to
    /// the perspective of the player who moved into it; a parent flips it
    /// again.  `None` aborts the pass, crediting nothing anywhere.  Over a
    /// seeded sampler the whole pass follows `spec_backprop` exactly.
    pub fn backpropagate(&mut self, game: &mut Game, rng: &mut Sampler) -> (r: Option<(i32, i32)>)
        requires
            wf_tree(*old(self)),
            old(self).games <= GAMES_CAP - 450,
            old(game).wf(),
        ensures
            final(game).wf(),
            wf_tree(*final(self)),
            final(self).move_ == old(self).move_,
            r is None ==> tree_model(*final(self)) == tree_model(*old(self)),
            r is None ==> final(self).games == old(self).games && final(self).wins == old(
                self,
            ).wins,
            *old(rng) is System ==> *final(rng) is System,
            *old(rng) matches Sampler::Seeded(st) ==> ({
                let rec = spec_backprop(
                    tree_model(*old(self)),
                    old(game).board@,
                    old(game).turn as int,
                    st,
                );
                &&& (r is None <==> rec.0 is None)
                &&& (r matches Some((w, g)) ==> rec.0 == Some((w as int, g as int)))
                &&& (r is Some ==> tree_model(*final(self)) == rec.1 && *final(rng)
                    == Sampler::Seeded(rec.2))
            }),
            r matches Some((w, g)) ==> 0 <= w <= g <= 450 && final(self).games == old(self).games
                + g && final(self).wins == old(self).wins + w,
            old(self).children@.len() > 0 ==> final(self).children@.len() == old(
                self,
            ).children@.len() && forall|j: int|
                0 <= j < old(self).children@.len() ==> #[trigger] final(self).children@[j].move_
                    == old(self).children@[j].move_,
            old(self).children@.len() == 0 && r is Some ==> {
                let legal = spec_legal_moves(old(game).board@, old(game).turn as int);
                final(self).children@.len() == legal.len() && forall|j: int|
                    0 <= j < legal.len() ==> #[trigger] final(self).children@[j].move_ == legal[j]
            },
            old(self).children@.len() == 0 && r is None ==> final(self).children@.len() == 0,
            old(self).children@.len() == 0 && old(game).consistent() ==> r is Some,
        decreases *old(self),
    {
        if self.children.len() > 0 {
            let best = self.select();
            let ghost old_children = self.children@;
            let ghost m0 = tree_model(*old(self));
            let mut child = self.children.remove(best);
            let (cx, cy) = child.move_;
            proof {
                let c = old_children[best as int];
                assert(wf_tree(c) && 2 <= c.games <= old(self).games && spec_in_bounds(
                    c.move_.0 as int,
                    c.move_.1 as int,
                ));
                lemma_children_models_index(old_children, old_children.len() as int);
                assert(m0.children[best as int] == tree_model(child));
            }
            // The outcome is deliberately ignored: the child's move is legal
            // whenever the tree still matches the position, and an already
            // decided position simply stops classifying further wins.
            let _ = game.make_move(cx, cy);
            proof {
                let e = spec_move_effect(
                    old(game).board@,
                    old(game).turn as int,
                    cx as int,
                    cy as int,
                );
                assert(game.board@ == e.0 && game.turn as int == e.1);
            }
            let res = child.backpropagate(game, rng);
            self.children.insert(best, child);
            proof {
                assert(self.children@ =~= old_children.update(
                    best as int,
                    self.children@[best as int],
                ));
            }
            match res {
                None => {
                    proof {
                        assert forall|i: int| 0 <= i < self.children@.len() implies {
                            let c = #[trigger] self.children@[i];
                            wf_tree(c) && 2 <= c.games <= self.games && spec_in_bounds(
                                c.move_.0 as int,
                                c.move_.1 as int,
                            )
                        } by {
                            let o = old_children[i];
                            assert(wf_tree(o) && 2 <= o.games <= old(self).games
                                && spec_in_bounds(o.move_.0 as int, o.move_.1 as int));
                        }
                        lemma_children_models_index(
                            self.children@,
                            self.children@.len() as int,
                        );
                        assert(children_models(self.children@, self.children@.len() as int)
                            =~= m0.children);
                        assert(tree_model(*self) == m0);
                    }
                    None
                },
                Some((w, g)) => {
                    let flipped = g - w;
                    self.wins = self.wins + flipped;
                    self.games = self.games + g;
                    proof {
                        assert forall|i: int| 0 <= i < self.children@.len() implies {
                            let c = #[trigger] self.children@[i];
                            wf_tree(c) && 2 <= c.games <= self.games && spec_in_bounds(
                                c.move_.0 as int,
                                c.move_.1 as int,
                            )
                        } by {
                            let o = old_children[i];
                            assert(wf_tree(o) && 2 <= o.games <= old(self).games
                                && spec_in_bounds(o.move_.0 as int, o.move_.1 as int));
                        }
                        if let Sampler::Seeded(st) = *old(rng) {
                            let rec = spec_backprop(
                                m0,
                                old(game).board@,
                                old(game).turn as int,
                                st,
                            );
                            lemma_children_models_index(
                                self.children@,
                                self.children@.len() as int,
                            );
                            assert(children_models(self.children@, self.children@.len() as int)
                                =~= m0.children.update(
                                best as int,
                                tree_model(self.children@[best as int]),
                            ));
                            assert(tree_model(*self) == rec.1);
                        }
                    }
                    Some((flipped, g))
                },
            }
        } else {
            let res = self.expand(game, rng);
            match res {
                None => None,
                Some((w, g, children)) => {
                    proof {
                        lemma_legal_prefix_elements(game.board@, game.turn as int, 225);
                    }
                    self.children = children;
                    self.wins = self.wins + w;
                    self.games = self.games + g;
                    proof {
                        assert forall|i: int| 0 <= i < self.children@.len() implies {
                            let c = #[trigger] self.children@[i];
                            wf_tree(c) && 2 <= c.games <= self.games && spec_in_bounds(
                                c.move_.0 as int,
                                c.move_.1 as int,
                            )
                        } by {
                            lemma_legal_prefix_elements(
                                old(game).board@,
                                old(game).turn as int,
                                225,
                            );
                        }
                        if let Sampler::Seeded(st) = *old(rng) {
                            let rec = spec_backprop(
                                tree_model(*old(self)),
                                old(game).board@,
                                old(game).turn as int,
                                st,
                            );
                            let ex = spec_expand(
                                old(game).board@,
                                old(game).turn as int,
                                st,
                                225,
                            );
                            let ws = (ex->0).0;
                            let legal = spec_legal_moves(old(game).board@, old(game).turn as int);
                            lemma_sum_scores_agree(
                                self.children@,
                                ws,
                                self.children@.len() as int,
                            );
                            lemma_children_models_index(
                                self.children@,
                                self.children@.len() as int,
                            );
                            assert forall|j: int| 0 <= j < self.children@.len() implies
                                #[trigger] children_models(
                                    self.children@,
                                    self.children@.len() as int,
                                )[j] == (TreeModel {
                                    move_: legal[j],
                                    wins: ws[j] as int,
                                    games: 2,
                                    children: Seq::empty(),
                                }) by {
                                let c = self.children@[j];
                                assert(c.wins == self.children@.map_values(
                                    |cc: GameTree| cc.wins,
                                )[j]);
                                assert(children_models(c.children@, 0) =~= Seq::<
                                    TreeModel,
                                >::empty());
                                assert(tree_model(c) == TreeModel {
                                    move_: legal[j],
                                    wins: ws[j] as int,
                                    games: 2,
                                    children: Seq::empty(),
                                });
                            }
                            assert(children_models(self.children@, self.children@.len() as int)
                                =~= rec.1.children);
                            assert(tree_model(*self) == rec.1);
                        }
                    }
                    Some((w, g))
                },
            }
        }
    }
}

/// The root's value before any pass.
pub open spec fn root_model() -> TreeModel {
    TreeModel { move_: (-1i32, -1i32), wins: 0, games: 0, children: Seq::empty() }
}

/// The first `n` search passes as a function of the position and the
/// seeded generator's state: `None` once any pass aborts, otherwise the
/// root's value and the state left behind.
pub open spec fn spec_search_passes(board: Seq<i32>, turn: int, s: u64, n: int) -> Option<
    (TreeModel, u64),
>
    decreases n,
{
    if n <= 0 {
        Some((root_model(), s))
    } else {
        match spec_search_passes(board, turn, s, n - 1) {
            None => None,
            Some((t, s1)) => {
                let rec = spec_backprop(t, board, turn, s1);
                match rec.0 {
                    None => None,
                    Some(inc) => Some((rec.1, rec.2)),
                }
            },
        }
    }
}

/// Once a pass aborts, every longer run of passes aborts too.
proof fn lemma_spec_search_passes_abort(board: Seq<i32>, turn: int, s: u64, k1: int, k2: int)
    requires
        0 <= k1 <= k2,
        spec_search_passes(board, turn, s, k1) is None,
    ensures
        spec_search_passes(board, turn, s, k2) is None,
    decreases k2 - k1,
{
    if k1 < k2 {
        lemma_spec_search_passes_abort(board, turn, s, k1, k2 - 1);
    }
}

/// The scan of the root's children for the most-played move: the
/// provisional best move and its play count over the first `n` children,
/// starting from cell `(0, 0)` with count 0 and replacing the provisional
/// best only on a strictly greater count.
pub open spec fn spec_best_move(children: Seq<TreeModel>, n: int) -> ((i32, i32), int)
    decreases n,
{
    if n <= 0 {
        ((0i32, 0i32), 0)
    } else {
        let prev = spec_best_move(children, n - 1);
        if children[n - 1].games > prev.1 {
            (children[n - 1].move_, children[n - 1].games)
        } else {
            prev
        }
    }
}

/// The move the search returns, as a function of the position, the seed
/// and the iteration budget.
pub open spec fn spec_search(board: Seq<i32>, turn: int, seed: u64, iterations: int) -> Option<
    (i32, i32),
> {
    match spec_search_passes(board, turn, seed, iterations) {
        None => None,
        Some((t, s2)) => Some(spec_best_move(t.children, t.children.len() as int).0),
    }
}

/// Run a bounded Monte-Carlo tree search from the position and return the
/// move of the root child with the strictly greatest play count, scanning
/// children in row-major order and keeping the first maximum.  When the
/// position has no legal move at all, the scan never replaces the
/// provisional default and the result is the cell `(0, 0)` -- a quirk of
/// the selection rule, kept deliberately.  `None` reports an aborted playout; the
/// caller's position itself is never changed.  Over a seeded sampler the
/// whole search follows `spec_search` exactly, so repeated calls with the
/// same position and seed return the same move.
pub fn search(game: &Game, rng: &mut Sampler, iterations: u32) -> (r: Option<(i32, i32)>)
    requires
        game.wf(),
        1 <= iterations <= 100,
    ensures
        r matches Some(m) ==> {
            if spec_legal_moves(game.board@, game.turn as int).len() > 0 {
                spec_in_bounds(m.0 as int, m.1 as int) && game.spec_can_move(
                    m.0 as int,
                    m.1 as int,
                )
            } else {
                m == (0i32, 0i32)
            }
        },
        *old(rng) matches Sampler::Seeded(seed) ==> r == spec_search(
            game.board@,
            game.turn as int,
            seed,
            iterations as int,
        ),
        game.consistent() && iterations == 1 ==> r is Some,
{
    let ghost legal = spec_legal_moves(game.board@, game.turn as int);
    let mut root = GameTree { move_: (-1, -1), wins: 0, games: 0, children: Vec::new() };
    proof {
        assert(children_models(root.children@, 0) =~= Seq::<TreeModel>::empty());
        assert(tree_model(root) == root_model());
    }
    let mut it: u32 = 0;
    while it < iterations
        invariant
            game.wf(),
            1 <= iterations <= 100,
            it <= iterations,
            wf_tree(root),
            root.games <= 450 * it,
            legal == spec_legal_moves(game.board@, game.turn as int),
            it > 0 ==> root.children@.len() == legal.len() && forall|j: int|
                0 <= j < legal.len() ==> #[trigger] root.children@[j].move_ == legal[j],
            it == 0 ==> root.children@.len() == 0,
            *old(rng) matches Sampler::Seeded(seed) ==> match spec_search_passes(
                game.board@,
                game.turn as int,
                seed,
                it as int,
            ) {
                None => false,
                Some((t, s1)) => tree_model(root) == t && *rng == Sampler::Seeded(s1),
            },
        decreases iterations - it,
    {
        let mut played = game.duplicate();
        let res = root.backpropagate(&mut played, rng);
        if res.is_none() {
            proof {
                if let Sampler::Seeded(seed) = *old(rng) {
                    lemma_spec_search_passes_abort(
                        game.board@,
                        game.turn as int,
                        seed,
                        it as int + 1,
                        iterations as int,
                    );
                }
                // The very first pass expands a consistent position and
                // cannot abort, so a one-pass search always returns a move.
                if game.consistent() && iterations == 1 {
                    assert(it == 0 && root.children@.len() == 0);
                    assert(false);
                }
            }
            return None;
        }
        it = it + 1;
    }
    proof {
        lemma_legal_prefix_elements(game.board@, game.turn as int, 225);
    }
    let mut best: (i32, i32) = (0, 0);
    let mut most: i32 = 0;
    let mut i: usize = 0;
    while i < root.children.len()
        invariant
            wf_tree(root),
            i <= root.children@.len(),
            root.children@.len() == legal.len(),
            forall|j: int|
                0 <= j < legal.len() ==> #[trigger] root.children@[j].move_ == legal[j],
            forall|j: int|
                0 <= j < legal.len() ==> {
                    let m = #[trigger] legal[j];
                    spec_in_bounds(m.0 as int, m.1 as int) && spec_cell_legal(
                        game.board@,
                        game.turn as int,
                        m.0 as int,
                        m.1 as int,
                    )
                },
            i == 0 ==> most == 0 && best == (0i32, 0i32),
            i > 0 ==> most > 0,
            most > 0 ==> exists|j: int| 0 <= j < i && best == #[trigger] root.children@[j].move_,
            (best, most as int) == spec_best_move(tree_model(root).children, i as int),
            *old(rng) matches Sampler::Seeded(seed) ==> match spec_search_passes(
                game.board@,
                game.turn as int,
                seed,
                iterations as int,
            ) {
                None => false,
                Some((t, s1)) => tree_model(root) == t,
            },
        decreases root.children@.len() - i,
    {
        let child = &root.children[i];
        proof {
            let c = root.children@[i as int];
            assert(wf_tree(c) && 2 <= c.games);
            lemma_children_models_index(root.children@, root.children@.len() as int);
            assert(tree_model(root).children[i as int] == tree_model(c));
        }
        if child.games > most {
            best = child.move_;
            most = child.games;
        }
        i = i + 1;
    }
    proof {
        lemma_children_models_index(root.children@, root.children@.len() as int);
    }
    Some(best)
}

/// Choose a move for the side to play, searching with the system random
/// source and the full iteration budget.  `None` reports an aborted
/// playout, after which no move should be trusted.
pub fn make_move(game: &Game) -> (r: Option<(i32, i32)>)
    requires
        game.wf(),
    ensures
        r matches Some(m) ==> {
            if spec_legal_moves(game.board@, game.turn as int).len() > 0 {
                spec_in_bounds(m.0 as int, m.1 as int) && game.spec_can_move(
                    m.0 as int,
                    m.1 as int,
                )
            } else {
                m == (0i32, 0i32)
            }
        },
{
    let mut rng = Sampler::system();
    search(game, &mut rng, 100)
}

/// One candidate move's estimate as a function of the board, the turn and
/// the seeded generator's state; it mirrors `simulate_move` exactly.
pub open spec fn spec_simulate_move(x: int, y: int, board: Seq<i32>, turn: int, s: u64) -> (
    Option<i32>,
    u64,
) {
    if !spec_cell_legal(board, turn, x, y) {
        (Some(-1i32), s)
    } else {
        let b2 = board.update(cell_index(x, y), turn as i32);
        if spec_wins(b2, turn, x, y) {
            (Some(2i32), s)
        } else if turn == 225 {
            (Some(1i32), s)
        } else {
            let r = spec_simulate(b2, turn + 1, s);
            match r.0 {
                None => (None, r.1),
                Some(v) => (Some((2 - v) as i32), r.1),
            }
        }
    }
}

/// Try the move `(x, y)` on the position and estimate its value for the
/// mover with one random playout: an illegal cell reports -1, an immediate
/// win 2, an immediate tie 1, and otherwise two minus the playout result
/// for the opponent.  `None` propagates a playout abort.  Over a seeded
/// sampler the estimate follows `spec_simulate_move` exactly.
pub fn simulate_move(x: i32, y: i32, game: &mut Game, rng: &mut Sampler) -> (r: Option<i32>)
    requires
        old(game).wf(),
        spec_in_bounds(x as int, y as int),
    ensures
        final(game).wf(),
        r matches Some(v) ==> -1 <= v <= 2,
        r matches Some(v) ==> (v == -1 <==> !old(game).spec_can_move(x as int, y as int)),
        old(game).spec_can_move(x as int, y as int) && spec_wins(
            old(game).board_after(x as int, y as int),
            old(game).turn as int,
            x as int,
            y as int,
        ) ==> r == Some(2i32),
        old(game).spec_can_move(x as int, y as int) && !spec_wins(
            old(game).board_after(x as int, y as int),
            old(game).turn as int,
            x as int,
            y as int,
        ) && old(game).turn == 225 ==> r == Some(1i32),
        old(game).consistent() ==> r is Some,
        *old(rng) is System ==> *final(rng) is System,
        *old(rng) matches Sampler::Seeded(st) ==> {
            let m = spec_simulate_move(
                x as int,
                y as int,
                old(game).board@,
                old(game).turn as int,
                st,
            );
            r == m.0 && *final(rng) == Sampler::Seeded(m.1)
        },
    {
    match game.make_move(x, y) {
        Move::Win => Some(2),
        Move::Tie => Some(1),
        Move::Fail => Some(-1),
        Move::Normal => {
            match simulate(game, rng) {
                None => None,
                Some(v) => Some(2 - v),
            }
        },
    }
}

} // verus!
