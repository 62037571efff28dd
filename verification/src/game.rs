//! Board state and rules of the game.
//!
//! A position is a 15x15 board of cells together with a turn counter that
//! starts at 1.  An empty cell holds 0; an occupied cell holds the number of
//! the turn on which it was filled, so the parity of a cell tells which side
//! owns the stone.  The turn counter advances only on a `Normal` move: a
//! winning or tying move leaves it unchanged, and a failed move leaves the
//! whole position unchanged.

use vstd::prelude::*;

verus! {

/// Width and height of the board.
pub const SIZE: i32 = 15;

/// Number of cells on the board.
pub const AREA: usize = 225;

/// Classification of an attempted move.
#[derive(Clone, Copy, Debug, PartialEq, Eq, Structural)]
pub enum Move {
    /// The move completed five in a row for the mover.
    Win,
    /// The move filled the last cell without making five in a row.
    Tie,
    /// An ordinary move; play continues.
    Normal,
    /// The cell was occupied or forbidden; the position is unchanged.
    Fail,
}

/// A position: whose turn it is and the contents of every cell.
#[derive(Clone)]
pub struct Game {
    /// Number of the move about to be played, starting at 1.
    pub turn: i32,
    /// Row-major cell contents: 0 for empty, else the turn that filled it.
    pub board: Vec<i32>,
}

/// The row-major index of cell `(x, y)`.
pub open spec fn cell_index(x: int, y: int) -> int {
    x + y * 15
}

/// Whether `(x, y)` lies on the board.
pub open spec fn spec_in_bounds(x: int, y: int) -> bool {
    0 <= x < 15 && 0 <= y < 15
}

/// Whether two stone values belong to the same side (same turn parity).
pub open spec fn spec_same_parity(a: int, b: int) -> bool {
    (a + b) % 2 == 0
}

/// Whether, on a board with the given contents and turn, the mover may play
/// at `(x, y)`: the cell is empty and, on the third turn only, lies outside
/// the central 7x7 opening zone.
pub open spec fn spec_cell_legal(board: Seq<i32>, turn: int, x: int, y: int) -> bool {
    &&& !(turn == 3 && 4 <= x <= 10 && 4 <= y <= 10)
    &&& board[cell_index(x, y)] == 0
}

/// The legal cells among the first `k` cells in row-major order.
pub open spec fn legal_prefix(board: Seq<i32>, turn: int, k: int) -> Seq<(i32, i32)>
    decreases k,
{
    if k <= 0 {
        Seq::empty()
    } else {
        let rest = legal_prefix(board, turn, k - 1);
        let x = (k - 1) % 15;
        let y = (k - 1) / 15;
        if spec_cell_legal(board, turn, x, y) {
            rest.push((x as i32, y as i32))
        } else {
            rest
        }
    }
}

/// All legal cells in row-major order.
pub open spec fn spec_legal_moves(board: Seq<i32>, turn: int) -> Seq<(i32, i32)> {
    legal_prefix(board, turn, 225)
}

/// Every entry of a legal prefix is an on-board, legal cell.
pub proof fn lemma_legal_prefix_elements(board: Seq<i32>, turn: int, k: int)
    requires
        0 <= k <= 225,
    ensures
        legal_prefix(board, turn, k).len() <= k,
        forall|j: int|
            0 <= j < legal_prefix(board, turn, k).len() ==> {
                let m = #[trigger] legal_prefix(board, turn, k)[j];
                &&& spec_in_bounds(m.0 as int, m.1 as int)
                &&& spec_cell_legal(board, turn, m.0 as int, m.1 as int)
            },
    decreases k,
{
    if k > 0 {
        lemma_legal_prefix_elements(board, turn, k - 1);
        vstd::arithmetic::div_mod::lemma_mod_bound(k - 1, 15);
        vstd::arithmetic::div_mod::lemma_div_pos_is_pos(k - 1, 15);
        vstd::arithmetic::div_mod::lemma_div_is_ordered(k - 1, 224, 15);
    }
}

/// A longer prefix holds at least as many legal cells.
pub proof fn lemma_legal_prefix_monotone(board: Seq<i32>, turn: int, k1: int, k2: int)
    requires
        0 <= k1 <= k2,
    ensures
        legal_prefix(board, turn, k1).len() <= legal_prefix(board, turn, k2).len(),
    decreases k2 - k1,
{
    if k1 < k2 {
        lemma_legal_prefix_monotone(board, turn, k1, k2 - 1);
    }
}

/// If some on-board cell is legal, the legal-move sequence is non-empty.
pub proof fn lemma_legal_moves_nonempty(board: Seq<i32>, turn: int, x: int, y: int)
    requires
        spec_in_bounds(x, y),
        spec_cell_legal(board, turn, x, y),
    ensures
        spec_legal_moves(board, turn).len() > 0,
{
    let k = cell_index(x, y);
    assert(0 <= k < 225);
    assert((k + 1 - 1) % 15 == x && (k + 1 - 1) / 15 == y) by {
        vstd::arithmetic::div_mod::lemma_fundamental_div_mod_converse(k, 15, y, x);
    }
    assert(legal_prefix(board, turn, k + 1).len() > 0);
    lemma_legal_prefix_monotone(board, turn, k + 1, 225);
}

/// How many cells remain on the ray from `(x, y)` in direction `(dx, dy)`
/// before it leaves the board; an upper bound on any run counted from there.
pub open spec fn ray_measure(x: int, y: int, dx: int, dy: int) -> int {
    if dx == 1 {
        15 - x
    } else if dx == -1 {
        x + 1
    } else if dy == 1 {
        15 - y
    } else {
        y + 1
    }
}

/// The number of consecutive stones of the mover's parity on `board`,
/// walking from `(x, y)` in direction `(dx, dy)` until an edge, an empty
/// cell or an opposing stone.  `turn` gives the mover's parity.
pub open spec fn spec_ray(board: Seq<i32>, turn: int, x: int, y: int, dx: int, dy: int) -> int
    decreases ray_measure(x, y, dx, dy)
        when -1 <= dx <= 1 && -1 <= dy <= 1 && !(dx == 0 && dy == 0)
{
    if !spec_in_bounds(x, y) {
        0
    } else if board[cell_index(x, y)] == 0 {
        0
    } else if spec_same_parity(board[cell_index(x, y)] as int, turn) {
        1 + spec_ray(board, turn, x + dx, y + dy, dx, dy)
    } else {
        0
    }
}

/// Whether the stone just placed at `(x, y)` completes five in a row for
/// the side whose parity is `turn`, in any of the four directions.  Each
/// direction pair counts the new stone twice, hence the threshold 5.
pub open spec fn spec_wins(board: Seq<i32>, turn: int, x: int, y: int) -> bool {
    ||| spec_ray(board, turn, x, y, 0, 1) + spec_ray(board, turn, x, y, 0, -1) > 5
    ||| spec_ray(board, turn, x, y, 1, 0) + spec_ray(board, turn, x, y, -1, 0) > 5
    ||| spec_ray(board, turn, x, y, 1, 1) + spec_ray(board, turn, x, y, -1, -1) > 5
    ||| spec_ray(board, turn, x, y, -1, 1) + spec_ray(board, turn, x, y, 1, -1) > 5
}

impl Game {
    /// Representation invariant: the board has one value per cell, every
    /// value is a plausible turn number, and the turn counter is in range.
    pub open spec fn wf(&self) -> bool {
        &&& self.board@.len() == 225
        &&& 1 <= self.turn <= 225
        &&& forall|i: int| 0 <= i < 225 ==> 0 <= #[trigger] self.board@[i] <= 225
    }

    /// The stone at `(x, y)`: 0 when empty.
    pub open spec fn spec_piece(&self, x: int, y: int) -> int {
        self.board@[cell_index(x, y)] as int
    }

    /// Whether the side to move may play at `(x, y)`: the cell is empty and,
    /// on the third turn only, lies outside the central 7x7 opening zone.
    pub open spec fn spec_can_move(&self, x: int, y: int) -> bool {
        spec_cell_legal(self.board@, self.turn as int, x, y)
    }

    /// Start position: an empty board at turn 1.
    pub fn new() -> (g: Game)
        ensures
            g.wf(),
            g.turn == 1,
            g.consistent(),
            forall|i: int| 0 <= i < 225 ==> #[trigger] g.board@[i] == 0,
    {
        let mut board: Vec<i32> = Vec::new();
        let mut i: usize = 0;
        while i < 225
            invariant
                i <= 225,
                board@.len() == i,
                forall|j: int| 0 <= j < i ==> #[trigger] board@[j] == 0,
            decreases 225 - i,
        {
            board.push(0);
            i = i + 1;
        }
        proof {
            lemma_count_all_empty(board@, 225);
        }
        Game { turn: 1, board }
    }

    /// An independent copy of the position.
    pub fn duplicate(&self) -> (g: Game)
        ensures
            g.turn == self.turn,
            g.board@ == self.board@,
    {
        let mut board: Vec<i32> = Vec::new();
        let mut i: usize = 0;
        while i < self.board.len()
            invariant
                i <= self.board@.len(),
                board@.len() == i,
                forall|j: int| 0 <= j < i ==> #[trigger] board@[j] == self.board@[j],
            decreases self.board@.len() - i,
        {
            board.push(self.board[i]);
            i = i + 1;
        }
        proof {
            assert(board@ =~= self.board@);
        }
        Game { turn: self.turn, board }
    }

    /// The stone at `(x, y)`: 0 when empty, else the turn that filled it.
    pub fn piece(&self, x: i32, y: i32) -> (p: i32)
        requires
            self.wf(),
            spec_in_bounds(x as int, y as int),
        ensures
            p == self.spec_piece(x as int, y as int),
    {
        self.board[(x + y * SIZE) as usize]
    }

    /// A position reachable by play: the number of stones on the board
    /// matches the turn counter.  `Win` and `Tie` moves end the game without
    /// advancing the turn, so a position reached through one of them is no
    /// longer consistent.
    pub open spec fn consistent(&self) -> bool {
        count_occupied(self.board@) == self.turn - 1
    }

    /// The board after the mover places a stone at `(x, y)`.
    pub open spec fn board_after(&self, x: int, y: int) -> Seq<i32> {
        self.board@.update(cell_index(x, y), self.turn)
    }

    /// Whether the side to move may play at `(x, y)`.
    pub fn can_move(&self, x: i32, y: i32) -> (b: bool)
        requires
            self.wf(),
            spec_in_bounds(x as int, y as int),
        ensures
            b == self.spec_can_move(x as int, y as int),
    {
        let center = SIZE / 2;
        if self.turn == 3 && x >= center - 3 && x <= center + 3 && y >= center - 3 && y <= center + 3 {
            return false;
        }
        self.piece(x, y) == 0
    }

    /// Play at `(x, y)` and classify the outcome.  An illegal move returns
    /// `Fail` and changes nothing.  A legal move places the stone; it is a
    /// `Win` if it completes five in a row, otherwise a `Tie` if it fills
    /// the last cell, and otherwise `Normal`, which advances the turn.
    pub fn make_move(&mut self, x: i32, y: i32) -> (m: Move)
        requires
            old(self).wf(),
            spec_in_bounds(x as int, y as int),
        ensures
            final(self).wf(),
            !old(self).spec_can_move(x as int, y as int) ==> m is Fail && *final(self)
                == *old(self),
            old(self).spec_can_move(x as int, y as int) ==> {
                &&& final(self).board@ == old(self).board_after(x as int, y as int)
                &&& (m is Win <==> spec_wins(
                    final(self).board@,
                    old(self).turn as int,
                    x as int,
                    y as int,
                ))
                &&& (m is Tie <==> !(m is Win) && old(self).turn == 225)
                &&& (m is Normal <==> !(m is Win) && old(self).turn != 225)
                &&& !(m is Fail)
                &&& (m is Normal ==> final(self).turn == old(self).turn + 1)
                &&& (!(m is Normal) ==> final(self).turn == old(self).turn)
            },
            old(self).consistent() && m is Normal ==> final(self).consistent(),
    {
        if !self.can_move(x, y) {
            return Move::Fail;
        }
        let i = (x + y * SIZE) as usize;
        proof {
            lemma_count_fill(self.board@, i as int, self.turn, 225);
        }
        self.board[i] = self.turn;
        if self.check_victory(x, y) {
            return Move::Win;
        }
        if self.check_tie() {
            return Move::Tie;
        }
        self.turn = self.turn + 1;
        Move::Normal
    }

    /// Whether the move now being made is the last the board has room for.
    fn check_tie(&self) -> (b: bool)
        ensures
            b == (self.turn == 225),
    {
        self.turn == SIZE * SIZE
    }

    /// Whether the stone just placed at `(x, y)` completed five in a row.
    fn check_victory(&self, x: i32, y: i32) -> (b: bool)
        requires
            self.wf(),
            spec_in_bounds(x as int, y as int),
        ensures
            b == spec_wins(self.board@, self.turn as int, x as int, y as int),
    {
        self.count_ray(x, y, 0, 1) + self.count_ray(x, y, 0, -1) > 5
            || self.count_ray(x, y, 1, 0) + self.count_ray(x, y, -1, 0) > 5
            || self.count_ray(x, y, 1, 1) + self.count_ray(x, y, -1, -1) > 5
            || self.count_ray(x, y, -1, 1) + self.count_ray(x, y, 1, -1) > 5
    }

    /// Count the run of stones of the mover's parity along one ray.
    fn count_ray(&self, x: i32, y: i32, dx: i32, dy: i32) -> (n: i32)
        requires
            self.wf(),
            -1 <= dx <= 1,
            -1 <= dy <= 1,
            !(dx == 0 && dy == 0),
            -1 <= x <= 15,
            -1 <= y <= 15,
        ensures
            n == spec_ray(self.board@, self.turn as int, x as int, y as int, dx as int, dy as int),
            0 <= n <= ray_measure(x as int, y as int, dx as int, dy as int),
        decreases ray_measure(x as int, y as int, dx as int, dy as int),
    {
        if !in_bounds(x, y) {
            return 0;
        }
        let v = self.board[(x + y * SIZE) as usize];
        if v == 0 {
            0
        } else if same_parity(v, self.turn) {
            1 + self.count_ray(x + dx, y + dy, dx, dy)
        } else {
            0
        }
    }
}

/// The number of occupied cells among the first `n` entries of `board`.
pub open spec fn count_occupied_prefix(board: Seq<i32>, n: int) -> int
    decreases n,
{
    if n <= 0 {
        0
    } else {
        count_occupied_prefix(board, n - 1) + if board[n - 1] == 0 {
            0int
        } else {
            1int
        }
    }
}

/// The number of occupied cells on the whole board.
pub open spec fn count_occupied(board: Seq<i32>) -> int {
    count_occupied_prefix(board, 225)
}

/// The prefix count never exceeds the prefix length.
pub proof fn lemma_count_prefix_bounds(board: Seq<i32>, n: int)
    requires
        0 <= n,
    ensures
        0 <= count_occupied_prefix(board, n) <= n,
    decreases n,
{
    if n > 0 {
        lemma_count_prefix_bounds(board, n - 1);
    }
}

/// The prefix count grows with the prefix.
pub proof fn lemma_count_prefix_monotone(board: Seq<i32>, m: int, n: int)
    requires
        0 <= m <= n,
    ensures
        count_occupied_prefix(board, m) <= count_occupied_prefix(board, n),
    decreases n - m,
{
    if m < n {
        lemma_count_prefix_monotone(board, m, n - 1);
        lemma_count_prefix_bounds(board, 1);
    }
}

/// Filling one empty cell raises the occupied count by exactly one.
pub proof fn lemma_count_fill(board: Seq<i32>, i: int, v: i32, n: int)
    requires
        0 <= i < board.len(),
        board[i] == 0,
        v != 0,
        0 <= n <= board.len(),
    ensures
        count_occupied_prefix(board.update(i, v), n) == count_occupied_prefix(board, n) + if i < n {
            1int
        } else {
            0int
        },
    decreases n,
{
    if n > 0 {
        lemma_count_fill(board, i, v, n - 1);
    }
}

/// A board with fewer than 225 occupied cells has an empty cell.
pub proof fn lemma_exists_empty(board: Seq<i32>, n: int)
    requires
        0 <= n <= board.len(),
        count_occupied_prefix(board, n) < n,
    ensures
        exists|i: int| 0 <= i < n && board[i] == 0,
    decreases n,
{
    if n > 0 {
        if board[n - 1] == 0 {
            assert(board[n - 1] == 0);
        } else {
            lemma_count_prefix_bounds(board, n - 1);
            lemma_exists_empty(board, n - 1);
        }
    }
}

/// If the first three cells are all occupied, at least three cells are.
pub proof fn lemma_first_three_occupied(board: Seq<i32>)
    requires
        board.len() == 225,
        board[0] != 0,
        board[1] != 0,
        board[2] != 0,
    ensures
        count_occupied(board) >= 3,
{
    assert(count_occupied_prefix(board, 3) == 3) by {
        reveal_with_fuel(count_occupied_prefix, 4);
    }
    lemma_count_prefix_monotone(board, 3, 225);
}

/// A prefix of empty cells counts zero occupied cells.
pub proof fn lemma_count_all_empty(board: Seq<i32>, n: int)
    requires
        forall|i: int| 0 <= i < n ==> #[trigger] board[i] == 0,
    ensures
        count_occupied_prefix(board, n) == 0,
    decreases n,
{
    if n > 0 {
        lemma_count_all_empty(board, n - 1);
    }
}

/// Any consistent position still has a legal move: fewer than 225 stones
/// leave an empty cell, and on the third turn only two stones are down, so
/// one of the three corner-row cells, all outside the opening zone, is free.
pub proof fn lemma_exists_legal(g: Game)
    requires
        g.wf(),
        g.consistent(),
    ensures
        exists|x: int, y: int|
            spec_in_bounds(x, y) && #[trigger] g.spec_can_move(x, y),
{
    if g.turn == 3 {
        if g.board@[0] != 0 && g.board@[1] != 0 && g.board@[2] != 0 {
            lemma_first_three_occupied(g.board@);
        }
        assert(g.board@[0] == 0 || g.board@[1] == 0 || g.board@[2] == 0);
        if g.board@[0] == 0 {
            assert(spec_in_bounds(0, 0) && g.spec_can_move(0, 0));
        } else if g.board@[1] == 0 {
            assert(spec_in_bounds(1, 0) && g.spec_can_move(1, 0));
        } else {
            assert(spec_in_bounds(2, 0) && g.spec_can_move(2, 0));
        }
    } else {
        lemma_exists_empty(g.board@, 225);
        let i = choose|i: int| 0 <= i < 225 && g.board@[i] == 0;
        let x = i % 15;
        let y = i / 15;
        vstd::arithmetic::div_mod::lemma_fundamental_div_mod(i, 15);
        vstd::arithmetic::div_mod::lemma_mod_bound(i, 15);
        vstd::arithmetic::div_mod::lemma_div_pos_is_pos(i, 15);
        vstd::arithmetic::div_mod::lemma_div_is_ordered(i, 224, 15);
        assert(cell_index(x, y) == i);
        assert(spec_in_bounds(x, y) && g.spec_can_move(x, y));
    }
}

/// Whether `(x, y)` lies on the board.
pub fn in_bounds(x: i32, y: i32) -> (b: bool)
    ensures
        b == spec_in_bounds(x as int, y as int),
{
    x >= 0 && y >= 0 && x < SIZE && y < SIZE
}

/// Whether two stone values belong to the same side.
pub fn same_parity(a: i32, b: i32) -> (r: bool)
    requires
        0 <= a <= 225,
        0 <= b <= 225,
    ensures
        r == spec_same_parity(a as int, b as int),
{
    (a + b) % 2 == 0
}

} // verus!
