//! One player's board: placed tokens, the cursor with its row-advance timer,
//! and the hand; turning buttons into actions, and the action handlers.
use vstd::prelude::*;
use crate::catalog::{ObjType, ObjInfo, merge_count};
use crate::grid::{
    BOARD_CELLS, BOARD_HEIGHT, BOARD_WIDTH, Grid, Position, Token, at, count_in, in_board,
    last_row_clear, lemma_bottom_run_of_three, lemma_fill_count, lemma_shift_count, lowest_row,
    placed_upto, run_top_from, shifted_cell, token_count,
};
use crate::cluster::{cluster_size, in_cluster, is_merge_target, merged_cell, merges};
use crate::spawn::{SpawnTable, drawable};

verus! {

/// Time, in milliseconds, within which a second down-press brings a new row.
pub const TIMER_DURATION_MS: u64 = 1000;

/// The row-advance timer of a cursor.
#[derive(Debug, Clone, Copy, PartialEq, Eq, Structural)]
pub enum InputTimer {
    /// Not counting.
    Disarmed,
    /// Counting, with the time elapsed since it was armed (clamped at the
    /// duration).
    Armed { elapsed: u64 },
}

/// The timer after a down-press, and whether the press brings a new row.
pub open spec fn press_spec(t: InputTimer) -> (InputTimer, bool) {
    match t {
        InputTimer::Disarmed => (InputTimer::Armed { elapsed: 0 }, false),
        InputTimer::Armed { elapsed } => if elapsed < TIMER_DURATION_MS {
            (InputTimer::Disarmed, true)
        } else {
            (InputTimer::Armed { elapsed: 0 }, false)
        },
    }
}

/// The timer after `delta` milliseconds.
pub open spec fn tick_spec(t: InputTimer, delta: int) -> InputTimer {
    match t {
        InputTimer::Disarmed => InputTimer::Disarmed,
        InputTimer::Armed { elapsed } => InputTimer::Armed {
            elapsed: if elapsed + delta >= TIMER_DURATION_MS {
                TIMER_DURATION_MS
            } else {
                (elapsed + delta) as u64
            },
        },
    }
}

impl InputTimer {
    pub open spec fn wf(self) -> bool {
        self matches InputTimer::Armed { elapsed } ==> elapsed <= TIMER_DURATION_MS
    }

    /// Whether the timer is armed and has reached its duration.
    pub fn finished(&self) -> (r: bool)
        ensures
            r == (*self matches InputTimer::Armed { elapsed } && elapsed >= TIMER_DURATION_MS),
    {
        match self {
            InputTimer::Disarmed => false,
            InputTimer::Armed { elapsed } => *elapsed >= TIMER_DURATION_MS,
        }
    }

    /// Lets `delta` milliseconds pass.
    pub fn tick(&mut self, delta: u64)
        requires
            old(self).wf(),
        ensures
            *final(self) == tick_spec(*old(self), delta as int),
            final(self).wf(),
    {
        match *self {
            InputTimer::Disarmed => {},
            InputTimer::Armed { elapsed } => {
                let e = if delta >= TIMER_DURATION_MS - elapsed {
                    TIMER_DURATION_MS
                } else {
                    elapsed + delta
                };
                *self = InputTimer::Armed { elapsed: e };
            },
        }
    }

    /// A down-press: arms a disarmed or finished timer, and disarms a running
    /// one, which brings a new row. Returns whether it does.
    pub fn press(&mut self) -> (r: bool)
        requires
            old(self).wf(),
        ensures
            (*final(self), r) == press_spec(*old(self)),
            final(self).wf(),
    {
        match *self {
            InputTimer::Armed { elapsed } => {
                if elapsed < TIMER_DURATION_MS {
                    *self = InputTimer::Disarmed;
                    return true;
                }
            },
            InputTimer::Disarmed => {},
        }
        *self = InputTimer::Armed { elapsed: 0 };
        false
    }
}

/// The cursor of a player: its column and its row-advance timer.
#[derive(Debug, Clone, Copy, PartialEq, Eq, Structural)]
pub struct CoinGirl {
    pub col: usize,
    pub timer: InputTimer,
}

/// The hand: `obj_count` tokens of kind `obj_type`; empty when the count is 0.
#[derive(Debug, Clone, Copy, PartialEq, Eq, Structural)]
pub struct Inventory {
    pub obj_count: usize,
    pub obj_type: ObjType,
}

/// The buttons pressed by one player in one tick.
#[derive(Debug, Clone, Copy, PartialEq, Eq, Structural, Default)]
pub struct PlayerInput {
    pub left: bool,
    pub right: bool,
    pub down: bool,
    pub pull: bool,
    pub push: bool,
}

/// An action for the handlers.
#[derive(Debug, Clone, Copy, PartialEq, Eq, Structural)]
pub enum ActionType {
    CoinPull,
    CoinPush,
    NewRow,
}

/// The cursor column after the moves of `input`: left first, then right,
/// each kept on the board.
pub open spec fn moved_col(col: int, input: PlayerInput) -> int {
    let c1 = if input.left && col > 0 {
        col - 1
    } else {
        col
    };
    if input.right && c1 < BOARD_WIDTH - 1 {
        c1 + 1
    } else {
        c1
    }
}

/// The actions a tick emits, in order.
pub open spec fn emitted(new_row: bool, input: PlayerInput) -> Seq<ActionType> {
    (if new_row {
        seq![ActionType::NewRow]
    } else {
        seq![]
    }) + (if input.pull {
        seq![ActionType::CoinPull]
    } else {
        seq![]
    }) + (if input.push {
        seq![ActionType::CoinPush]
    } else {
        seq![]
    })
}

/// `b1` is `b0` after the buttons of `input` were turned into the actions `acts`.
pub open spec fn input_applied(b0: Board, input: PlayerInput, b1: Board, acts: Seq<ActionType>) -> bool {
    &&& b1.grid == b0.grid
    &&& b1.inventory == b0.inventory
    &&& b1.girl.col == moved_col(b0.girl.col as int, input)
    &&& input.down ==> b1.girl.timer == press_spec(b0.girl.timer).0 && acts == emitted(
        press_spec(b0.girl.timer).1,
        input,
    )
    &&& !input.down ==> b1.girl.timer == b0.girl.timer && acts == emitted(false, input)
}

/// One player's board.
#[derive(Debug, Clone, PartialEq, Eq)]
pub struct Board {
    pub grid: Grid,
    pub girl: CoinGirl,
    pub inventory: Inventory,
}

/// The held tokens: the hand, shown in the cursor column from the last row
/// upward.
pub open spec fn held_tokens(b: Board) -> Seq<Token> {
    Seq::new(
        b.inventory.obj_count as nat,
        |j: int|
            Token {
                pos: Position { col: b.girl.col, row: (BOARD_HEIGHT - 1 - j) as usize },
                kind: b.inventory.obj_type,
                held: true,
            },
    )
}

/// Two boards with equal cells, cursor and hand.
pub open spec fn same(a: Board, b: Board) -> bool {
    &&& a.grid@ == b.grid@
    &&& a.girl == b.girl
    &&& a.inventory == b.inventory
}

/// The effect of a pull: with an empty hand and a non-empty cursor column,
/// the bottom run of that column moves into the hand; otherwise nothing.
pub open spec fn pulled(b0: Board, b1: Board) -> bool {
    let g = b0.grid@;
    let c = b0.girl.col as int;
    if b0.inventory.obj_count != 0 || lowest_row(g, c) == -1 {
        same(b0, b1)
    } else {
        let k = at(g, c, lowest_row(g, c))->0;
        let t = run_top_from(g, c, k, BOARD_HEIGHT as int);
        &&& b1.girl == b0.girl
        &&& b1.inventory == Inventory {
            obj_count: count_in(g, c, t, BOARD_HEIGHT as int) as usize,
            obj_type: k,
        }
        &&& b1.grid@.len() == BOARD_CELLS
        &&& forall|c2: int, r2: int|
            in_board(c2, r2) ==> #[trigger] at(b1.grid@, c2, r2) == if c2 == c && r2 >= t {
                None
            } else {
                at(g, c2, r2)
            }
    }
}

/// `g1` is `g0` after a merge request at `seed`.
pub open spec fn merge_result(g0: Seq<Option<ObjType>>, seed: (int, int), g1: Seq<Option<ObjType>>) -> bool {
    &&& g1.len() == BOARD_CELLS
    &&& !merges(g0, seed) ==> g1 == g0
    &&& merges(g0, seed) ==> exists|t: (int, int)|
        {
            &&& is_merge_target(g0, seed, t)
            &&& forall|c: int, r: int|
                in_board(c, r) ==> #[trigger] at(g1, c, r) == merged_cell(g0, seed, t, c, r)
        }
}

/// The effect of a push before the merge: a non-empty hand that fits drops
/// into the cursor column right after its lowest token, the hand empties, and
/// `seed` is the cell of the last token dropped; otherwise nothing.
pub open spec fn dropped(b0: Board, b1: Board, seed: Option<Position>) -> bool {
    let g = b0.grid@;
    let c = b0.girl.col as int;
    let n = b0.inventory.obj_count as int;
    let lo = lowest_row(g, c) + 1;
    if n == 0 || lo + n > BOARD_HEIGHT {
        same(b0, b1) && seed is None
    } else {
        &&& seed == Some(Position { col: c as usize, row: (lo + n - 1) as usize })
        &&& b1.girl == b0.girl
        &&& b1.inventory == Inventory { obj_count: 0, ..b0.inventory }
        &&& b1.grid@.len() == BOARD_CELLS
        &&& forall|c2: int, r2: int|
            in_board(c2, r2) ==> #[trigger] at(b1.grid@, c2, r2) == if c2 == c && lo <= r2 < lo
                + n {
                Some(b0.inventory.obj_type)
            } else {
                at(g, c2, r2)
            }
    }
}

/// The effect of a push: the drop, then the merge request it makes.
pub open spec fn pushed(b0: Board, b2: Board) -> bool {
    exists|b1: Board, seed: Option<Position>|
        {
            &&& #[trigger] dropped(b0, b1, seed)
            &&& seed is None ==> same(b1, b2)
            &&& seed matches Some(p) ==> {
                &&& b2.girl == b1.girl
                &&& b2.inventory == b1.inventory
                &&& merge_result(b1.grid@, p.pair(), b2.grid@)
            }
        }
}

/// The effect of a new row: when the last row is clear, every token moves
/// one row on and `row` comes in at row 0; otherwise nothing.
pub open spec fn row_added(b0: Board, row: Seq<ObjType>, b1: Board) -> bool {
    &&& b1.girl == b0.girl
    &&& b1.inventory == b0.inventory
    &&& b1.grid@.len() == BOARD_CELLS
    &&& !last_row_clear(b0.grid@) ==> b1.grid@ == b0.grid@
    &&& last_row_clear(b0.grid@) ==> forall|c: int, r: int|
        in_board(c, r) ==> #[trigger] at(b1.grid@, c, r) == shifted_cell(b0.grid@, row, c, r)
}

/// A row that a table can bring: one drawable kind per column.
pub open spec fn drawn_row(infos: Seq<ObjInfo>, row: Seq<ObjType>) -> bool {
    &&& row.len() == BOARD_WIDTH
    &&& forall|i: int| 0 <= i < row.len() ==> drawable(infos, #[trigger] row[i])
}

/// The effect of action `a`, new rows drawn from `infos`.
pub open spec fn step(b0: Board, a: ActionType, infos: Seq<ObjInfo>, b1: Board) -> bool {
    match a {
        ActionType::CoinPull => pulled(b0, b1),
        ActionType::CoinPush => pushed(b0, b1),
        ActionType::NewRow => exists|row: Seq<ObjType>|
            drawn_row(infos, row) && #[trigger] row_added(b0, row, b1),
    }
}

/// `b1` is `b0` after the actions `acts`, each new row drawn from `infos`.
pub open spec fn ran(b0: Board, acts: Seq<ActionType>, infos: Seq<ObjInfo>, b1: Board) -> bool
    decreases acts.len(),
{
    if acts.len() == 0 {
        same(b0, b1)
    } else {
        exists|mid: Board|
            ran(b0, acts.drop_last(), infos, mid) && #[trigger] step(mid, acts.last(), infos, b1)
    }
}

/// Pulling from a column whose tokens end, from the lowest one upward, in
/// `[a, a, a, b]` with `b` another kind takes exactly the three `a` tokens
/// into the hand; the `b` token and everything above it stay as they were.
pub proof fn lemma_pull_contiguity(b0: Board, b1: Board, r: int, a: ObjType, b: ObjType)
    requires
        b0.wf(),
        b0.inventory.obj_count == 0,
        3 <= r < BOARD_HEIGHT,
        a != b,
        at(b0.grid@, b0.girl.col as int, r) == Some(a),
        at(b0.grid@, b0.girl.col as int, r - 1) == Some(a),
        at(b0.grid@, b0.girl.col as int, r - 2) == Some(a),
        at(b0.grid@, b0.girl.col as int, r - 3) == Some(b),
        forall|r2: int| r < r2 < BOARD_HEIGHT ==> #[trigger] at(b0.grid@, b0.girl.col as int, r2) is None,
        pulled(b0, b1),
    ensures
        b1.inventory == (Inventory { obj_count: 3, obj_type: a }),
        b1.girl == b0.girl,
        at(b1.grid@, b0.girl.col as int, r - 3) == Some(b),
        forall|c: int, r2: int|
            in_board(c, r2) && (c != b0.girl.col || r2 <= r - 3) ==> #[trigger] at(b1.grid@, c, r2)
                == at(b0.grid@, c, r2),
        forall|r2: int| r - 3 < r2 < BOARD_HEIGHT ==> #[trigger] at(b1.grid@, b0.girl.col as int, r2) is None,
{
    lemma_bottom_run_of_three(b0.grid@, b0.girl.col as int, r, a, b);
}

/// Pushing a hand of `n` tokens of kind `k` onto a column whose lowest token
/// is at row `r` (or onto an empty column, `r == -1`) puts them at rows
/// `r + 1` to `r + n`, with no gap, empties the hand, and asks for a merge at
/// row `r + n`; when they do not fit, nothing changes. Either way no token is
/// created or lost: the placed tokens and the hand add up as before.
pub proof fn lemma_push_placement(b0: Board, b1: Board, seed: Option<Position>)
    requires
        b0.wf(),
        b0.inventory.obj_count > 0,
        dropped(b0, b1, seed),
    ensures
        ({
            let c = b0.girl.col as int;
            let r = lowest_row(b0.grid@, c);
            let n = b0.inventory.obj_count as int;
            &&& r + n < BOARD_HEIGHT ==> {
                &&& forall|j: int| 1 <= j <= n ==> #[trigger] at(b1.grid@, c, r + j) == Some(
                    b0.inventory.obj_type,
                )
                &&& b1.inventory.obj_count == 0
                &&& seed == Some(Position { col: c as usize, row: (r + n) as usize })
                &&& forall|c2: int, r2: int|
                    in_board(c2, r2) && !(c2 == c && r < r2 <= r + n) ==> #[trigger] at(
                        b1.grid@,
                        c2,
                        r2,
                    ) == at(b0.grid@, c2, r2)
            }
            &&& r + n >= BOARD_HEIGHT ==> same(b0, b1) && seed is None
            &&& token_count(b1.grid@) + b1.inventory.obj_count == token_count(b0.grid@)
                + b0.inventory.obj_count
        }),
{
    let c = b0.girl.col as int;
    let r = lowest_row(b0.grid@, c);
    let n = b0.inventory.obj_count as int;
    crate::grid::lemma_lowest_below_bound(b0.grid@, c, BOARD_HEIGHT as int);
    if r + n < BOARD_HEIGHT {
        assert forall|j: int| 1 <= j <= n implies #[trigger] at(b1.grid@, c, r + j) == Some(b0.inventory.obj_type) by {
            assert(in_board(c, r + j));
        }
        assert forall|r2: int| r + 1 <= r2 < r + 1 + n implies #[trigger] at(b0.grid@, c, r2) is None && at(b1.grid@, c, r2) is Some by {
            assert(in_board(c, r2));
        }
        lemma_fill_count(b0.grid@, b1.grid@, c, r + 1, r + 1 + n);
    }
}

/// A merge request on a `One` token: a cluster of at least five `One` tokens
/// (five is its threshold) turns into one `Five` token at the cluster's
/// highest-ranked cell; a smaller cluster, four tokens say, changes nothing.
pub proof fn lemma_merge_threshold(g0: Seq<Option<ObjType>>, seed: (int, int), g1: Seq<Option<ObjType>>)
    requires
        in_board(seed.0, seed.1),
        at(g0, seed.0, seed.1) == Some(ObjType::One),
        merge_result(g0, seed, g1),
    ensures
        cluster_size(g0, seed) >= 5 ==> exists|t: (int, int)|
            {
                &&& is_merge_target(g0, seed, t)
                &&& #[trigger] at(g1, t.0, t.1) == Some(ObjType::Five)
                &&& forall|c: int, r: int|
                    in_board(c, r) && in_cluster(g0, seed, c, r) && (c, r) != t ==> #[trigger] at(
                        g1,
                        c,
                        r,
                    ) is None
                &&& forall|c: int, r: int|
                    in_board(c, r) && !in_cluster(g0, seed, c, r) ==> #[trigger] at(g1, c, r) == at(
                        g0,
                        c,
                        r,
                    )
            },
        cluster_size(g0, seed) < 5 ==> g1 == g0,
{
    assert(merge_count(ObjType::One) == 5);
    if cluster_size(g0, seed) >= 5 {
        let t = choose|t: (int, int)|
            {
                &&& is_merge_target(g0, seed, t)
                &&& forall|c: int, r: int|
                    in_board(c, r) ==> #[trigger] at(g1, c, r) == merged_cell(g0, seed, t, c, r)
            };
        assert(at(g1, t.0, t.1) == merged_cell(g0, seed, t, t.0, t.1));
        assert(is_merge_target(g0, seed, t) && at(g1, t.0, t.1) == Some(ObjType::Five));
    }
}

/// Merging a cluster of `FiveHundred` tokens, the top of the ladder, removes
/// it and puts nothing in its place.
pub proof fn lemma_ladder_terminal(g0: Seq<Option<ObjType>>, seed: (int, int), g1: Seq<Option<ObjType>>)
    requires
        in_board(seed.0, seed.1),
        at(g0, seed.0, seed.1) == Some(ObjType::FiveHundred),
        merges(g0, seed),
        merge_result(g0, seed, g1),
    ensures
        forall|c: int, r: int|
            in_board(c, r) ==> #[trigger] at(g1, c, r) == if in_cluster(g0, seed, c, r) {
                None
            } else {
                at(g0, c, r)
            },
{
    let t = choose|t: (int, int)|
        {
            &&& is_merge_target(g0, seed, t)
            &&& forall|c: int, r: int|
                in_board(c, r) ==> #[trigger] at(g1, c, r) == merged_cell(g0, seed, t, c, r)
        };
    assert forall|c: int, r: int| in_board(c, r) implies #[trigger] at(g1, c, r) == if in_cluster(g0, seed, c, r) {
        None
    } else {
        at(g0, c, r)
    } by {
        assert(at(g1, c, r) == merged_cell(g0, seed, t, c, r));
    }
}

/// A new row on a board whose last row is clear moves every token exactly
/// one row on and fills row 0 with one new token per column: the board gains
/// exactly `BOARD_WIDTH` tokens, and the hand is untouched.
pub proof fn lemma_new_row_gravity(b0: Board, row: Seq<ObjType>, b1: Board)
    requires
        row.len() == BOARD_WIDTH,
        last_row_clear(b0.grid@),
        row_added(b0, row, b1),
    ensures
        forall|c: int, r: int|
            in_board(c, r) && r + 1 < BOARD_HEIGHT ==> #[trigger] at(b1.grid@, c, r + 1) == at(
                b0.grid@,
                c,
                r,
            ),
        forall|c: int| 0 <= c < BOARD_WIDTH ==> #[trigger] at(b1.grid@, c, 0) == Some(row[c]),
        token_count(b1.grid@) == token_count(b0.grid@) + BOARD_WIDTH,
        b1.inventory == b0.inventory,
{
    lemma_shift_count(b0.grid@, b1.grid@, row);
    assert forall|c: int, r: int| in_board(c, r) && r + 1 < BOARD_HEIGHT implies #[trigger] at(b1.grid@, c, r + 1) == at(b0.grid@, c, r) by {
        assert(in_board(c, r + 1));
    }
    assert forall|c: int| 0 <= c < BOARD_WIDTH implies #[trigger] at(b1.grid@, c, 0) == Some(row[c]) by {
        assert(in_board(c, 0));
    }
}

/// The row-advance rhythm: a down-press on a disarmed timer arms it and
/// brings no new row; after `delta` milliseconds a second press brings one
/// new row and disarms when `delta` is under the duration, and otherwise only
/// arms the timer again.
pub proof fn lemma_timer_rhythm(delta: u64)
    ensures
        press_spec(InputTimer::Disarmed) == (InputTimer::Armed { elapsed: 0 }, false),
        delta < TIMER_DURATION_MS ==> press_spec(tick_spec(press_spec(InputTimer::Disarmed).0, delta as int)) == (
            InputTimer::Disarmed,
            true,
        ),
        delta >= TIMER_DURATION_MS ==> press_spec(tick_spec(press_spec(InputTimer::Disarmed).0, delta as int))
            == (InputTimer::Armed { elapsed: 0 }, false),
{
}

impl Board {
    pub open spec fn wf(&self) -> bool {
        &&& self.grid.wf()
        &&& self.girl.col < BOARD_WIDTH
        &&& self.girl.timer.wf()
        &&& self.inventory.obj_count <= BOARD_HEIGHT
    }

    /// An empty board, the cursor in the middle column with its timer
    /// disarmed, and an empty hand.
    pub fn new() -> (r: Board)
        ensures
            r.wf(),
            forall|c: int, rr: int| in_board(c, rr) ==> #[trigger] at(r.grid@, c, rr) is None,
            forall|i: int| 0 <= i < BOARD_CELLS ==> #[trigger] r.grid@[i] is None,
            r.girl == (CoinGirl { col: 3, timer: InputTimer::Disarmed }),
            r.inventory == (Inventory { obj_count: 0, obj_type: ObjType::One }),
    {
        Board {
            grid: Grid::new(),
            girl: CoinGirl { col: BOARD_WIDTH / 2, timer: InputTimer::Disarmed },
            inventory: Inventory { obj_count: 0, obj_type: ObjType::One },
        }
    }

    /// Moves the cursor one column left, unless it is at column 0. Held
    /// tokens follow the cursor.
    pub fn move_left(&mut self)
        requires
            old(self).wf(),
        ensures
            final(self).wf(),
            final(self).grid == old(self).grid,
            final(self).inventory == old(self).inventory,
            final(self).girl.timer == old(self).girl.timer,
            final(self).girl.col == if old(self).girl.col > 0 {
                (old(self).girl.col - 1) as usize
            } else {
                old(self).girl.col
            },
    {
        if self.girl.col > 0 {
            self.girl.col = self.girl.col - 1;
        }
    }

    /// Moves the cursor one column right, unless it is at the last column.
    /// Held tokens follow the cursor.
    pub fn move_right(&mut self)
        requires
            old(self).wf(),
        ensures
            final(self).wf(),
            final(self).grid == old(self).grid,
            final(self).inventory == old(self).inventory,
            final(self).girl.timer == old(self).girl.timer,
            final(self).girl.col == if old(self).girl.col + 1 < BOARD_WIDTH {
                (old(self).girl.col + 1) as usize
            } else {
                old(self).girl.col
            },
    {
        if self.girl.col + 1 < BOARD_WIDTH {
            self.girl.col = self.girl.col + 1;
        }
    }

    /// Pull handler: with an empty hand, takes the bottom run of the cursor
    /// column into the hand. Does nothing with a full hand or an empty column.
    pub fn coin_pull(&mut self)
        requires
            old(self).wf(),
        ensures
            final(self).wf(),
            pulled(*old(self), *final(self)),
    {
        if self.inventory.obj_count != 0 {
            return;
        }
        match self.grid.take_run(self.girl.col) {
            Some((k, n)) => {
                self.inventory = Inventory { obj_count: n, obj_type: k };
            },
            None => {},
        }
    }

    /// Push handler, up to the merge: drops the hand into the cursor column
    /// right after its lowest token and returns the merge request, the cell of
    /// the last token dropped. Does nothing with an empty hand, or when the
    /// hand does not fit in the column.
    pub fn coin_push(&mut self) -> (seed: Option<Position>)
        requires
            old(self).wf(),
        ensures
            final(self).wf(),
            dropped(*old(self), *final(self), seed),
    {
        if self.inventory.obj_count == 0 {
            return None;
        }
        let seed = self.grid.drop_run(self.girl.col, self.inventory.obj_type, self.inventory.obj_count);
        if seed.is_some() {
            self.inventory.obj_count = 0;
        }
        seed
    }

    /// Merge handler: resolves a merge request at `seed`. Returns whether the
    /// cluster there merged.
    pub fn merge_handler(&mut self, seed: Position) -> (r: bool)
        requires
            old(self).wf(),
        ensures
            final(self).wf(),
            final(self).girl == old(self).girl,
            final(self).inventory == old(self).inventory,
            r == merges(old(self).grid@, seed.pair()),
            merge_result(old(self).grid@, seed.pair(), final(self).grid@),
    {
        self.grid.merge_at(seed)
    }

    /// New-row handler with a given row: when the last row is clear, every
    /// token moves one row on and `row` fills row 0. Returns whether it did.
    pub fn new_row_with(&mut self, row: &Vec<ObjType>) -> (r: bool)
        requires
            old(self).wf(),
            row@.len() == BOARD_WIDTH,
        ensures
            final(self).wf(),
            r == last_row_clear(old(self).grid@),
            row_added(*old(self), row@, *final(self)),
    {
        self.grid.shift_in(row)
    }

    /// New-row handler: draws one kind per column from `table`, then as
    /// `new_row_with`.
    pub fn new_row(&mut self, table: &SpawnTable) -> (r: bool)
        requires
            old(self).wf(),
            table.wf(),
        ensures
            final(self).wf(),
            r == last_row_clear(old(self).grid@),
            exists|row: Seq<ObjType>| drawn_row(table@, row) && #[trigger] row_added(*old(self), row, *final(self)),
    {
        let row = table.draw_many(BOARD_WIDTH);
        let r = self.new_row_with(&row);
        assert(drawn_row(table@, row@));
        r
    }

    /// Runs the handler of action `a`; a push is followed by its merge.
    pub fn apply_action(&mut self, a: ActionType, table: &SpawnTable)
        requires
            old(self).wf(),
            table.wf(),
        ensures
            final(self).wf(),
            step(*old(self), a, table@, *final(self)),
    {
        match a {
            ActionType::CoinPull => {
                self.coin_pull();
            },
            ActionType::CoinPush => {
                let ghost b0 = *self;
                let seed = self.coin_push();
                let ghost b1 = *self;
                if let Some(p) = seed {
                    self.merge_handler(p);
                }
                assert(dropped(b0, b1, seed));
            },
            ActionType::NewRow => {
                self.new_row(table);
            },
        }
    }

    /// Every token of this board for the renderer: the placed ones, then the
    /// held ones.
    pub fn tokens(&self) -> (r: Vec<Token>)
        requires
            self.wf(),
        ensures
            r@ == placed_upto(self.grid@, BOARD_CELLS as int) + held_tokens(*self),
    {
        let mut r = self.grid.placed_tokens();
        let ghost placed = r@;
        let n = self.inventory.obj_count;
        let mut j: usize = 0;
        while j < n
            invariant
                self.wf(),
                n == self.inventory.obj_count,
                j <= n,
                r@ == placed + held_tokens(*self).take(j as int),
            decreases n - j,
        {
            r.push(
                Token {
                    pos: Position { col: self.girl.col, row: BOARD_HEIGHT - 1 - j },
                    kind: self.inventory.obj_type,
                    held: true,
                },
            );
            proof {
                assert(held_tokens(*self).take(j + 1) =~= held_tokens(*self).take(j as int).push(r@.last()));
                assert(r@ =~= placed + held_tokens(*self).take(j + 1));
            }
            j = j + 1;
        }
        assert(held_tokens(*self).take(n as int) =~= held_tokens(*self));
        r
    }

    /// Lets `delta` milliseconds pass for the row-advance timer.
    pub fn tick(&mut self, delta: u64)
        requires
            old(self).wf(),
        ensures
            final(self).wf(),
            final(self).grid == old(self).grid,
            final(self).inventory == old(self).inventory,
            final(self).girl.col == old(self).girl.col,
            final(self).girl.timer == tick_spec(old(self).girl.timer, delta as int),
    {
        self.girl.timer.tick(delta);
    }

    /// One tick of this board: turns `input` into actions and runs each
    /// handler in order. Returns the actions run.
    pub fn update(&mut self, input: PlayerInput, table: &SpawnTable) -> (r: Vec<ActionType>)
        requires
            old(self).wf(),
            table.wf(),
        ensures
            final(self).wf(),
            exists|mid: Board|
                {
                    &&& #[trigger] input_applied(*old(self), input, mid, r@)
                    &&& ran(mid, r@, table@, *final(self))
                },
    {
        let acts = self.game_input(input);
        let ghost mid = *self;
        proof {
            assert(acts@.take(0) =~= Seq::<ActionType>::empty());
        }
        let mut i: usize = 0;
        while i < acts.len()
            invariant
                self.wf(),
                table.wf(),
                i <= acts@.len(),
                ran(mid, acts@.take(i as int), table@, *self),
            decreases acts@.len() - i,
        {
            let ghost before = *self;
            self.apply_action(acts[i], table);
            proof {
                let s = acts@.take(i + 1);
                assert(s.drop_last() =~= acts@.take(i as int));
                assert(s.last() == acts@[i as int]);
                assert(step(before, s.last(), table@, *self));
            }
            i = i + 1;
        }
        assert(acts@.take(acts@.len() as int) =~= acts@);
        assert(input_applied(*old(self), input, mid, acts@));
        acts
    }

    /// Turns the buttons into actions: applies the moves of `input` to the cursor,
    /// runs the row-advance timer on a down-press, and returns the actions
    /// for the handlers in order: a new row, a pull, a push.
    pub fn game_input(&mut self, input: PlayerInput) -> (r: Vec<ActionType>)
        requires
            old(self).wf(),
        ensures
            final(self).wf(),
            input_applied(*old(self), input, *final(self), r@),
    {
        if input.left {
            self.move_left();
        }
        if input.right {
            self.move_right();
        }
        let mut r: Vec<ActionType> = Vec::new();
        if input.down {
            if self.girl.timer.press() {
                r.push(ActionType::NewRow);
            }
        }
        if input.pull {
            r.push(ActionType::CoinPull);
        }
        if input.push {
            r.push(ActionType::CoinPush);
        }
        proof {
            assert(r@ =~= emitted(input.down && press_spec(old(self).girl.timer).1, input));
        }
        r
    }
}

} // verus!
