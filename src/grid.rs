//! One player's grid of placed tokens, and the searches over it.
use vstd::prelude::*;
use crate::catalog::ObjType;

verus! {

/// Number of columns of a board.
pub const BOARD_WIDTH: usize = 7;

/// Number of rows of a board; row 0 is where new rows come in, the last row
/// is the cursor's side.
pub const BOARD_HEIGHT: usize = 12;

/// Number of cells of a board.
pub const BOARD_CELLS: usize = 84;

/// A cell of the board.
#[derive(Debug, Clone, Copy, PartialEq, Eq, Structural, Hash)]
pub struct Position {
    pub col: usize,
    pub row: usize,
}

pub open spec fn in_board(c: int, r: int) -> bool {
    0 <= c < BOARD_WIDTH && 0 <= r < BOARD_HEIGHT
}

/// Index of cell `(c, r)` in the column-major cell sequence.
pub open spec fn idx(c: int, r: int) -> int {
    c * 12 + r
}

/// The token at `(c, r)` of a grid given by its cells.
pub open spec fn at(g: Seq<Option<ObjType>>, c: int, r: int) -> Option<ObjType> {
    g[idx(c, r)]
}

/// Promotion order on cells: a smaller column ranks lower, and within a
/// column a larger row ranks lower. This is a strict total order.
pub open spec fn ranks_below(a: (int, int), b: (int, int)) -> bool {
    a.0 < b.0 || (a.0 == b.0 && a.1 > b.1)
}

impl Position {
    pub open spec fn pair(&self) -> (int, int) {
        (self.col as int, self.row as int)
    }

    /// Whether `self` ranks strictly below `other` in the promotion order.
    pub fn ranks_below(&self, other: &Position) -> (r: bool)
        ensures
            r == ranks_below(self.pair(), other.pair()),
    {
        self.col < other.col || (self.col == other.col && self.row > other.row)
    }
}

/// A token as the renderer sees it: where it is, its kind, and whether it is
/// held in the hand.
#[derive(Debug, Clone, Copy, PartialEq, Eq, Structural)]
pub struct Token {
    pub pos: Position,
    pub kind: ObjType,
    pub held: bool,
}

/// The placed tokens among the first `n` cells, in cell-index order.
pub open spec fn placed_upto(g: Seq<Option<ObjType>>, n: int) -> Seq<Token>
    decreases n,
{
    if n <= 0 {
        seq![]
    } else {
        placed_upto(g, n - 1) + match g[n - 1] {
            Some(k) => seq![
                Token {
                    pos: Position { col: ((n - 1) / 12) as usize, row: ((n - 1) % 12) as usize },
                    kind: k,
                    held: false,
                },
            ],
            None => seq![],
        }
    }
}

/// Number of tokens in columns `[0, k)`.
pub open spec fn tokens_in_columns(g: Seq<Option<ObjType>>, k: int) -> nat
    decreases k,
{
    if k <= 0 {
        0
    } else {
        tokens_in_columns(g, k - 1) + count_in(g, k - 1, 0, BOARD_HEIGHT as int)
    }
}

/// Number of tokens placed on a grid.
pub open spec fn token_count(g: Seq<Option<ObjType>>) -> nat {
    tokens_in_columns(g, BOARD_WIDTH as int)
}

/// Rows `[lo, hi)` of column `c` went from empty to occupied, and nothing else
/// in that column changed: the column gained the part of `[lo, hi)` at or
/// after row `a`.
proof fn lemma_count_in_filled(
    g0: Seq<Option<ObjType>>,
    g1: Seq<Option<ObjType>>,
    c: int,
    a: int,
    lo: int,
    hi: int,
)
    requires
        0 <= a <= BOARD_HEIGHT,
        0 <= lo <= hi <= BOARD_HEIGHT,
        forall|r: int|
            a <= r < BOARD_HEIGHT ==> if lo <= r < hi {
                #[trigger] at(g0, c, r) is None && at(g1, c, r) is Some
            } else {
                at(g1, c, r) == at(g0, c, r)
            },
    ensures
        count_in(g1, c, a, BOARD_HEIGHT as int) == count_in(g0, c, a, BOARD_HEIGHT as int) + if a
            >= hi {
            0
        } else if a <= lo {
            hi - lo
        } else {
            hi - a
        },
    decreases BOARD_HEIGHT - a,
{
    if a < BOARD_HEIGHT {
        lemma_count_in_filled(g0, g1, c, a + 1, lo, hi);
    }
}

/// Column `c` of `g1` is column `c` of `g0` moved one row on, with a token
/// coming in at row 0.
proof fn lemma_count_in_shifted(g0: Seq<Option<ObjType>>, g1: Seq<Option<ObjType>>, c: int, a: int)
    requires
        0 <= a < BOARD_HEIGHT,
        forall|r: int| 0 < r < BOARD_HEIGHT ==> #[trigger] at(g1, c, r) == at(g0, c, r - 1),
        at(g0, c, BOARD_HEIGHT - 1) is None,
    ensures
        count_in(g1, c, a + 1, BOARD_HEIGHT as int) == count_in(g0, c, a, BOARD_HEIGHT as int),
    decreases BOARD_HEIGHT - a,
{
    if a + 1 < BOARD_HEIGHT {
        lemma_count_in_shifted(g0, g1, c, a + 1);
        assert(at(g1, c, a + 1) == at(g0, c, a));
    } else {
        assert(count_in(g0, c, a + 1, BOARD_HEIGHT as int) == 0);
    }
}

/// Grids whose columns agree except column `c0`, which gained `n` tokens.
proof fn lemma_columns_one_gain(g0: Seq<Option<ObjType>>, g1: Seq<Option<ObjType>>, k: int, c0: int, n: int)
    requires
        0 <= k,
        forall|c: int|
            0 <= c < k && c != c0 ==> #[trigger] count_in(g1, c, 0, BOARD_HEIGHT as int) == count_in(
                g0,
                c,
                0,
                BOARD_HEIGHT as int,
            ),
        0 <= c0 < k ==> count_in(g1, c0, 0, BOARD_HEIGHT as int) == count_in(g0, c0, 0, BOARD_HEIGHT as int) + n,
    ensures
        tokens_in_columns(g1, k) == tokens_in_columns(g0, k) + if 0 <= c0 < k {
            n
        } else {
            0
        },
    decreases k,
{
    if k > 0 {
        lemma_columns_one_gain(g0, g1, k - 1, c0, n);
    }
}

/// Grids where every column gained one token.
proof fn lemma_columns_each_gain(g0: Seq<Option<ObjType>>, g1: Seq<Option<ObjType>>, k: int)
    requires
        0 <= k,
        forall|c: int|
            0 <= c < k ==> #[trigger] count_in(g1, c, 0, BOARD_HEIGHT as int) == count_in(
                g0,
                c,
                0,
                BOARD_HEIGHT as int,
            ) + 1,
    ensures
        tokens_in_columns(g1, k) == tokens_in_columns(g0, k) + k,
    decreases k,
{
    if k > 0 {
        lemma_columns_each_gain(g0, g1, k - 1);
    }
}

/// Filling the empty rows `[lo, hi)` of column `c0`, and changing nothing
/// else, adds `hi - lo` tokens.
pub proof fn lemma_fill_count(g0: Seq<Option<ObjType>>, g1: Seq<Option<ObjType>>, c0: int, lo: int, hi: int)
    requires
        0 <= c0 < BOARD_WIDTH,
        0 <= lo <= hi <= BOARD_HEIGHT,
        forall|c: int, r: int|
            in_board(c, r) && !(c == c0 && lo <= r < hi) ==> #[trigger] at(g1, c, r) == at(g0, c, r),
        forall|r: int| lo <= r < hi ==> #[trigger] at(g0, c0, r) is None && at(g1, c0, r) is Some,
    ensures
        token_count(g1) == token_count(g0) + (hi - lo),
{
    assert forall|r: int| 0 <= r < BOARD_HEIGHT implies if lo <= r < hi {
        #[trigger] at(g0, c0, r) is None && at(g1, c0, r) is Some
    } else {
        at(g1, c0, r) == at(g0, c0, r)
    } by {
        assert(in_board(c0, r));
    }
    lemma_count_in_filled(g0, g1, c0, 0, lo, hi);
    assert forall|c: int| 0 <= c < BOARD_WIDTH && c != c0 implies #[trigger] count_in(g1, c, 0, BOARD_HEIGHT as int) == count_in(g0, c, 0, BOARD_HEIGHT as int) by {
        assert forall|r: int| 0 <= r < BOARD_HEIGHT implies if 0 <= r < 0 {
            #[trigger] at(g0, c, r) is None && at(g1, c, r) is Some
        } else {
            at(g1, c, r) == at(g0, c, r)
        } by {
            assert(in_board(c, r));
        }
        lemma_count_in_filled(g0, g1, c, 0, 0, 0);
    }
    lemma_columns_one_gain(g0, g1, BOARD_WIDTH as int, c0, hi - lo);
}

/// A new row on a grid whose last row is clear adds one token per column.
pub proof fn lemma_shift_count(g0: Seq<Option<ObjType>>, g1: Seq<Option<ObjType>>, row: Seq<ObjType>)
    requires
        row.len() == BOARD_WIDTH,
        last_row_clear(g0),
        forall|c: int, r: int| in_board(c, r) ==> #[trigger] at(g1, c, r) == shifted_cell(g0, row, c, r),
    ensures
        token_count(g1) == token_count(g0) + BOARD_WIDTH,
{
    assert forall|c: int| 0 <= c < BOARD_WIDTH implies #[trigger] count_in(g1, c, 0, BOARD_HEIGHT as int) == count_in(g0, c, 0, BOARD_HEIGHT as int) + 1 by {
        assert forall|r: int| 0 < r < BOARD_HEIGHT implies #[trigger] at(g1, c, r) == at(g0, c, r - 1) by {
            assert(at(g1, c, r) == shifted_cell(g0, row, c, r));
        }
        assert(at(g1, c, 0) == shifted_cell(g0, row, c, 0));
        assert(at(g0, c, BOARD_HEIGHT - 1) is None);
        lemma_count_in_shifted(g0, g1, c, 0);
    }
    lemma_columns_each_gain(g0, g1, BOARD_WIDTH as int);
}

/// The grid of placed tokens of one player.
#[derive(Debug, Clone, PartialEq, Eq)]
pub struct Grid {
    cells: Vec<Option<ObjType>>,
}

/// Largest occupied row of column `c` below `n`, or -1.
pub open spec fn lowest_below(g: Seq<Option<ObjType>>, c: int, n: int) -> int
    decreases n,
{
    if n <= 0 {
        -1
    } else if at(g, c, n - 1) is Some {
        n - 1
    } else {
        lowest_below(g, c, n - 1)
    }
}

pub proof fn lemma_lowest_below_bound(g: Seq<Option<ObjType>>, c: int, n: int)
    ensures
        -1 <= lowest_below(g, c, n) < if n > 0 { n } else { 0 },
        lowest_below(g, c, n) >= 0 ==> at(g, c, lowest_below(g, c, n)) is Some,
        forall|r: int| lowest_below(g, c, n) < r < n ==> #[trigger] at(g, c, r) is None,
    decreases n,
{
    if n > 0 {
        lemma_lowest_below_bound(g, c, n - 1);
    }
}

/// Largest occupied row of column `c`, or -1 for an empty column.
pub open spec fn lowest_row(g: Seq<Option<ObjType>>, c: int) -> int {
    lowest_below(g, c, BOARD_HEIGHT as int)
}

/// Scanning column `c` upward from row `n - 1`, past empty cells and tokens of
/// kind `k`: the first row of that stretch.
pub open spec fn run_top_from(g: Seq<Option<ObjType>>, c: int, k: ObjType, n: int) -> int
    decreases n,
{
    if n <= 0 {
        0
    } else if at(g, c, n - 1) is Some && at(g, c, n - 1) != Some(k) {
        n
    } else {
        run_top_from(g, c, k, n - 1)
    }
}

/// Number of tokens in rows `[lo, hi)` of column `c`.
pub open spec fn count_in(g: Seq<Option<ObjType>>, c: int, lo: int, hi: int) -> nat
    decreases hi - lo,
{
    if lo >= hi {
        0
    } else {
        (if at(g, c, lo) is Some { 1nat } else { 0nat }) + count_in(g, c, lo + 1, hi)
    }
}

proof fn lemma_run_top_skip(g: Seq<Option<ObjType>>, c: int, k: ObjType, lo: int, hi: int)
    requires
        0 <= lo <= hi,
        forall|r: int| lo <= r < hi ==> #[trigger] at(g, c, r) is None || at(g, c, r) == Some(k),
    ensures
        run_top_from(g, c, k, hi) == run_top_from(g, c, k, lo),
    decreases hi - lo,
{
    if lo < hi {
        lemma_run_top_skip(g, c, k, lo, hi - 1);
    }
}

proof fn lemma_count_in_empty(g: Seq<Option<ObjType>>, c: int, lo: int, hi: int)
    requires
        forall|r: int| lo <= r < hi ==> #[trigger] at(g, c, r) is None,
    ensures
        count_in(g, c, lo, hi) == 0,
    decreases hi - lo,
{
    if lo < hi {
        lemma_count_in_empty(g, c, lo + 1, hi);
    }
}

/// A column that ends, from its lowest token `r` upward, in three tokens of
/// kind `a` under a token of another kind `b`: its bottom run is exactly those
/// three tokens of kind `a`.
pub proof fn lemma_bottom_run_of_three(g: Seq<Option<ObjType>>, c: int, r: int, a: ObjType, b: ObjType)
    requires
        3 <= r < BOARD_HEIGHT,
        a != b,
        at(g, c, r) == Some(a),
        at(g, c, r - 1) == Some(a),
        at(g, c, r - 2) == Some(a),
        at(g, c, r - 3) == Some(b),
        forall|r2: int| r < r2 < BOARD_HEIGHT ==> #[trigger] at(g, c, r2) is None,
    ensures
        lowest_row(g, c) == r,
        run_top_from(g, c, a, BOARD_HEIGHT as int) == r - 2,
        count_in(g, c, r - 2, BOARD_HEIGHT as int) == 3,
{
    lemma_lowest_below_bound(g, c, BOARD_HEIGHT as int);
    let l = lowest_row(g, c);
    if l < r {
        assert(at(g, c, r) is None);
    }
    if l > r {
        assert(at(g, c, l) is None);
    }
    lemma_run_top_skip(g, c, a, r - 2, BOARD_HEIGHT as int);
    lemma_count_in_empty(g, c, r + 1, BOARD_HEIGHT as int);
    assert(count_in(g, c, r, BOARD_HEIGHT as int) == 1);
    assert(count_in(g, c, r - 1, BOARD_HEIGHT as int) == 2);
}

/// Whether no token sits in the last row, so that every token can move one
/// row on.
pub open spec fn last_row_clear(g: Seq<Option<ObjType>>) -> bool {
    forall|c: int| 0 <= c < BOARD_WIDTH ==> #[trigger] at(g, c, BOARD_HEIGHT - 1) is None
}

/// The token at `(c, r)` after every token moved one row on and `row` came in
/// at row 0.
pub open spec fn shifted_cell(g: Seq<Option<ObjType>>, row: Seq<ObjType>, c: int, r: int) -> Option<
    ObjType,
> {
    if r == 0 {
        Some(row[c])
    } else {
        at(g, c, r - 1)
    }
}

/// Cell `(c, r)` sits at index `idx(c, r)`, and that index gives it back.
pub proof fn lemma_index_cell(c: int, r: int)
    requires
        in_board(c, r),
    ensures
        0 <= idx(c, r) < BOARD_CELLS,
        idx(c, r) / 12 == c,
        idx(c, r) % 12 == r,
{
}

/// Index `i` is the cell `(i / 12, i % 12)`.
pub proof fn lemma_cell_index(i: int)
    requires
        0 <= i < BOARD_CELLS,
    ensures
        in_board(i / 12, i % 12),
        idx(i / 12, i % 12) == i,
{
}

/// Two grids that agree on every cell are equal.
pub proof fn lemma_grid_ext(g1: Seq<Option<ObjType>>, g2: Seq<Option<ObjType>>)
    requires
        g1.len() == BOARD_CELLS,
        g2.len() == BOARD_CELLS,
        forall|c: int, r: int| in_board(c, r) ==> #[trigger] at(g1, c, r) == at(g2, c, r),
    ensures
        g1 == g2,
{
    assert forall|i: int| 0 <= i < BOARD_CELLS implies g1[i] == g2[i] by {
        lemma_cell_index(i);
        assert(at(g1, i / 12, i % 12) == at(g2, i / 12, i % 12));
    }
    assert(g1 =~= g2);
}

impl Grid {
    pub closed spec fn view(&self) -> Seq<Option<ObjType>> {
        self.cells@
    }

    pub open spec fn wf(&self) -> bool {
        self@.len() == BOARD_CELLS
    }

    /// An empty grid.
    pub fn new() -> (r: Grid)
        ensures
            r.wf(),
            forall|c: int, rr: int| in_board(c, rr) ==> #[trigger] at(r@, c, rr) is None,
            forall|i: int| 0 <= i < BOARD_CELLS ==> #[trigger] r@[i] is None,
    {
        let mut cells: Vec<Option<ObjType>> = Vec::new();
        let mut i: usize = 0;
        while i < BOARD_CELLS
            invariant
                i <= BOARD_CELLS,
                cells@.len() == i,
                forall|j: int| 0 <= j < i ==> cells@[j] is None,
            decreases BOARD_CELLS - i,
        {
            cells.push(None);
            i = i + 1;
        }
        Grid { cells }
    }

    /// The token at `(c, r)`.
    pub fn get(&self, c: usize, r: usize) -> (t: Option<ObjType>)
        requires
            self.wf(),
            in_board(c as int, r as int),
        ensures
            t == at(self@, c as int, r as int),
    {
        self.cells[c * BOARD_HEIGHT + r]
    }

    /// Puts `t` at `(c, r)`, leaving every other cell as it was.
    pub fn set(&mut self, c: usize, r: usize, t: Option<ObjType>)
        requires
            old(self).wf(),
            in_board(c as int, r as int),
        ensures
            final(self).wf(),
            final(self)@ == old(self)@.update(idx(c as int, r as int), t),
            at(final(self)@, c as int, r as int) == t,
            forall|c2: int, r2: int|
                in_board(c2, r2) && (c2, r2) != (c as int, r as int)
                    ==> #[trigger] at(final(self)@, c2, r2) == at(old(self)@, c2, r2),
    {
        self.cells.set(c * BOARD_HEIGHT + r, t);
    }

    /// Takes the bottom run of column `c` off the grid: the kind `k` of the
    /// lowest token, and every token from there upward up to the first token
    /// of another kind (empty cells are passed over). Returns `k` and the
    /// number of tokens taken, or `None` for an empty column.
    pub fn take_run(&mut self, c: usize) -> (r: Option<(ObjType, usize)>)
        requires
            old(self).wf(),
            c < BOARD_WIDTH,
        ensures
            final(self).wf(),
            lowest_row(old(self)@, c as int) == -1 ==> r is None && final(self)@ == old(self)@,
            r matches Some(p) ==> p.1 <= BOARD_HEIGHT,
            lowest_row(old(self)@, c as int) != -1 ==> {
                let k = at(old(self)@, c as int, lowest_row(old(self)@, c as int))->0;
                let t = run_top_from(old(self)@, c as int, k, BOARD_HEIGHT as int);
                &&& r == Some((k, count_in(old(self)@, c as int, t, BOARD_HEIGHT as int) as usize))
                &&& count_in(old(self)@, c as int, t, BOARD_HEIGHT as int) >= 1
                &&& forall|c2: int, r2: int|
                    in_board(c2, r2) ==> #[trigger] at(final(self)@, c2, r2) == if c2 == c && r2
                        >= t {
                        None
                    } else {
                        at(old(self)@, c2, r2)
                    }
            },
    {
        let ghost g = self@;
        let b = match self.lowest_row(c) {
            Some(b) => b,
            None => {
                return None;
            },
        };
        proof {
            lemma_lowest_below_bound(g, c as int, BOARD_HEIGHT as int);
        }
        let k = match self.get(c, b) {
            Some(t) => t,
            None => ObjType::One,
        };
        let mut count: usize = 0;
        let mut n: usize = BOARD_HEIGHT;
        while n > 0
            invariant
                self.wf(),
                c < BOARD_WIDTH,
                n <= BOARD_HEIGHT,
                b < BOARD_HEIGHT,
                b as int == lowest_row(g, c as int),
                at(g, c as int, b as int) == Some(k),
                run_top_from(g, c as int, k, BOARD_HEIGHT as int) == run_top_from(g, c as int, k, n as int),
                count == count_in(g, c as int, n as int, BOARD_HEIGHT as int),
                count <= BOARD_HEIGHT - n,
                n <= b ==> count >= 1,
                forall|r2: int| b < r2 < BOARD_HEIGHT ==> #[trigger] at(g, c as int, r2) is None,
                forall|c2: int, r2: int|
                    in_board(c2, r2) ==> #[trigger] at(self@, c2, r2) == if c2 == c && r2 >= n {
                        None
                    } else {
                        at(g, c2, r2)
                    },
            ensures
                run_top_from(g, c as int, k, BOARD_HEIGHT as int) == n,
                count >= 1,
            decreases n,
        {
            let cell = self.get(c, n - 1);
            if let Some(x) = cell {
                if x != k {
                    break;
                }
                count = count + 1;
            }
            self.set(c, n - 1, None);
            n = n - 1;
        }
        Some((k, count))
    }

    /// Drops `n` tokens of kind `k` into column `c`, right after its lowest
    /// token (from row 0 in an empty column). Returns the cell of the last
    /// token dropped, or `None`, with nothing changed, when they do not fit.
    pub fn drop_run(&mut self, c: usize, k: ObjType, n: usize) -> (r: Option<Position>)
        requires
            old(self).wf(),
            c < BOARD_WIDTH,
            n > 0,
        ensures
            final(self).wf(),
            ({
                let lo = lowest_row(old(self)@, c as int) + 1;
                &&& lo + n > BOARD_HEIGHT ==> r is None && final(self)@ == old(self)@
                &&& lo + n <= BOARD_HEIGHT ==> {
                    &&& r == Some(Position { col: c, row: (lo + n - 1) as usize })
                    &&& forall|c2: int, r2: int|
                        in_board(c2, r2) ==> #[trigger] at(final(self)@, c2, r2) == if c2 == c
                            && lo <= r2 < lo + n {
                            Some(k)
                        } else {
                            at(old(self)@, c2, r2)
                        }
                }
            }),
    {
        let ghost g = self@;
        let lo: usize = match self.lowest_row(c) {
            Some(b) => b + 1,
            None => 0,
        };
        if n > BOARD_HEIGHT - lo {
            return None;
        }
        let mut i: usize = 0;
        while i < n
            invariant
                self.wf(),
                c < BOARD_WIDTH,
                lo + n <= BOARD_HEIGHT,
                i <= n,
                forall|c2: int, r2: int|
                    in_board(c2, r2) ==> #[trigger] at(self@, c2, r2) == if c2 == c && lo <= r2 < lo
                        + i {
                        Some(k)
                    } else {
                        at(g, c2, r2)
                    },
            decreases n - i,
        {
            self.set(c, lo + i, Some(k));
            i = i + 1;
        }
        Some(Position { col: c, row: lo + n - 1 })
    }

    /// Moves every token one row on and fills row 0 with `row`, one kind per
    /// column. Returns `false`, with nothing changed, when a token sits in the
    /// last row.
    pub fn shift_in(&mut self, row: &Vec<ObjType>) -> (r: bool)
        requires
            old(self).wf(),
            row@.len() == BOARD_WIDTH,
        ensures
            final(self).wf(),
            r == last_row_clear(old(self)@),
            !r ==> final(self)@ == old(self)@,
            r ==> forall|c: int, rr: int|
                in_board(c, rr) ==> #[trigger] at(final(self)@, c, rr) == shifted_cell(
                    old(self)@,
                    row@,
                    c,
                    rr,
                ),
    {
        let ghost g = self@;
        let mut c: usize = 0;
        while c < BOARD_WIDTH
            invariant
                self.wf(),
                c <= BOARD_WIDTH,
                forall|c2: int| 0 <= c2 < c ==> #[trigger] at(g, c2, BOARD_HEIGHT - 1) is None,
                g == self@,
            decreases BOARD_WIDTH - c,
        {
            if self.get(c, BOARD_HEIGHT - 1).is_some() {
                return false;
            }
            c = c + 1;
        }
        let mut cells: Vec<Option<ObjType>> = Vec::new();
        let mut i: usize = 0;
        while i < BOARD_CELLS
            invariant
                g == self@,
                self.wf(),
                row@.len() == BOARD_WIDTH,
                i <= BOARD_CELLS,
                cells@.len() == i,
                forall|j: int|
                    0 <= j < i ==> #[trigger] cells@[j] == if j % 12 == 0 {
                        Some(row@[j / 12])
                    } else {
                        g[j - 1]
                    },
            decreases BOARD_CELLS - i,
        {
            proof {
                lemma_cell_index(i as int);
            }
            if i % BOARD_HEIGHT == 0 {
                cells.push(Some(row[i / BOARD_HEIGHT]));
            } else {
                cells.push(self.cells[i - 1]);
            }
            i = i + 1;
        }
        self.cells = cells;
        proof {
            assert forall|c: int, rr: int| in_board(c, rr) implies #[trigger] at(self@, c, rr) == shifted_cell(g, row@, c, rr) by {
                lemma_index_cell(c, rr);
            }
        }
        true
    }

    /// The placed tokens, column by column and row by row within a column.
    pub fn placed_tokens(&self) -> (r: Vec<Token>)
        requires
            self.wf(),
        ensures
            r@ == placed_upto(self@, BOARD_CELLS as int),
    {
        let mut r: Vec<Token> = Vec::new();
        let mut i: usize = 0;
        while i < BOARD_CELLS
            invariant
                self.wf(),
                i <= BOARD_CELLS,
                r@ == placed_upto(self@, i as int),
            decreases BOARD_CELLS - i,
        {
            if let Some(k) = self.cells[i] {
                r.push(
                    Token {
                        pos: Position { col: i / BOARD_HEIGHT, row: i % BOARD_HEIGHT },
                        kind: k,
                        held: false,
                    },
                );
            }
            proof {
                assert(r@ =~= placed_upto(self@, i + 1));
            }
            i = i + 1;
        }
        r
    }

    /// Largest occupied row of column `c`, if any.
    pub fn lowest_row(&self, c: usize) -> (r: Option<usize>)
        requires
            self.wf(),
            c < BOARD_WIDTH,
        ensures
            r is None <==> lowest_row(self@, c as int) == -1,
            r matches Some(x) ==> x == lowest_row(self@, c as int),
            lowest_row(self@, c as int) < BOARD_HEIGHT,
    {
        let mut n: usize = BOARD_HEIGHT;
        proof {
            lemma_lowest_below_bound(self@, c as int, n as int);
        }
        while n > 0
            invariant
                self.wf(),
                c < BOARD_WIDTH,
                n <= BOARD_HEIGHT,
                lowest_row(self@, c as int) == lowest_below(self@, c as int, n as int),
                lowest_below(self@, c as int, n as int) < n,
            decreases n,
        {
            if self.get(c, n - 1).is_some() {
                return Some(n - 1);
            }
            n = n - 1;
            proof {
                lemma_lowest_below_bound(self@, c as int, n as int);
            }
        }
        None
    }
}

} // verus!
