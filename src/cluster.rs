//! Clusters: the connected same-kind tokens around a cell, found by a
//! stack-based search, and the merge that promotes a large enough cluster.
use vstd::prelude::*;
use crate::catalog::{ObjType, merge_count, upgrade};
use crate::grid::{
    BOARD_CELLS, BOARD_HEIGHT, BOARD_WIDTH, Grid, Position, at, idx, in_board, lemma_cell_index,
    lemma_index_cell, ranks_below,
};

verus! {

/// Whether two cells are orthogonal neighbours.
pub open spec fn adjacent(a: (int, int), b: (int, int)) -> bool {
    ||| a.0 == b.0 && (a.1 == b.1 + 1 || a.1 + 1 == b.1)
    ||| a.1 == b.1 && (a.0 == b.0 + 1 || a.0 + 1 == b.0)
}

/// A walk over cells that hold kind `k`, each step to an orthogonal neighbour.
pub open spec fn is_walk(g: Seq<Option<ObjType>>, k: ObjType, w: Seq<(int, int)>) -> bool {
    &&& w.len() > 0
    &&& forall|j: int|
        0 <= j < w.len() ==> in_board(#[trigger] w[j].0, w[j].1) && at(g, w[j].0, w[j].1) == Some(
            k,
        )
    &&& forall|j: int| 0 <= j < w.len() - 1 ==> adjacent(#[trigger] w[j], w[j + 1])
}

/// Whether `(c, r)` belongs to the cluster of the token at `seed`: the cells
/// that a walk over tokens of the seed's kind reaches from the seed.
pub open spec fn in_cluster(g: Seq<Option<ObjType>>, seed: (int, int), c: int, r: int) -> bool {
    &&& in_board(seed.0, seed.1)
    &&& at(g, seed.0, seed.1) is Some
    &&& exists|w: Seq<(int, int)>|
        #[trigger] is_walk(g, at(g, seed.0, seed.1)->0, w) && w[0] == seed && w.last() == (c, r)
}

/// For each cell index, whether that cell belongs to the cluster of `seed`.
pub open spec fn cluster_mask(g: Seq<Option<ObjType>>, seed: (int, int)) -> Seq<bool> {
    Seq::new(BOARD_CELLS as nat, |i: int| in_cluster(g, seed, i / 12, i % 12))
}

/// `t` is the highest-ranked cell of the cluster of `seed`: where a merge of
/// that cluster puts its promoted token.
pub open spec fn is_merge_target(g: Seq<Option<ObjType>>, seed: (int, int), t: (int, int)) -> bool {
    &&& in_board(t.0, t.1)
    &&& in_cluster(g, seed, t.0, t.1)
    &&& forall|c: int, r: int|
        in_board(c, r) && #[trigger] in_cluster(g, seed, c, r) && (c, r) != t ==> ranks_below(
            (c, r),
            t,
        )
}

/// The token at `(c, r)` after the cluster of `seed` merged into `t`: the
/// cluster is gone, and `t` holds the next rung of the ladder if there is one.
pub open spec fn merged_cell(
    g: Seq<Option<ObjType>>,
    seed: (int, int),
    t: (int, int),
    c: int,
    r: int,
) -> Option<ObjType> {
    let k = at(g, seed.0, seed.1)->0;
    if (c, r) == t && upgrade(k) is Some {
        upgrade(k)
    } else if in_cluster(g, seed, c, r) {
        None
    } else {
        at(g, c, r)
    }
}

/// Whether a merge request at `seed` promotes: a token lies there and its
/// cluster reaches the kind's merge threshold.
pub open spec fn merges(g: Seq<Option<ObjType>>, seed: (int, int)) -> bool {
    &&& in_board(seed.0, seed.1)
    &&& at(g, seed.0, seed.1) is Some
    &&& cluster_size(g, seed) >= merge_count(at(g, seed.0, seed.1)->0)
}

/// Number of `true` entries.
pub open spec fn count_true(s: Seq<bool>) -> nat
    decreases s.len(),
{
    if s.len() == 0 {
        0
    } else {
        count_true(s.drop_last()) + if s.last() {
            1nat
        } else {
            0nat
        }
    }
}

/// Number of tokens in the cluster of `seed`.
pub open spec fn cluster_size(g: Seq<Option<ObjType>>, seed: (int, int)) -> nat {
    count_true(cluster_mask(g, seed))
}

spec fn count_false(s: Seq<bool>) -> nat
    decreases s.len(),
{
    if s.len() == 0 {
        0
    } else {
        count_false(s.drop_last()) + if s.last() {
            0nat
        } else {
            1nat
        }
    }
}

spec fn vis_at(vis: Seq<bool>, c: int, r: int) -> bool {
    vis[idx(c, r)]
}

/// Every neighbour of `(c, r)` that holds kind `k` is marked.
spec fn closed_at(g: Seq<Option<ObjType>>, k: ObjType, vis: Seq<bool>, c: int, r: int) -> bool {
    &&& (in_board(c - 1, r) && at(g, c - 1, r) == Some(k) ==> vis_at(vis, c - 1, r))
    &&& (in_board(c + 1, r) && at(g, c + 1, r) == Some(k) ==> vis_at(vis, c + 1, r))
    &&& (in_board(c, r - 1) && at(g, c, r - 1) == Some(k) ==> vis_at(vis, c, r - 1))
    &&& (in_board(c, r + 1) && at(g, c, r + 1) == Some(k) ==> vis_at(vis, c, r + 1))
}

spec fn in_stack(stack: Seq<Position>, c: int, r: int) -> bool {
    exists|j: int| 0 <= j < stack.len() && (#[trigger] stack[j]).pair() == (c, r)
}

proof fn lemma_count_false_update(s: Seq<bool>, i: int)
    requires
        0 <= i < s.len(),
        !s[i],
    ensures
        count_false(s.update(i, true)) + 1 == count_false(s),
    decreases s.len(),
{
    if i == s.len() - 1 {
        assert(s.update(i, true).drop_last() =~= s.drop_last());
    } else {
        assert(s.update(i, true).drop_last() =~= s.drop_last().update(i, true));
        lemma_count_false_update(s.drop_last(), i);
    }
}

spec fn sound(g: Seq<Option<ObjType>>, sp: (int, int), vis: Seq<bool>) -> bool {
    forall|c: int, r: int| in_board(c, r) && #[trigger] vis_at(vis, c, r) ==> in_cluster(g, sp, c, r)
}

spec fn stack_ok(vis: Seq<bool>, stack: Seq<Position>) -> bool {
    forall|j: int|
        0 <= j < stack.len() ==> in_board((#[trigger] stack[j]).col as int, stack[j].row as int)
            && vis_at(vis, stack[j].col as int, stack[j].row as int)
}

/// Every marked cell is closed, still on the stack, or `e`.
spec fn closed_except(
    g: Seq<Option<ObjType>>,
    k: ObjType,
    vis: Seq<bool>,
    stack: Seq<Position>,
    e: (int, int),
) -> bool {
    forall|c: int, r: int|
        in_board(c, r) && #[trigger] vis_at(vis, c, r) ==> closed_at(g, k, vis, c, r) || in_stack(
            stack,
            c,
            r,
        ) || (c, r) == e
}

/// One call of `visit` on a neighbour `q` of the cell `p` being expanded
/// keeps the search invariants.
proof fn lemma_visit_step(
    g: Seq<Option<ObjType>>,
    k: ObjType,
    sp: (int, int),
    p: (int, int),
    q: Position,
    vis_a: Seq<bool>,
    stack_a: Seq<Position>,
    vis_b: Seq<bool>,
    stack_b: Seq<Position>,
)
    requires
        g.len() == BOARD_CELLS,
        at(g, sp.0, sp.1) == Some(k),
        vis_a.len() == BOARD_CELLS,
        sound(g, sp, vis_a),
        stack_ok(vis_a, stack_a),
        closed_except(g, k, vis_a, stack_a, p),
        in_cluster(g, sp, p.0, p.1),
        in_board(q.col as int, q.row as int),
        adjacent(p, q.pair()),
        (vis_b == vis_a && stack_b == stack_a) || (at(g, q.col as int, q.row as int) == Some(k)
            && !vis_at(vis_a, q.col as int, q.row as int) && vis_b == vis_a.update(
            idx(q.col as int, q.row as int),
            true,
        ) && stack_b == stack_a.push(q)),
    ensures
        vis_b.len() == BOARD_CELLS,
        sound(g, sp, vis_b),
        stack_ok(vis_b, stack_b),
        closed_except(g, k, vis_b, stack_b, p),
        forall|i: int| 0 <= i < BOARD_CELLS && vis_a[i] ==> vis_b[i],
        2 * count_false(vis_b) + stack_b.len() <= 2 * count_false(vis_a) + stack_a.len(),
{
    if !(vis_b == vis_a && stack_b == stack_a) {
        let qp = q.pair();
        lemma_cluster_step(g, sp, p, qp);
        lemma_count_false_update(vis_a, idx(qp.0, qp.1));
        assert forall|c: int, r: int| in_board(c, r) && #[trigger] vis_at(vis_b, c, r) implies in_cluster(g, sp, c, r) by {
            if (c, r) != qp {
                assert(idx(c, r) != idx(qp.0, qp.1));
                assert(vis_at(vis_a, c, r));
            }
        }
        assert forall|j: int| 0 <= j < stack_b.len() implies in_board((#[trigger] stack_b[j]).col as int, stack_b[j].row as int)
            && vis_at(vis_b, stack_b[j].col as int, stack_b[j].row as int) by {
            if j < stack_a.len() {
                assert(stack_b[j] == stack_a[j]);
                assert(vis_at(vis_a, stack_a[j].col as int, stack_a[j].row as int));
            }
        }
        assert forall|c: int, r: int| in_board(c, r) && #[trigger] vis_at(vis_b, c, r) implies closed_at(g, k, vis_b, c, r) || in_stack(stack_b, c, r) || (c, r) == p by {
            if (c, r) == qp {
                assert(stack_b[stack_a.len() as int] == q);
            } else {
                assert(idx(c, r) != idx(qp.0, qp.1));
                assert(vis_at(vis_a, c, r));
                if in_stack(stack_a, c, r) {
                    let j = choose|j: int| 0 <= j < stack_a.len() && (#[trigger] stack_a[j]).pair() == (c, r);
                    assert(stack_b[j] == stack_a[j]);
                }
            }
        }
    }
}

/// A walk from `seed` to `p`, extended by a neighbour `q` of the same kind.
proof fn lemma_cluster_step(g: Seq<Option<ObjType>>, seed: (int, int), p: (int, int), q: (int, int))
    requires
        in_cluster(g, seed, p.0, p.1),
        adjacent(p, q),
        in_board(q.0, q.1),
        at(g, q.0, q.1) == at(g, seed.0, seed.1),
    ensures
        in_cluster(g, seed, q.0, q.1),
{
    let k = at(g, seed.0, seed.1)->0;
    let w = choose|w: Seq<(int, int)>| #[trigger] is_walk(g, k, w) && w[0] == seed && w.last() == p;
    let w2 = w.push(q);
    assert(w2[w2.len() - 2] == p);
    assert(is_walk(g, k, w2));
}

/// A walk that starts on a marked cell, over marked cells that are all
/// closed, ends on a marked cell.
proof fn lemma_walk_marked(g: Seq<Option<ObjType>>, k: ObjType, vis: Seq<bool>, w: Seq<(int, int)>)
    requires
        is_walk(g, k, w),
        vis_at(vis, w[0].0, w[0].1),
        forall|c: int, r: int|
            in_board(c, r) && #[trigger] vis_at(vis, c, r) ==> closed_at(g, k, vis, c, r),
    ensures
        vis_at(vis, w.last().0, w.last().1),
    decreases w.len(),
{
    if w.len() > 1 {
        let w0 = w.drop_last();
        assert(is_walk(g, k, w0));
        lemma_walk_marked(g, k, vis, w0);
        let p = w[w.len() - 2];
        assert(adjacent(p, w.last()));
        assert(in_board(p.0, p.1));
    }
}

impl Grid {
    /// Marks `(c, r)` and pushes it when it holds `k` and is not marked yet.
    fn visit(&self, k: ObjType, c: usize, r: usize, vis: &mut Vec<bool>, stack: &mut Vec<Position>)
        requires
            self.wf(),
            in_board(c as int, r as int),
            old(vis)@.len() == BOARD_CELLS,
        ensures
            final(vis)@.len() == BOARD_CELLS,
            at(self@, c as int, r as int) == Some(k) && !vis_at(old(vis)@, c as int, r as int) ==> {
                &&& final(vis)@ == old(vis)@.update(idx(c as int, r as int), true)
                &&& final(stack)@ == old(stack)@.push(Position { col: c, row: r })
            },
            !(at(self@, c as int, r as int) == Some(k) && !vis_at(old(vis)@, c as int, r as int))
                ==> final(vis)@ == old(vis)@ && final(stack)@ == old(stack)@,
            at(self@, c as int, r as int) == Some(k) ==> vis_at(final(vis)@, c as int, r as int),
    {
        let i = c * BOARD_HEIGHT + r;
        if !vis[i] {
            if let Some(t) = self.get(c, r) {
                if t == k {
                    vis.set(i, true);
                    stack.push(Position { col: c, row: r });
                }
            }
        }
    }

    /// The cluster of the token at `seed`, as one mark per cell index: a
    /// stack-based search over orthogonal neighbours of the seed's kind.
    /// With no token at `seed`, or `seed` off the board, the cluster is empty
    /// and every mark is `false`.
    pub fn get_connected(&self, seed: Position) -> (vis: Vec<bool>)
        requires
            self.wf(),
        ensures
            vis@ == cluster_mask(self@, seed.pair()),
    {
        let ghost g = self@;
        let ghost sp = seed.pair();
        let mut vis: Vec<bool> = Vec::new();
        let mut i: usize = 0;
        while i < BOARD_CELLS
            invariant
                i <= BOARD_CELLS,
                vis@.len() == i,
                forall|j: int| 0 <= j < i ==> !vis@[j],
            decreases BOARD_CELLS - i,
        {
            vis.push(false);
            i = i + 1;
        }
        let found = if seed.col < BOARD_WIDTH && seed.row < BOARD_HEIGHT {
            self.get(seed.col, seed.row)
        } else {
            None
        };
        let k = match found {
            Some(t) => t,
            None => {
                assert(vis@ =~= cluster_mask(g, sp));
                return vis;
            },
        };
        vis.set(seed.col * BOARD_HEIGHT + seed.row, true);
        let mut stack: Vec<Position> = Vec::new();
        stack.push(seed);
        proof {
            let w = seq![sp];
            assert(is_walk(g, k, w));
            assert(in_cluster(g, sp, sp.0, sp.1));
            assert forall|c: int, r: int| in_board(c, r) && #[trigger] vis_at(vis@, c, r) implies in_cluster(g, sp, c, r) by {
                assert(idx(c, r) == idx(sp.0, sp.1) ==> c == sp.0 && r == sp.1);
            }
            assert forall|c: int, r: int| in_board(c, r) && #[trigger] vis_at(vis@, c, r) implies closed_at(g, k, vis@, c, r) || in_stack(stack@, c, r) by {
                assert(idx(c, r) == idx(sp.0, sp.1) ==> c == sp.0 && r == sp.1);
                assert(stack@[0].pair() == sp);
            }
        }
        while stack.len() > 0
            invariant
                self.wf(),
                g == self@,
                sp == seed.pair(),
                in_board(sp.0, sp.1),
                at(g, sp.0, sp.1) == Some(k),
                vis@.len() == BOARD_CELLS,
                vis_at(vis@, sp.0, sp.1),
                sound(g, sp, vis@),
                stack_ok(vis@, stack@),
                forall|c: int, r: int|
                    in_board(c, r) && #[trigger] vis_at(vis@, c, r) ==> closed_at(g, k, vis@, c, r)
                        || in_stack(stack@, c, r),
            decreases 2 * count_false(vis@) + stack@.len(),
        {
            let ghost vis0 = vis@;
            let ghost stack0 = stack@;
            let p = match stack.pop() {
                Some(p) => p,
                None => seed,
            };
            let ghost pp = p.pair();
            let ghost s0 = stack@;
            proof {
                assert(stack0[stack0.len() - 1] == p);
                assert(in_board(pp.0, pp.1));
                assert(vis_at(vis0, pp.0, pp.1));
                assert forall|c: int, r: int| in_board(c, r) && #[trigger] vis_at(vis0, c, r) implies closed_at(g, k, vis0, c, r) || in_stack(s0, c, r) || (c, r) == pp by {
                    if in_stack(stack0, c, r) && (c, r) != pp {
                        let j = choose|j: int| 0 <= j < stack0.len() && (#[trigger] stack0[j]).pair() == (c, r);
                        assert(j < s0.len());
                        assert(s0[j] == stack0[j]);
                    }
                }
                assert forall|j: int| 0 <= j < s0.len() implies in_board((#[trigger] s0[j]).col as int, s0[j].row as int)
                    && vis_at(vis0, s0[j].col as int, s0[j].row as int) by {
                    assert(s0[j] == stack0[j]);
                }
            }
            if p.col > 0 {
                self.visit(k, p.col - 1, p.row, &mut vis, &mut stack);
                proof {
                    lemma_visit_step(g, k, sp, pp, Position { col: (p.col - 1) as usize, row: p.row }, vis0, s0, vis@, stack@);
                }
            }
            let ghost vis1 = vis@;
            let ghost s1 = stack@;
            if p.col + 1 < BOARD_WIDTH {
                self.visit(k, p.col + 1, p.row, &mut vis, &mut stack);
                proof {
                    lemma_visit_step(g, k, sp, pp, Position { col: (p.col + 1) as usize, row: p.row }, vis1, s1, vis@, stack@);
                }
            }
            let ghost vis2 = vis@;
            let ghost s2 = stack@;
            if p.row > 0 {
                self.visit(k, p.col, p.row - 1, &mut vis, &mut stack);
                proof {
                    lemma_visit_step(g, k, sp, pp, Position { col: p.col, row: (p.row - 1) as usize }, vis2, s2, vis@, stack@);
                }
            }
            let ghost vis3 = vis@;
            let ghost s3 = stack@;
            if p.row + 1 < BOARD_HEIGHT {
                self.visit(k, p.col, p.row + 1, &mut vis, &mut stack);
                proof {
                    lemma_visit_step(g, k, sp, pp, Position { col: p.col, row: (p.row + 1) as usize }, vis3, s3, vis@, stack@);
                }
            }
            proof {
                assert(vis_at(vis@, sp.0, sp.1));
                assert(closed_at(g, k, vis@, pp.0, pp.1));
                assert forall|c: int, r: int| in_board(c, r) && #[trigger] vis_at(vis@, c, r) implies closed_at(g, k, vis@, c, r) || in_stack(stack@, c, r) by {
                    if (c, r) == pp {
                        assert(closed_at(g, k, vis@, pp.0, pp.1));
                    }
                }
            }
        }
        proof {
            assert forall|c: int, r: int| in_board(c, r) implies #[trigger] vis_at(vis@, c, r) == in_cluster(g, sp, c, r) by {
                if in_cluster(g, sp, c, r) {
                    let w = choose|w: Seq<(int, int)>| #[trigger] is_walk(g, k, w) && w[0] == sp && w.last() == (c, r);
                    assert forall|c2: int, r2: int| in_board(c2, r2) && #[trigger] vis_at(vis@, c2, r2) implies closed_at(g, k, vis@, c2, r2) by {
                        if in_stack(stack@, c2, r2) {
                            let j = choose|j: int| 0 <= j < stack@.len() && (#[trigger] stack@[j]).pair() == (c2, r2);
                        }
                    }
                    lemma_walk_marked(g, k, vis@, w);
                }
            }
            assert forall|i: int| 0 <= i < BOARD_CELLS implies vis@[i] == cluster_mask(g, sp)[i] by {
                lemma_cell_index(i);
                assert(vis_at(vis@, i / 12, i % 12) == in_cluster(g, sp, i / 12, i % 12));
            }
            assert(vis@ =~= cluster_mask(g, sp));
        }
        vis
    }

    /// Resolves a merge request at `seed`: when a token lies there and its
    /// cluster is at least the kind's merge threshold, the cluster is removed
    /// and its highest-ranked cell gets the next kind of the ladder, if any.
    /// Otherwise nothing changes.
    pub fn merge_at(&mut self, seed: Position) -> (r: bool)
        requires
            old(self).wf(),
        ensures
            final(self).wf(),
            r == merges(old(self)@, seed.pair()),
            !r ==> final(self)@ == old(self)@,
            r ==> exists|t: (int, int)|
                {
                    &&& is_merge_target(old(self)@, seed.pair(), t)
                    &&& forall|c: int, rr: int|
                        in_board(c, rr) ==> #[trigger] at(final(self)@, c, rr) == merged_cell(
                            old(self)@,
                            seed.pair(),
                            t,
                            c,
                            rr,
                        )
                },
    {
        let ghost g = self@;
        let ghost sp = seed.pair();
        if seed.col >= BOARD_WIDTH || seed.row >= BOARD_HEIGHT {
            return false;
        }
        let k = match self.get(seed.col, seed.row) {
            Some(t) => t,
            None => {
                return false;
            },
        };
        let vis = self.get_connected(seed);
        let mut count: usize = 0;
        let mut best = seed;
        let mut i: usize = 0;
        while i < BOARD_CELLS
            invariant
                vis@ == cluster_mask(g, sp),
                i <= BOARD_CELLS,
                count == count_true(vis@.take(i as int)),
                count <= i,
                count > 0 ==> in_board(best.col as int, best.row as int) && vis_at(
                    vis@,
                    best.col as int,
                    best.row as int,
                ),
                forall|j: int|
                    0 <= j < i && #[trigger] vis@[j] ==> count > 0 && ((j / 12, j % 12) == best.pair()
                        || ranks_below((j / 12, j % 12), best.pair())),
            decreases BOARD_CELLS - i,
        {
            assert(vis@.take(i + 1).drop_last() =~= vis@.take(i as int));
            if vis[i] {
                let q = Position { col: i / BOARD_HEIGHT, row: i % BOARD_HEIGHT };
                proof {
                    lemma_cell_index(i as int);
                }
                if count == 0 || best.ranks_below(&q) {
                    best = q;
                }
                count = count + 1;
            }
            i = i + 1;
        }
        assert(vis@.take(BOARD_CELLS as int) =~= vis@);
        if count < k.get_merge_count() {
            return false;
        }
        let ghost bp = best.pair();
        proof {
            assert forall|c: int, rr: int| in_board(c, rr) && #[trigger] in_cluster(g, sp, c, rr) && (c, rr) != bp implies ranks_below((c, rr), bp) by {
                lemma_index_cell(c, rr);
                assert(vis@[idx(c, rr)]);
            }
            lemma_index_cell(bp.0, bp.1);
            assert(vis@[idx(bp.0, bp.1)]);
            assert(is_merge_target(g, sp, bp));
        }
        let mut j: usize = 0;
        while j < BOARD_CELLS
            invariant
                vis@ == cluster_mask(g, sp),
                j <= BOARD_CELLS,
                self.wf(),
                forall|x: int|
                    0 <= x < BOARD_CELLS ==> #[trigger] self@[x] == if x < j && vis@[x] {
                        None
                    } else {
                        g[x]
                    },
            decreases BOARD_CELLS - j,
        {
            if vis[j] {
                proof {
                    lemma_cell_index(j as int);
                }
                self.set(j / BOARD_HEIGHT, j % BOARD_HEIGHT, None);
            }
            j = j + 1;
        }
        if let Some(up) = k.get_upgrade() {
            self.set(best.col, best.row, Some(up));
        }
        proof {
            assert forall|c: int, rr: int| in_board(c, rr) implies #[trigger] at(self@, c, rr) == merged_cell(g, sp, bp, c, rr) by {
                lemma_index_cell(c, rr);
                assert(vis@[idx(c, rr)] == in_cluster(g, sp, c, rr));
            }
        }
        true
    }
}

} // verus!
