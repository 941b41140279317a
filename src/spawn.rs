//! Weighted spawner: a cumulative-weight table over the catalog, one uniform
//! draw, and a binary search from the draw to a kind.
use vstd::prelude::*;
use crate::catalog::{ObjInfo, ObjType};

verus! {

/// Sum of the weights of the first `n` entries.
pub open spec fn weight_sum(infos: Seq<ObjInfo>, n: int) -> int
    decreases n,
{
    if n <= 0 || infos.len() == 0 {
        0
    } else {
        weight_sum(infos, n - 1) + infos[n - 1].weight as int
    }
}

/// Sum of all weights.
pub open spec fn total_weight(infos: Seq<ObjInfo>) -> int {
    weight_sum(infos, infos.len() as int)
}

/// A draw `x` selects entry `i` when it falls in `[weight_sum(i), weight_sum(i + 1))`.
pub open spec fn selects(infos: Seq<ObjInfo>, x: int, i: int) -> bool {
    &&& 0 <= i < infos.len()
    &&& weight_sum(infos, i) <= x < weight_sum(infos, i + 1)
}

/// Whether some draw in `[0, total)` yields `t`.
pub open spec fn drawable(infos: Seq<ObjInfo>, t: ObjType) -> bool {
    exists|x: int| 0 <= x < total_weight(infos) && kind_for_draw(infos, x, t)
}

/// Kinds that a draw `x` can yield.
pub open spec fn kind_for_draw(infos: Seq<ObjInfo>, x: int, t: ObjType) -> bool {
    exists|i: int| selects(infos, x, i) && infos[i].obj_type == t
}

pub proof fn lemma_weight_sum_monotone(infos: Seq<ObjInfo>, i: int, j: int)
    requires
        0 <= i <= j,
    ensures
        weight_sum(infos, i) <= weight_sum(infos, j),
    decreases j - i,
{
    if i < j {
        lemma_weight_sum_monotone(infos, i, j - 1);
    }
}

/// Why a catalog cannot be used to spawn tokens.
#[derive(Debug, Clone, Copy, PartialEq, Eq, Structural)]
pub enum CatalogError {
    /// The catalog has no entry.
    Empty,
    /// Every weight is zero.
    ZeroTotal,
    /// The weights sum past `u64::MAX`.
    Overflow,
}

/// The catalog with the running sums of its weights.
pub struct SpawnTable {
    infos: Vec<ObjInfo>,
    bounds: Vec<u64>,
}

impl SpawnTable {
    pub closed spec fn view(&self) -> Seq<ObjInfo> {
        self.infos@
    }

    pub closed spec fn wf(&self) -> bool {
        &&& self.infos@.len() > 0
        &&& self.bounds@.len() == self.infos@.len()
        &&& forall|i: int|
            0 <= i < self.bounds@.len() ==> #[trigger] self.bounds@[i] == weight_sum(
                self.infos@,
                i + 1,
            )
        &&& total_weight(self.infos@) > 0
    }

    /// Total weight of the table.
    pub open spec fn total(&self) -> int {
        total_weight(self@)
    }

    /// Builds the table, refusing a catalog that is empty, sums to zero, or
    /// whose sum does not fit in `u64`.
    pub fn new(infos: &Vec<ObjInfo>) -> (r: Result<SpawnTable, CatalogError>)
        ensures
            infos@.len() == 0 ==> r == Err::<SpawnTable, CatalogError>(CatalogError::Empty),
            infos@.len() > 0 && total_weight(infos@) > u64::MAX ==> r == Err::<
                SpawnTable,
                CatalogError,
            >(CatalogError::Overflow),
            infos@.len() > 0 && total_weight(infos@) == 0 ==> r == Err::<
                SpawnTable,
                CatalogError,
            >(CatalogError::ZeroTotal),
            r is Ok <==> (infos@.len() > 0 && 0 < total_weight(infos@) <= u64::MAX),
            r matches Ok(t) ==> t.wf() && t@ == infos@,
    {
        if infos.len() == 0 {
            return Err(CatalogError::Empty);
        }
        let mut bounds: Vec<u64> = Vec::new();
        let mut sum: u64 = 0;
        let mut i: usize = 0;
        while i < infos.len()
            invariant
                i <= infos@.len(),
                bounds@.len() == i,
                sum == weight_sum(infos@, i as int),
                forall|j: int| 0 <= j < i ==> #[trigger] bounds@[j] == weight_sum(infos@, j + 1),
            decreases infos@.len() - i,
        {
            let w = infos[i].weight as u64;
            match sum.checked_add(w) {
                Some(s) => {
                    sum = s;
                },
                None => {
                    proof {
                        lemma_weight_sum_monotone(infos@, i + 1, infos@.len() as int);
                    }
                    return Err(CatalogError::Overflow);
                },
            }
            bounds.push(sum);
            i = i + 1;
        }
        if sum == 0 {
            return Err(CatalogError::ZeroTotal);
        }
        Ok(SpawnTable { infos: infos.clone(), bounds })
    }

    /// The kind that a draw `x` in `[0, total)` selects.
    pub fn pick(&self, x: u64) -> (r: ObjType)
        requires
            self.wf(),
            x < self.total(),
        ensures
            kind_for_draw(self@, x as int, r),
    {
        let n = self.bounds.len();
        let mut lo: usize = 0;
        let mut hi: usize = n - 1;
        while lo < hi
            invariant
                self.wf(),
                x < self.total(),
                n == self.bounds@.len(),
                lo <= hi < n,
                x < weight_sum(self@, hi + 1),
                weight_sum(self@, lo as int) <= x,
            decreases hi - lo,
        {
            let mid = lo + (hi - lo) / 2;
            if x < self.bounds[mid] {
                hi = mid;
            } else {
                lo = mid + 1;
            }
        }
        proof {
            assert(selects(self@, x as int, lo as int));
        }
        self.infos[lo].obj_type
    }

    /// Draws one kind at random, each entry with probability proportional to
    /// its weight.
    pub fn draw(&self) -> (r: ObjType)
        requires
            self.wf(),
        ensures
            drawable(self@, r),
    {
        let total = self.bounds[self.bounds.len() - 1];
        let x = random_below(total);
        self.pick(x)
    }

    /// Draws `n` kinds, one after the other.
    pub fn draw_many(&self, n: usize) -> (r: Vec<ObjType>)
        requires
            self.wf(),
        ensures
            r@.len() == n,
            forall|i: int| 0 <= i < n ==> drawable(self@, #[trigger] r@[i]),
    {
        let mut r: Vec<ObjType> = Vec::new();
        let mut i: usize = 0;
        while i < n
            invariant
                self.wf(),
                i <= n,
                r@.len() == i,
                forall|j: int| 0 <= j < i ==> drawable(self@, #[trigger] r@[j]),
            decreases n - i,
        {
            let t = self.draw();
            r.push(t);
            i = i + 1;
        }
        r
    }
}

/// Relies on `rand::thread_rng` and `rand::Rng::gen_range`: a uniform value in
/// `[0, bound)`; `gen_range` panics only on an empty range.
#[verifier::external_body]
fn random_below(bound: u64) -> (r: u64)
    requires
        bound > 0,
    ensures
        r < bound,
{
    rand::Rng::gen_range(&mut rand::thread_rng(), 0..bound)
}

} // verus!
