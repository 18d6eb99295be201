//! A fixed-radius grid indexed by signed offsets: every `(dx, dz)` with
//! `|dx| <= R` and `|dz| <= R` is addressable.  Used transiently during
//! parkour expansion to mark which cells are still reachable.

use vstd::prelude::*;

verus! {

/// The flat index of offset `(dx, dz)` in a grid of radius `r`.
pub open spec fn spec_idx(r: int, dx: int, dz: int) -> int {
    (dx + r) * (2 * r + 1) + (dz + r)
}

proof fn lemma_idx_bounds(r: int, dx: int, dz: int)
    by (nonlinear_arith)
    requires
        r >= 0,
        -r <= dx <= r,
        -r <= dz <= r,
    ensures
        0 <= spec_idx(r, dx, dz) < (2 * r + 1) * (2 * r + 1),
{
}

proof fn lemma_idx_injective(r: int, dx1: int, dz1: int, dx2: int, dz2: int)
    by (nonlinear_arith)
    requires
        r >= 0,
        -r <= dx1 <= r,
        -r <= dz1 <= r,
        -r <= dx2 <= r,
        -r <= dz2 <= r,
        !(dx1 == dx2 && dz1 == dz2),
    ensures
        spec_idx(r, dx1, dz1) != spec_idx(r, dx2, dz2),
{
}

/// A `(2R + 1) x (2R + 1)` grid addressed by offsets in `[-R, R]`, with
/// O(1) access.
pub struct CenteredArray<T, const R: usize> {
    cells: Vec<T>,
}

impl<T: Copy, const R: usize> CenteredArray<T, R> {
    /// The grid holds a cell for every addressable offset.
    pub closed spec fn wf(self) -> bool {
        &&& R <= 10000
        &&& self.cells@.len() == (2 * (R as int) + 1) * (2 * (R as int) + 1)
    }

    /// The value stored at offset `(dx, dz)`.
    pub closed spec fn at(self, dx: int, dz: int) -> T {
        self.cells@[spec_idx(R as int, dx, dz)]
    }

    /// A grid with every cell set to `fill`.
    pub fn init(fill: T) -> (r: Self)
        requires
            R <= 10000,
        ensures
            r.wf(),
            forall|dx: int, dz: int|
                -(R as int) <= dx <= R as int && -(R as int) <= dz <= R as int ==> #[trigger] r.at(
                    dx,
                    dz,
                ) == fill,
    {
        let side: usize = 2 * R + 1;
        proof {
            assert(side * side == (2 * (R as int) + 1) * (2 * (R as int) + 1) && side * side
                < usize::MAX) by (nonlinear_arith)
                requires
                    side == 2 * (R as int) + 1,
                    R <= 10000,
            ;
        }
        let total: usize = side * side;
        let mut cells: Vec<T> = Vec::new();
        let mut i: usize = 0;
        while i < total
            invariant
                i <= total,
                cells@.len() == i,
                forall|k: int| 0 <= k < i ==> (#[trigger] cells@[k]) == fill,
            decreases total - i,
        {
            cells.push(fill);
            i = i + 1;
        }
        let r = CenteredArray { cells };
        proof {
            assert forall|dx: int, dz: int|
                -(R as int) <= dx <= R as int && -(R as int) <= dz
                    <= R as int implies #[trigger] r.at(dx, dz) == fill by {
                lemma_idx_bounds(R as int, dx, dz);
            }
        }
        r
    }

    fn flat_index(dx: i32, dz: i32) -> (r: usize)
        requires
            R <= 10000,
            -(R as int) <= dx <= R as int,
            -(R as int) <= dz <= R as int,
        ensures
            r == spec_idx(R as int, dx as int, dz as int),
            r < (2 * (R as int) + 1) * (2 * (R as int) + 1),
    {
        proof {
            lemma_idx_bounds(R as int, dx as int, dz as int);
            assert((dx + R as i32) * (2 * (R as i32) + 1) + (dz + R as i32) == spec_idx(
                R as int,
                dx as int,
                dz as int,
            )) by (nonlinear_arith)
                requires
                    R <= 10000,
                    -(R as int) <= dx <= R as int,
                    -(R as int) <= dz <= R as int,
            ;
        }
        let xi: usize = (dx + R as i32) as usize;
        let zi: usize = (dz + R as i32) as usize;
        let side: usize = 2 * R + 1;
        proof {
            assert(xi * side + zi == spec_idx(R as int, dx as int, dz as int) && xi * side + zi
                < usize::MAX) by (nonlinear_arith)
                requires
                    R <= 10000,
                    xi == dx + R as int,
                    zi == dz + R as int,
                    side == 2 * (R as int) + 1,
                    -(R as int) <= dx <= R as int,
                    -(R as int) <= dz <= R as int,
            ;
        }
        xi * side + zi
    }

    /// Reads the cell at `(dx, dz)`; the offsets must be in range.
    pub fn get(&self, dx: i32, dz: i32) -> (r: T)
        requires
            self.wf(),
            -(R as int) <= dx <= R as int,
            -(R as int) <= dz <= R as int,
        ensures
            r == self.at(dx as int, dz as int),
    {
        let i = Self::flat_index(dx, dz);
        self.cells[i]
    }

    /// Stores `v` at `(dx, dz)`; the offsets must be in range.  Every
    /// other cell keeps its value.
    pub fn set(&mut self, dx: i32, dz: i32, v: T)
        requires
            old(self).wf(),
            -(R as int) <= dx <= R as int,
            -(R as int) <= dz <= R as int,
        ensures
            final (self).wf(),
            final (self).at(dx as int, dz as int) == v,
            forall|a: int, b: int|
                -(R as int) <= a <= R as int && -(R as int) <= b <= R as int && !(a == dx && b
                    == dz) ==> #[trigger] final (self).at(a, b) == old(self).at(a, b),
    {
        let i = Self::flat_index(dx, dz);
        self.cells.set(i, v);
        proof {
            assert forall|a: int, b: int|
                -(R as int) <= a <= R as int && -(R as int) <= b <= R as int && !(a == dx as int && b
                    == dz as int) implies #[trigger] self.at(a, b) == old(self).at(a, b) by {
                lemma_idx_bounds(R as int, a, b);
                lemma_idx_injective(R as int, a, b, dx as int, dz as int);
            }
        }
    }
}

} // verus!
