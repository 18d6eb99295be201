//! The world view: a read-only mapping from block locations to simple
//! block kinds.  A lookup outside the loaded region answers `None`, which
//! the move generator must propagate as an `Edge` result.

use vstd::prelude::*;

use crate::types::{BlockLocation, SimpleType};

verus! {

/// The block store the pathfinding core consults.  Cells that were never
/// set are outside the loaded region: [`WorldBlocks::get_simple`] answers
/// `None` for them.
pub struct WorldBlocks {
    cells: Vec<(BlockLocation, SimpleType)>,
}

impl WorldBlocks {
    /// The mapping this store represents: later entries shadow earlier
    /// ones for the same location.
    pub closed spec fn view_of(cells: Seq<(BlockLocation, SimpleType)>) -> Map<
        BlockLocation,
        SimpleType,
    >
        decreases cells.len(),
    {
        if cells.len() == 0 {
            Map::empty()
        } else {
            Self::view_of(cells.drop_last()).insert(cells.last().0, cells.last().1)
        }
    }

    /// An empty world: every lookup answers `None`.
    pub fn new() -> (r: WorldBlocks)
        ensures
            r@ == Map::<BlockLocation, SimpleType>::empty(),
    {
        let r = WorldBlocks { cells: Vec::new() };
        proof {
            assert(r@ =~= Map::<BlockLocation, SimpleType>::empty());
        }
        r
    }

    /// Loads `kind` at `loc`, shadowing whatever was there.
    pub fn set_block(&mut self, loc: BlockLocation, kind: SimpleType)
        ensures
            final (self)@ == old(self)@.insert(loc, kind),
    {
        self.cells.push((loc, kind));
        proof {
            assert(self.cells@.drop_last() =~= old(self).cells@);
        }
    }

    /// The simple kind at `loc`, or `None` when `loc` is outside the
    /// loaded region.
    pub fn get_simple(&self, loc: BlockLocation) -> (r: Option<SimpleType>)
        ensures
            r == spec_get(self@, loc),
    {
        let n = self.cells.len();
        let mut i: usize = 0;
        let mut found: Option<usize> = None;
        while i < n
            invariant
                i <= n,
                n == self.cells.len(),
                match found {
                    Some(j) => j < i && self.cells@[j as int].0 == loc && (forall|k: int|
                        j < k < i ==> #[trigger] self.cells@[k].0 != loc),
                    None => forall|k: int| 0 <= k < i ==> #[trigger] self.cells@[k].0 != loc,
                },
            decreases n - i,
        {
            let (l, _) = self.cells[i];
            if l == loc {
                found = Some(i);
            }
            i = i + 1;
        }
        match found {
            Some(j) => {
                proof {
                    Self::lemma_view_of_found(self.cells@, loc, j as int);
                }
                Some(self.cells[j].1)
            },
            None => {
                proof {
                    Self::lemma_view_of_absent(self.cells@, loc);
                }
                None
            },
        }
    }

    proof fn lemma_view_of_found(cells: Seq<(BlockLocation, SimpleType)>, loc: BlockLocation, i: int)
        requires
            0 <= i < cells.len(),
            cells[i].0 == loc,
            forall|k: int| i < k < cells.len() ==> #[trigger] cells[k].0 != loc,
        ensures
            Self::view_of(cells).contains_key(loc),
            Self::view_of(cells)[loc] == cells[i].1,
        decreases cells.len(),
    {
        if i == cells.len() - 1 {
        } else {
            Self::lemma_view_of_found(cells.drop_last(), loc, i);
        }
    }

    proof fn lemma_view_of_absent(cells: Seq<(BlockLocation, SimpleType)>, loc: BlockLocation)
        requires
            forall|k: int| 0 <= k < cells.len() ==> #[trigger] cells[k].0 != loc,
        ensures
            !Self::view_of(cells).contains_key(loc),
        decreases cells.len(),
    {
        if cells.len() > 0 {
            Self::lemma_view_of_absent(cells.drop_last(), loc);
        }
    }
}

impl View for WorldBlocks {
    type V = Map<BlockLocation, SimpleType>;

    closed spec fn view(&self) -> Map<BlockLocation, SimpleType> {
        Self::view_of(self.cells@)
    }
}

/// What a lookup in world `w` at `loc` answers.
pub open spec fn spec_get(w: Map<BlockLocation, SimpleType>, loc: BlockLocation) -> Option<
    SimpleType,
> {
    if w.contains_key(loc) {
        Some(w[loc])
    } else {
        None
    }
}

} // verus!
