//! The search's output: the path and whether it reached the goal, and
//! the merge rule that splices a freshly finished recomputation into a
//! running follower.

use vstd::prelude::*;

use crate::context::BlockRecord;
use crate::types::BlockLocation;

verus! {

/// An ordered sequence of records from start to end.  A `complete`
/// result reaches a goal; an incomplete result is the best-effort
/// prefix toward the lowest-heuristic node reached so far.
#[derive(Clone, Debug)]
pub struct PathResult<R> {
    pub complete: bool,
    pub path: Vec<R>,
}

/// The first index at or after `k` whose record sits at `at`.
pub open spec fn first_match_from(s: Seq<BlockRecord>, at: BlockLocation, k: int) -> Option<int>
    decreases s.len() - k when 0 <= k <= s.len()
{
    if k >= s.len() {
        None
    } else if s[k].state.location == at {
        Some(k)
    } else {
        first_match_from(s, at, k + 1)
    }
}

/// The first index of the path whose record sits at `at`.
pub open spec fn first_match(s: Seq<BlockRecord>, at: BlockLocation) -> Option<int> {
    first_match_from(s, at, 0)
}

impl PathResult<BlockRecord> {
    /// The merge rule for a recomputed path: the remaining sequence of a
    /// follower standing at `current`.  When the new path passes through
    /// `current`, the suffix from that first visit onward replaces the
    /// follower's remainder; otherwise the whole path does, and the
    /// second component signals the discontinuity.
    pub fn merge_from(&self, current: BlockLocation) -> (r: (Vec<BlockRecord>, bool))
        ensures
            match first_match(self.path@, current) {
                Some(i) => r.1 == false && r.0@ == self.path@.skip(i),
                None => r.1 == true && r.0@ == self.path@,
            },
    {
        let n = self.path.len();
        let mut k: usize = 0;
        while k < n
            invariant
                0 <= k <= n,
                n == self.path@.len(),
                first_match(self.path@, current) == first_match_from(self.path@, current, k as int),
            decreases n - k,
        {
            if self.path[k].state.location == current {
                let mut out: Vec<BlockRecord> = Vec::new();
                let mut j: usize = k;
                while j < n
                    invariant
                        k <= j <= n,
                        n == self.path@.len(),
                        out@ == self.path@.subrange(k as int, j as int),
                    decreases n - j,
                {
                    let rec = self.path[j];
                    proof {
                        assert(out@.push(rec) =~= self.path@.subrange(k as int, j + 1));
                    }
                    out.push(rec);
                    j = j + 1;
                }
                proof {
                    assert(out@ =~= self.path@.skip(k as int));
                }
                return (out, false);
            }
            k = k + 1;
        }
        let mut out: Vec<BlockRecord> = Vec::new();
        let mut j: usize = 0;
        while j < n
            invariant
                0 <= j <= n,
                n == self.path@.len(),
                out@ == self.path@.subrange(0, j as int),
            decreases n - j,
        {
            let rec = self.path[j];
            proof {
                assert(out@.push(rec) =~= self.path@.subrange(0, j + 1));
            }
            out.push(rec);
            j = j + 1;
        }
        proof {
            assert(out@ =~= self.path@);
        }
        (out, true)
    }
}

} // verus!
