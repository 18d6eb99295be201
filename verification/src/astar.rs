//! The time-sliced A* engine: a best-first search over an arena of
//! nodes, driven by per-call deadlines, with stable tie-breaking and
//! path reconstruction through parent handles.
//!
//! The engine's guarantees hold for every heuristic, goal check and
//! expander: the arena keeps one entry per location, parent links
//! strictly decrease the path cost `g` (so reconstruction terminates),
//! and a node re-enters the open set only with a strictly smaller `g` —
//! hence no node is ever expanded twice at a worse cost.

use vstd::prelude::*;

use crate::context::{BlockNode, BlockRecord, MoveState};
use crate::moves::{neighbor_view, Neighbor, Progression};
use crate::path::PathResult;
use crate::timing::Increment;
use crate::traits::{GoalCheck, Heuristic, Progressor};
use crate::types::BlockLocation;

verus! {

/// The per-call iteration budget: even with a generous deadline one
/// call expands at most this many nodes before yielding `InProgress`.
pub const MAX_EXPANSIONS_PER_CALL: usize = 100000;

/// The default per-call soft time budget, in milliseconds.
pub const DEFAULT_MAX_MILLIS: u128 = 50;

/// Relies on `std::time::SystemTime::now` for the tick clock; nothing
/// is assumed of the returned value.
#[verifier::external_body]
fn now_millis() -> u128 {
    std::time::SystemTime::now().duration_since(std::time::UNIX_EPOCH).map_or(
        0,
        |d| d.as_millis(),
    )
}

/// One arena record of the search: a location with its best known path
/// cost `g`, its heuristic value `h`, the handle of the entry it was
/// best reached from, and whether it waits in the open set.
#[derive(Clone, Copy, Debug)]
pub struct SearchEntry {
    pub loc: BlockLocation,
    pub g: u64,
    pub h: u64,
    pub parent: Option<usize>,
    pub open: bool,
}

/// The record of a search node at `loc`.
pub open spec fn record_of(loc: BlockLocation) -> BlockRecord {
    BlockRecord { state: MoveState { location: loc } }
}

/// The priority of an entry: its path cost plus its heuristic value.
pub open spec fn f_of(e: SearchEntry) -> int {
    e.g + e.h
}

/// The open set holds handle `i`.
pub open spec fn open_has(op: Seq<usize>, i: int) -> bool {
    exists|k: int| 0 <= k < op.len() && op[k] == i
}

/// Some expansion of `loc` is on record.
pub open spec fn log_has(log: Seq<(BlockLocation, u64)>, loc: BlockLocation) -> bool {
    exists|k: int| 0 <= k < log.len() && (#[trigger] log[k]).0 == loc
}

/// The `g` at which `loc` was last expanded.
pub open spec fn last_log_g(log: Seq<(BlockLocation, u64)>, loc: BlockLocation) -> u64
    decreases log.len(),
{
    if log.len() == 0 {
        0
    } else if log.last().0 == loc {
        log.last().1
    } else {
        last_log_g(log.drop_last(), loc)
    }
}

/// Repeated expansions of one location carry strictly decreasing `g`.
pub open spec fn log_decreasing(log: Seq<(BlockLocation, u64)>) -> bool {
    forall|k1: int, k2: int|
        0 <= k1 < k2 < log.len() && (#[trigger] log[k1]).0 == (#[trigger] log[k2]).0 ==> log[k2].1
            < log[k1].1
}

/// In a decreasing log the last expansion of `loc` is its cheapest.
proof fn lemma_last_log_min(log: Seq<(BlockLocation, u64)>, loc: BlockLocation, k: int)
    requires
        log_decreasing(log),
        0 <= k < log.len(),
        log[k].0 == loc,
    ensures
        log_has(log, loc),
        last_log_g(log, loc) <= log[k].1,
    decreases log.len(),
{
    if log.last().0 == loc {
    } else {
        assert(k < log.len() - 1);
        assert(log.drop_last()[k] == log[k]);
        lemma_last_log_min(log.drop_last(), loc, k);
    }
}

/// Appending an expansion updates the last-`g` map pointwise.
proof fn lemma_log_push(log: Seq<(BlockLocation, u64)>, p: (BlockLocation, u64), loc: BlockLocation)
    ensures
        log_has(log.push(p), loc) == (log_has(log, loc) || p.0 == loc),
        last_log_g(log.push(p), loc) == if p.0 == loc {
            p.1
        } else {
            last_log_g(log, loc)
        },
{
    let lp = log.push(p);
    assert(lp.drop_last() =~= log);
    assert(lp.last() == p);
    if log_has(log, loc) {
        let k = choose|k: int| 0 <= k < log.len() && (#[trigger] log[k]).0 == loc;
        assert(lp[k] == log[k]);
        assert(log_has(lp, loc));
    }
    if p.0 == loc {
        assert(lp[log.len() as int] == p);
        assert(log_has(lp, loc));
    }
    if log_has(lp, loc) && !(p.0 == loc) {
        let k = choose|k: int| 0 <= k < lp.len() && (#[trigger] lp[k]).0 == loc;
        assert(k < log.len());
        assert(log[k] == lp[k]);
        assert(log_has(log, loc));
    }
}

/// The arena's parent forest: the start entry is the unique root, and
/// every parent link strictly decreases the path cost `g`.
pub open spec fn parents_ok(es: Seq<SearchEntry>) -> bool {
    &&& 1 <= es.len()
    &&& es[0].parent is None
    &&& es[0].g == 0
    &&& forall|i: int| 1 <= i < es.len() ==> (#[trigger] es[i]).parent is Some
    &&& forall|i: int|
        0 <= i < es.len() ==> ((#[trigger] es[i]).parent matches Some(p) ==> p < es.len()
            && es[p as int].g < es[i].g)
}

/// One arena entry per location.
#[verifier::opaque]
pub open spec fn locs_unique(es: Seq<SearchEntry>) -> bool {
    forall|i: int, j: int|
        0 <= i < j < es.len() ==> (#[trigger] es[i]).loc != (#[trigger] es[j]).loc
}

/// The open list holds exactly the handles of the open entries, each
/// once, in insertion order.
#[verifier::opaque]
pub open spec fn open_ok(es: Seq<SearchEntry>, op: Seq<usize>) -> bool {
    &&& forall|k: int| 0 <= k < op.len() ==> (#[trigger] op[k]) < es.len()
    &&& forall|k: int| 0 <= k < op.len() ==> es[(#[trigger] op[k]) as int].open
    &&& forall|k1: int, k2: int|
        0 <= k1 < k2 < op.len() ==> (#[trigger] op[k1]) != (#[trigger] op[k2])
    &&& forall|i: int| 0 <= i < es.len() && (#[trigger] es[i]).open ==> open_has(op, i)
}

/// The expansion log strictly improves per location and stays in step
/// with the arena: a closed entry's `g` is its last logged `g`, an open
/// entry undercuts its last logged `g`, and every logged location has
/// an arena entry.
#[verifier::opaque]
pub open spec fn log_ok(es: Seq<SearchEntry>, log: Seq<(BlockLocation, u64)>) -> bool {
    &&& log_decreasing(log)
    &&& forall|i: int|
        0 <= i < es.len() && !(#[trigger] es[i]).open ==> log_has(log, es[i].loc) && last_log_g(
            log,
            es[i].loc,
        ) == es[i].g
    &&& forall|i: int|
        0 <= i < es.len() && (#[trigger] es[i]).open && log_has(log, es[i].loc) ==> es[i].g
            < last_log_g(log, es[i].loc)
    &&& forall|k: int|
        0 <= k < log.len() ==> exists|i: int|
            0 <= i < es.len() && es[i].loc == (#[trigger] log[k]).0
}

/// Updating one entry without touching its location keeps the arena's
/// locations unique.
proof fn lemma_update_locs_unique(es0: Seq<SearchEntry>, es: Seq<SearchEntry>, j: int)
    requires
        locs_unique(es0),
        es.len() == es0.len(),
        0 <= j < es0.len(),
        forall|i: int| 0 <= i < es.len() && i != j ==> es[i] == es0[i],
        es[j].loc == es0[j].loc,
    ensures
        locs_unique(es),
{
    reveal(locs_unique);
    assert forall|i1: int, i2: int| 0 <= i1 < i2 < es.len() implies (#[trigger] es[i1]).loc != (
    #[trigger] es[i2]).loc by {
        assert(es[i1].loc == es0[i1].loc && es[i2].loc == es0[i2].loc);
    }
}

/// Reopening or improving one entry keeps the open list exact: when it
/// was closed its handle is appended, else the list stays.
proof fn lemma_update_open_ok(
    es0: Seq<SearchEntry>,
    es: Seq<SearchEntry>,
    op0: Seq<usize>,
    op: Seq<usize>,
    j: int,
    was_open: bool,
)
    requires
        open_ok(es0, op0),
        es.len() == es0.len(),
        es0.len() <= usize::MAX,
        0 <= j < es0.len(),
        forall|i: int| 0 <= i < es.len() && i != j ==> es[i] == es0[i],
        es[j].open == true,
        was_open == es0[j].open,
        op == if was_open {
            op0
        } else {
            op0.push(j as usize)
        },
    ensures
        open_ok(es, op),
{
    reveal(open_ok);
    if !was_open {
        assert forall|k: int| 0 <= k < op0.len() implies (#[trigger] op0[k]) != j as usize by {
            assert(es0[op0[k] as int].open);
            assert(!es0[j].open);
        }
        assert forall|k: int| 0 <= k < op0.len() implies op[k] == (#[trigger] op0[k]) by {
            assert(op == op0.push(j as usize));
        }
        assert(op[op.len() - 1] == j as usize);
    }
    assert forall|k: int| 0 <= k < op.len() implies es[(#[trigger] op[k]) as int].open by {
        if op[k] != j as usize {
            assert(es[op[k] as int] == es0[op[k] as int]);
        }
    }
    assert forall|i: int| 0 <= i < es.len() && (#[trigger] es[i]).open implies open_has(op, i) by {
        if i == j {
            if was_open {
                assert(open_has(op0, i));
                let kk = choose|kk: int| 0 <= kk < op0.len() && op0[kk] == i;
                assert(op[kk] == i);
            } else {
                assert(op[op.len() - 1] == i);
            }
        } else {
            assert(es0[i].open);
            let kk = choose|kk: int| 0 <= kk < op0.len() && op0[kk] == i;
            assert(op[kk] == i);
        }
    }
}

/// Lowering one entry's `g` below its last logged expansion keeps the
/// log in step with the arena.
proof fn lemma_update_log_ok(
    es0: Seq<SearchEntry>,
    es: Seq<SearchEntry>,
    log: Seq<(BlockLocation, u64)>,
    j: int,
)
    requires
        log_ok(es0, log),
        es.len() == es0.len(),
        0 <= j < es0.len(),
        forall|i: int| 0 <= i < es.len() && i != j ==> es[i] == es0[i],
        es[j].loc == es0[j].loc,
        es[j].open == true,
        es[j].g < es0[j].g,
        es0[j].open ==> es[j].g < es0[j].g,
    ensures
        log_ok(es, log),
{
    reveal(log_ok);
    assert forall|i: int|
        0 <= i < es.len() && !(#[trigger] es[i]).open implies log_has(log, es[i].loc) && last_log_g(
        log,
        es[i].loc,
    ) == es[i].g by {
        assert(i != j);
        assert(es[i] == es0[i]);
    }
    assert forall|i: int|
        0 <= i < es.len() && (#[trigger] es[i]).open && log_has(log, es[i].loc) implies es[i].g
        < last_log_g(log, es[i].loc) by {
        if i == j {
            if es0[j].open {
                assert(es0[j].g < last_log_g(log, es0[j].loc));
            } else {
                assert(last_log_g(log, es0[j].loc) == es0[j].g);
            }
        } else {
            assert(es[i] == es0[i]);
        }
    }
    assert forall|k: int| 0 <= k < log.len() implies exists|i: int|
        0 <= i < es.len() && es[i].loc == (#[trigger] log[k]).0 by {
        let i = choose|i: int| 0 <= i < es0.len() && es0[i].loc == log[k].0;
        assert(es[i].loc == log[k].0);
    }
}

/// The best-so-far handle points at an entry whose heuristic value is
/// no larger than that of any entry whose location was ever expanded.
#[verifier::opaque]
pub open spec fn best_ok(
    es: Seq<SearchEntry>,
    log: Seq<(BlockLocation, u64)>,
    best: int,
) -> bool {
    forall|i: int|
        0 <= i < es.len() && log_has(log, (#[trigger] es[i]).loc) ==> es[best].h <= es[i].h
}

/// An update that keeps every entry's location and heuristic value
/// keeps the best-so-far handle minimal.
proof fn lemma_update_best_ok(
    es0: Seq<SearchEntry>,
    es: Seq<SearchEntry>,
    log: Seq<(BlockLocation, u64)>,
    best: int,
)
    requires
        best_ok(es0, log, best),
        es.len() == es0.len(),
        0 <= best < es0.len(),
        forall|i: int|
            0 <= i < es.len() ==> (#[trigger] es[i]).h == es0[i].h && es[i].loc == es0[i].loc,
    ensures
        best_ok(es, log, best),
{
    reveal(best_ok);
    assert forall|i: int|
        0 <= i < es.len() && log_has(log, (#[trigger] es[i]).loc) implies es[best].h <= es[i].h by {
        assert(es0[best].h <= es0[i].h);
    }
}

/// Removing the popped handle from the open list and closing its
/// entry keeps the open list exact.
proof fn lemma_pop_open_ok(
    es0: Seq<SearchEntry>,
    es: Seq<SearchEntry>,
    op0: Seq<usize>,
    op: Seq<usize>,
    oi: int,
    bk: int,
)
    requires
        open_ok(es0, op0),
        0 <= bk < op0.len(),
        op0[bk] == oi,
        op == op0.remove(bk),
        es.len() == es0.len(),
        forall|i: int| 0 <= i < es.len() && i != oi ==> es[i] == es0[i],
        0 <= oi < es0.len(),
        es[oi].open == false,
    ensures
        open_ok(es, op),
{
    reveal(open_ok);
    op0.remove_ensures(bk);
    assert forall|kk: int| 0 <= kk < op.len() implies (#[trigger] op[kk]) < es.len()
        && es[op[kk] as int].open by {
        if kk < bk {
            assert(op[kk] == op0[kk]);
        } else {
            assert(op[kk] == op0[kk + 1]);
        }
        assert(op[kk] != oi);
    }
    assert forall|k1: int, k2: int| 0 <= k1 < k2 < op.len() implies (#[trigger] op[k1]) != (
    #[trigger] op[k2]) by {
        let p1 = if k1 < bk {
            k1
        } else {
            k1 + 1
        };
        let p2 = if k2 < bk {
            k2
        } else {
            k2 + 1
        };
        assert(op[k1] == op0[p1] && op[k2] == op0[p2]);
    }
    assert forall|i: int| 0 <= i < es.len() && (#[trigger] es[i]).open implies open_has(op, i) by {
        assert(es0[i].open);
        let kk = choose|kk: int| 0 <= kk < op0.len() && op0[kk] == i;
        assert(op0[kk] != op0[bk] || kk == bk);
        if kk < bk {
            assert(op[kk] == i);
        } else {
            assert(kk > bk);
            assert(op[kk - 1] == i);
        }
    }
}

/// Closing the popped entry and recording its expansion keeps the log
/// in step with the arena.
proof fn lemma_pop_log_ok(
    es0: Seq<SearchEntry>,
    es: Seq<SearchEntry>,
    log0: Seq<(BlockLocation, u64)>,
    oi: int,
)
    requires
        log_ok(es0, log0),
        locs_unique(es0),
        es.len() == es0.len(),
        0 <= oi < es0.len(),
        es0[oi].open,
        forall|i: int| 0 <= i < es.len() && i != oi ==> es[i] == es0[i],
        es[oi].loc == es0[oi].loc,
        es[oi].g == es0[oi].g,
        es[oi].open == false,
    ensures
        log_ok(es, log0.push((es0[oi].loc, es0[oi].g))),
{
    reveal(log_ok);
    reveal(locs_unique);
    let e_loc = es0[oi].loc;
    let e_g = es0[oi].g;
    let log = log0.push((e_loc, e_g));
    assert forall|loc: BlockLocation| true implies (log_has(log, loc) == (log_has(log0, loc)
        || e_loc == loc) && last_log_g(log, loc) == (if e_loc == loc {
        e_g
    } else {
        last_log_g(log0, loc)
    })) by {
        lemma_log_push(log0, (e_loc, e_g), loc);
    }
    assert forall|k1: int, k2: int|
        0 <= k1 < k2 < log.len() && (#[trigger] log[k1]).0 == (
    #[trigger] log[k2]).0 implies log[k2].1 < log[k1].1 by {
        if k2 == log.len() - 1 {
            assert(log[k2] == (e_loc, e_g));
            assert(log[k1] == log0[k1]);
            if log_has(log0, e_loc) {
                lemma_last_log_min(log0, e_loc, k1);
            } else {
                assert(log0[k1].0 != e_loc);
            }
        } else {
            assert(log[k1] == log0[k1] && log[k2] == log0[k2]);
        }
    }
    assert forall|i: int|
        0 <= i < es.len() && !(#[trigger] es[i]).open implies log_has(log, es[i].loc) && last_log_g(
        log,
        es[i].loc,
    ) == es[i].g by {
        if i != oi {
            assert(es[i] == es0[i]);
            assert(es[i].loc != e_loc);
        }
    }
    assert forall|i: int|
        0 <= i < es.len() && (#[trigger] es[i]).open && log_has(log, es[i].loc) implies es[i].g
        < last_log_g(log, es[i].loc) by {
        assert(i != oi);
        assert(es[i] == es0[i]);
        assert(es[i].loc != e_loc);
    }
    assert forall|kk: int| 0 <= kk < log.len() implies exists|i: int|
        0 <= i < es.len() && es[i].loc == (#[trigger] log[kk]).0 by {
        if kk < log0.len() {
            let i = choose|i: int| 0 <= i < es0.len() && es0[i].loc == log0[kk].0;
            assert(es[i].loc == log[kk].0);
        } else {
            assert(log[kk].0 == e_loc);
            assert(es[oi].loc == e_loc);
        }
    }
}

/// Recording an expansion and switching to the smaller-heuristic
/// handle keeps the best-so-far handle minimal.
proof fn lemma_pop_best_ok(
    es0: Seq<SearchEntry>,
    es: Seq<SearchEntry>,
    log0: Seq<(BlockLocation, u64)>,
    oi: int,
    best0: int,
    best: int,
)
    requires
        best_ok(es0, log0, best0),
        locs_unique(es0),
        es.len() == es0.len(),
        0 <= oi < es0.len(),
        0 <= best0 < es0.len(),
        forall|i: int| 0 <= i < es.len() && i != oi ==> es[i] == es0[i],
        es[oi].loc == es0[oi].loc,
        es[oi].g == es0[oi].g,
        es[oi].h == es0[oi].h,
        best == (if es0[oi].h < es0[best0].h {
            oi
        } else {
            best0
        }),
    ensures
        best_ok(es, log0.push((es0[oi].loc, es0[oi].g)), best),
{
    reveal(best_ok);
    reveal(locs_unique);
    let log = log0.push((es0[oi].loc, es0[oi].g));
    assert(forall|i: int| 0 <= i < es.len() ==> (#[trigger] es[i]).h == es0[i].h);
    assert forall|i: int|
        0 <= i < es.len() && log_has(log, (#[trigger] es[i]).loc) implies es[best].h <= es[i].h by {
        lemma_log_push(log0, (es0[oi].loc, es0[oi].g), es[i].loc);
        if log_has(log0, es[i].loc) {
            assert(es0[best0].h <= es0[i].h);
        } else {
            assert(es[i].loc == es0[oi].loc);
            assert(i == oi);
        }
    }
}

/// The emission record holds the edge from `a` to `b`: while
/// expanding `a` the expander's answer contained `b` as a neighbor.
pub open spec fn em_has_edge(
    em: Seq<(BlockLocation, Seq<(BlockLocation, int)>)>,
    a: BlockLocation,
    b: BlockLocation,
) -> bool {
    exists|k: int, m: int|
        0 <= k < em.len() && 0 <= m < em[k].1.len() && em[k].0 == a && (#[trigger] em[k].1[m]).0
            == b
}

/// Every parent link of the arena is backed by a recorded emission:
/// the child's location was emitted while its parent's location was
/// being expanded.
#[verifier::opaque]
pub open spec fn edges_ok(
    es: Seq<SearchEntry>,
    em: Seq<(BlockLocation, Seq<(BlockLocation, int)>)>,
) -> bool {
    forall|i: int|
        0 <= i < es.len() ==> ((#[trigger] es[i]).parent matches Some(p) ==> p < es.len()
            && em_has_edge(em, es[p as int].loc, es[i].loc))
}

/// An update that keeps every entry's location and parent keeps the
/// edges backed.
proof fn lemma_update_edges_ok(
    es0: Seq<SearchEntry>,
    es: Seq<SearchEntry>,
    em: Seq<(BlockLocation, Seq<(BlockLocation, int)>)>,
)
    requires
        edges_ok(es0, em),
        es.len() == es0.len(),
        forall|i: int|
            0 <= i < es.len() ==> (#[trigger] es[i]).loc == es0[i].loc && es[i].parent
                == es0[i].parent,
    ensures
        edges_ok(es, em),
{
    reveal(edges_ok);
    assert forall|i: int|
        0 <= i < es.len() implies ((#[trigger] es[i]).parent matches Some(p) ==> p < es.len()
        && em_has_edge(em, es[p as int].loc, es[i].loc)) by {
        match es[i].parent {
            Option::Some(p) => {
                assert(es0[i].parent == Some(p));
                assert(em_has_edge(em, es0[p as int].loc, es0[i].loc));
            },
            Option::None => {},
        }
    }
}

/// Recording one more emission keeps every backed edge backed.
proof fn lemma_grow_edges_ok(
    es: Seq<SearchEntry>,
    em0: Seq<(BlockLocation, Seq<(BlockLocation, int)>)>,
    x: (BlockLocation, Seq<(BlockLocation, int)>),
)
    requires
        edges_ok(es, em0),
    ensures
        edges_ok(es, em0.push(x)),
{
    reveal(edges_ok);
    let em = em0.push(x);
    assert forall|i: int|
        0 <= i < es.len() implies ((#[trigger] es[i]).parent matches Some(p) ==> p < es.len()
        && em_has_edge(em, es[p as int].loc, es[i].loc)) by {
        match es[i].parent {
            Option::Some(p) => {
                let (k, m) = choose|k: int, m: int|
                    0 <= k < em0.len() && 0 <= m < em0[k].1.len() && em0[k].0 == es[p as int].loc
                        && (#[trigger] em0[k].1[m]).0 == es[i].loc;
                assert(em[k] == em0[k]);
                assert((em[k].1[m]).0 == es[i].loc);
                assert(em_has_edge(em, es[p as int].loc, es[i].loc));
            },
            Option::None => {},
        }
    }
}

/// The time-sliced A* engine over block nodes.
pub struct AStar {
    entries: Vec<SearchEntry>,
    open: Vec<usize>,
    best_h_idx: usize,
    started: bool,
    max_millis: u128,
    expansions_log: Ghost<Seq<(BlockLocation, u64)>>,
    emitted_log: Ghost<Seq<(BlockLocation, Seq<(BlockLocation, int)>)>>,
}

impl AStar {
    /// The arena of search records.
    pub closed spec fn entries_s(self) -> Seq<SearchEntry> {
        self.entries@
    }

    /// The open set, as handles into the arena, in insertion order.
    pub closed spec fn open_s(self) -> Seq<usize> {
        self.open@
    }

    /// Every expansion this engine ever made, in order, with the `g`
    /// it was expanded at.
    pub closed spec fn expansions(self) -> Seq<(BlockLocation, u64)> {
        self.expansions_log@
    }

    /// The per-call soft time budget.
    pub closed spec fn max_millis_s(self) -> u128 {
        self.max_millis
    }

    /// Every neighbor list the expander answered, in expansion order,
    /// keyed by the expanded location.
    pub closed spec fn emitted_s(self) -> Seq<(BlockLocation, Seq<(BlockLocation, int)>)> {
        self.emitted_log@
    }

    /// The engine saw the expander emit `b` while expanding `a`.
    pub open spec fn edge_logged(self, a: BlockLocation, b: BlockLocation) -> bool {
        em_has_edge(self.emitted_s(), a, b)
    }

    /// The handle of the lowest-heuristic node seen so far.
    pub closed spec fn best_h_s(self) -> int {
        self.best_h_idx as int
    }

    /// Whether the start entry's heuristic was filled in (which happens
    /// before the first expansion).
    pub closed spec fn started_s(self) -> bool {
        self.started
    }

    /// The start node's location: the root of the parent forest.
    pub open spec fn start_loc(self) -> BlockLocation {
        self.entries_s()[0].loc
    }

    /// How many handles wait in the open set.
    pub open spec fn open_count(self) -> int {
        self.open_s().len() as int
    }

    /// The engine's invariant: one entry per location; the start entry
    /// is the unique root and every parent link strictly decreases `g`;
    /// the open list holds exactly the open entries, once each; and the
    /// expansion log is strictly improving, in step with the arena.
    pub open spec fn wf(self) -> bool {
        &&& parents_ok(self.entries_s())
        &&& locs_unique(self.entries_s())
        &&& open_ok(self.entries_s(), self.open_s())
        &&& log_ok(self.entries_s(), self.expansions())
        &&& 0 <= self.best_h_s() < self.entries_s().len()
        &&& best_ok(self.entries_s(), self.expansions(), self.best_h_s())
        &&& edges_ok(self.entries_s(), self.emitted_s())
        &&& !self.started_s() ==> self.expansions().len() == 0
    }

    /// A fresh engine whose open set holds only `start`, at cost zero.
    pub fn new(start: BlockNode) -> (r: AStar)
        ensures
            r.wf(),
            r.start_loc() == start.location,
            r.open_count() == 1,
            r.expansions() == Seq::<(BlockLocation, u64)>::empty(),
            r.emitted_s() == Seq::<(BlockLocation, Seq<(BlockLocation, int)>)>::empty(),
            r.max_millis_s() == DEFAULT_MAX_MILLIS,
    {
        let entry = SearchEntry {
            loc: start.location,
            g: 0,
            h: 0,
            parent: None,
            open: true,
        };
        let mut entries: Vec<SearchEntry> = Vec::new();
        entries.push(entry);
        let mut open: Vec<usize> = Vec::new();
        open.push(0);
        let r = AStar {
            entries,
            open,
            best_h_idx: 0,
            started: false,
            max_millis: DEFAULT_MAX_MILLIS,
            expansions_log: Ghost(Seq::empty()),
            emitted_log: Ghost(Seq::empty()),
        };
        proof {
            reveal(locs_unique);
            reveal(open_ok);
            reveal(log_ok);
            reveal(best_ok);
            reveal(edges_ok);
            assert(r.open_s()[0] == 0usize);
            assert(forall|i: int|
                0 <= i < r.entries_s().len() && (#[trigger] r.entries_s()[i]).open ==> open_has(
                    r.open_s(),
                    i,
                ));
            assert(r.wf());
        }
        r
    }

    /// Sets the per-call soft time budget; all search state stays.
    pub fn set_max_millis(&mut self, value: u128)
        ensures
            final (self).max_millis_s() == value,
            final (self).entries_s() == old(self).entries_s(),
            final (self).open_s() == old(self).open_s(),
            final (self).expansions() == old(self).expansions(),
            final (self).emitted_s() == old(self).emitted_s(),
            final (self).best_h_s() == old(self).best_h_s(),
            old(self).wf() ==> final (self).wf(),
    {
        self.max_millis = value;
    }

    /// Pops the open entry with the lowest `f = g + h`, ties broken by
    /// lower `h`, then by insertion order; marks it closed and records
    /// the expansion.
    #[verifier::spinoff_prover]
    #[verifier::rlimit(100)]
    fn pop_min(&mut self) -> (oi: usize)
        requires
            old(self).wf(),
            old(self).started,
            old(self).open_s().len() > 0,
        ensures
            final (self).wf(),
            final (self).entries_s().len() == old(self).entries_s().len(),
            oi < old(self).entries_s().len(),
            old(self).entries_s()[oi as int].open,
            final (self).entries_s()[oi as int].loc == old(self).entries_s()[oi as int].loc,
            final (self).entries_s()[oi as int].g == old(self).entries_s()[oi as int].g,
            final (self).entries_s()[oi as int].h == old(self).entries_s()[oi as int].h,
            final (self).entries_s()[oi as int].parent == old(self).entries_s()[oi as int].parent,
            final (self).entries_s()[oi as int].open == false,
            forall|i: int|
                0 <= i < old(self).entries_s().len() && i != oi ==> final (self).entries_s()[i]
                    == old(self).entries_s()[i],
            final (self).open_s().len() == old(self).open_s().len() - 1,
            final (self).expansions() == old(self).expansions().push(
                (old(self).entries_s()[oi as int].loc, old(self).entries_s()[oi as int].g),
            ),
            final (self).emitted_s() == old(self).emitted_s(),
            final (self).max_millis_s() == old(self).max_millis_s(),
            final (self).started == old(self).started,
            forall|k: int|
                0 <= k < old(self).open_s().len() ==> f_of(
                    old(self).entries_s()[(#[trigger] old(self).open_s()[k]) as int],
                ) >= f_of(old(self).entries_s()[oi as int]),
            forall|k: int|
                0 <= k < old(self).open_s().len() && f_of(
                    old(self).entries_s()[(#[trigger] old(self).open_s()[k]) as int],
                ) == f_of(old(self).entries_s()[oi as int]) ==> old(self).entries_s()[old(
                    self,
                ).open_s()[k] as int].h >= old(self).entries_s()[oi as int].h,
            exists|pos: int|
                0 <= pos < old(self).open_s().len() && old(self).open_s()[pos] == oi && (forall|
                    k: int,
                |
                    0 <= k < pos ==> f_of(
                        old(self).entries_s()[(#[trigger] old(self).open_s()[k]) as int],
                    ) > f_of(old(self).entries_s()[oi as int]) || (f_of(
                        old(self).entries_s()[old(self).open_s()[k] as int],
                    ) == f_of(old(self).entries_s()[oi as int]) && old(self).entries_s()[old(
                        self,
                    ).open_s()[k] as int].h > old(self).entries_s()[oi as int].h)),
    {
        let mut bk: usize = 0;
        let mut k: usize = 1;
        proof {
            reveal(open_ok);
        }
        while k < self.open.len()
            invariant
                self.wf(),
                self.open_s().len() > 0,
                bk < k <= self.open_s().len(),
                forall|t: int|
                    0 <= t < self.open_s().len() ==> (#[trigger] self.open_s()[t])
                        < self.entries_s().len(),
                forall|t: int|
                    0 <= t < k ==> f_of(self.entries_s()[(#[trigger] self.open_s()[t]) as int])
                        >= f_of(self.entries_s()[self.open_s()[bk as int] as int]),
                forall|t: int|
                    0 <= t < k && f_of(self.entries_s()[(#[trigger] self.open_s()[t]) as int])
                        == f_of(self.entries_s()[self.open_s()[bk as int] as int])
                        ==> self.entries_s()[self.open_s()[t] as int].h >= self.entries_s()[self.open_s()[bk as int] as int].h,
                forall|t: int|
                    0 <= t < bk ==> f_of(self.entries_s()[(#[trigger] self.open_s()[t]) as int])
                        > f_of(self.entries_s()[self.open_s()[bk as int] as int]) || (f_of(
                        self.entries_s()[self.open_s()[t] as int],
                    ) == f_of(self.entries_s()[self.open_s()[bk as int] as int])
                        && self.entries_s()[self.open_s()[t] as int].h > self.entries_s()[self.open_s()[bk as int] as int].h),
            decreases self.open_s().len() - k,
        {
            let cand = self.open[k];
            let cur = self.open[bk];
            let ec = self.entries[cand];
            let eb = self.entries[cur];
            let fc = ec.g as u128 + ec.h as u128;
            let fb = eb.g as u128 + eb.h as u128;
            if fc < fb || (fc == fb && (ec.h as u128) < eb.h as u128) {
                bk = k;
            }
            k = k + 1;
        }
        let ghost pre = *self;
        let oi = self.open.remove(bk);
        proof {
            reveal(open_ok);
            pre.open_s().remove_ensures(bk as int);
        }
        let e = self.entries[oi];
        self.entries.set(
            oi,
            SearchEntry { loc: e.loc, g: e.g, h: e.h, parent: e.parent, open: false },
        );
        self.expansions_log = Ghost(self.expansions_log@.push((e.loc, e.g)));
        // keep the lowest-heuristic node seen so far
        let eb = self.entries[self.best_h_idx];
        if e.h < eb.h {
            self.best_h_idx = oi;
        }
        proof {
            let es = self.entries_s();
            assert(forall|i: int|
                0 <= i < es.len() && i != oi ==> es[i] == pre.entries_s()[i]);
            lemma_update_locs_unique(pre.entries_s(), es, oi as int);
            lemma_pop_open_ok(
                pre.entries_s(),
                es,
                pre.open_s(),
                self.open_s(),
                oi as int,
                bk as int,
            );
            lemma_pop_log_ok(pre.entries_s(), es, pre.expansions(), oi as int);
            lemma_pop_best_ok(
                pre.entries_s(),
                es,
                pre.expansions(),
                oi as int,
                pre.best_h_s(),
                self.best_h_s(),
            );
            assert(forall|i: int|
                0 <= i < es.len() ==> (#[trigger] es[i]).loc == pre.entries_s()[i].loc
                    && es[i].parent == pre.entries_s()[i].parent);
            lemma_update_edges_ok(pre.entries_s(), es, self.emitted_s());
            assert(parents_ok(es));
            assert(self.wf());
        }
        oi
    }

    /// Relaxes one neighbor of the freshly expanded entry
    /// `parent_idx`: inserts an unseen location into the arena and the
    /// open set, improves a seen one when the new path is strictly
    /// cheaper (reopening it if it was closed), and otherwise leaves
    /// everything unchanged.  A zero cost is clamped to one so that
    /// path costs stay strictly increasing.
    fn relax(&mut self, parent_idx: usize, n: &Neighbor<BlockNode>, h: u64)
        requires
            old(self).wf(),
            parent_idx < old(self).entries_s().len(),
            em_has_edge(
                old(self).emitted_s(),
                old(self).entries_s()[parent_idx as int].loc,
                n.value.location,
            ),
        ensures
            final (self).wf(),
            final (self).expansions() == old(self).expansions(),
            final (self).emitted_s() == old(self).emitted_s(),
            final (self).entries_s().len() >= old(self).entries_s().len(),
            forall|i: int|
                0 <= i < old(self).entries_s().len() ==> (#[trigger] final (self).entries_s()[i]).loc
                    == old(self).entries_s()[i].loc,
            final (self).best_h_s() == old(self).best_h_s(),
            final (self).max_millis_s() == old(self).max_millis_s(),
            final (self).started == old(self).started,
    {
        let cost: u64 = if n.cost == 0 {
            1
        } else {
            n.cost
        };
        let pg = self.entries[parent_idx].g;
        if pg > u64::MAX - cost {
            // an unreachable path cost; the neighbor is not relaxed
            return ;
        }
        let new_g = pg + cost;
        match self.find_entry(n.value.location) {
            None => {
                self.insert_new(n.value.location, new_g, h, parent_idx);
            },
            Some(j) => {
                self.improve(j, new_g, parent_idx);
            },
        }
    }

    /// Adds a never-seen location to the arena and the open set.
    #[verifier::spinoff_prover]
    #[verifier::rlimit(100)]
    fn insert_new(&mut self, loc: BlockLocation, new_g: u64, h: u64, parent_idx: usize)
        requires
            old(self).wf(),
            parent_idx < old(self).entries_s().len(),
            old(self).entries_s()[parent_idx as int].g < new_g,
            forall|i: int|
                0 <= i < old(self).entries_s().len() ==> (#[trigger] old(self).entries_s()[i]).loc
                    != loc,
            em_has_edge(
                old(self).emitted_s(),
                old(self).entries_s()[parent_idx as int].loc,
                loc,
            ),
        ensures
            final (self).wf(),
            final (self).expansions() == old(self).expansions(),
            final (self).emitted_s() == old(self).emitted_s(),
            final (self).entries_s().len() == old(self).entries_s().len() + 1,
            forall|i: int|
                0 <= i < old(self).entries_s().len() ==> (#[trigger] final (self).entries_s()[i]).loc
                    == old(self).entries_s()[i].loc,
            final (self).best_h_s() == old(self).best_h_s(),
            final (self).max_millis_s() == old(self).max_millis_s(),
            final (self).started == old(self).started,
    {
        let ghost pre = *self;
        let idx = self.entries.len();
        self.entries.push(SearchEntry { loc, g: new_g, h, parent: Some(parent_idx), open: true });
        self.open.push(idx);
        proof {
            reveal(locs_unique);
            reveal(open_ok);
            reveal(log_ok);
            reveal(best_ok);
            let es = self.entries_s();
            let op = self.open_s();
            let log = self.expansions();
            assert(forall|i: int|
                0 <= i < pre.entries_s().len() ==> es[i] == pre.entries_s()[i]);
            if log_has(log, loc) {
                let k = choose|k: int| 0 <= k < log.len() && (#[trigger] log[k]).0 == loc;
                let i = choose|i: int|
                    0 <= i < pre.entries_s().len() && pre.entries_s()[i].loc == log[k].0;
                assert(false);
            }
            assert forall|i: int| 0 <= i < es.len() && (#[trigger] es[i]).open implies open_has(
                op,
                i,
            ) by {
                if i < idx {
                    let kk = choose|kk: int| 0 <= kk < pre.open_s().len() && pre.open_s()[kk] == i;
                    assert(op[kk] == i);
                } else {
                    assert(op[op.len() - 1] == i);
                }
            }
            assert forall|kk: int| 0 <= kk < log.len() implies exists|i: int|
                0 <= i < es.len() && es[i].loc == (#[trigger] log[kk]).0 by {
                let i = choose|i: int|
                    0 <= i < pre.entries_s().len() && pre.entries_s()[i].loc == log[kk].0;
                assert(es[i].loc == log[kk].0);
            }
            assert forall|i: int|
                0 <= i < es.len() && log_has(log, (#[trigger] es[i]).loc) implies es[self.best_h_s()].h
                <= es[i].h by {
                assert(i < pre.entries_s().len());
                assert(pre.entries_s()[pre.best_h_s()].h <= pre.entries_s()[i].h);
            }
            reveal(edges_ok);
            assert forall|i: int|
                0 <= i < es.len() implies ((#[trigger] es[i]).parent matches Some(p) ==> p
                < es.len() && em_has_edge(self.emitted_s(), es[p as int].loc, es[i].loc)) by {
                if i < pre.entries_s().len() {
                    match es[i].parent {
                        Option::Some(p) => {
                            assert(em_has_edge(
                                pre.emitted_s(),
                                pre.entries_s()[p as int].loc,
                                pre.entries_s()[i].loc,
                            ));
                        },
                        Option::None => {},
                    }
                } else {
                    assert(es[i].parent == Some(parent_idx));
                }
            }
            assert(self.wf());
        }
    }

    /// Lowers the path cost of arena entry `j` when strictly cheaper,
    /// rerooting it at `parent_idx` and reopening it if it was closed.
    #[verifier::spinoff_prover]
    #[verifier::rlimit(100)]
    fn improve(&mut self, j: usize, new_g: u64, parent_idx: usize)
        requires
            old(self).wf(),
            j < old(self).entries_s().len(),
            parent_idx < old(self).entries_s().len(),
            old(self).entries_s()[parent_idx as int].g + (1 as int) <= new_g,
            em_has_edge(
                old(self).emitted_s(),
                old(self).entries_s()[parent_idx as int].loc,
                old(self).entries_s()[j as int].loc,
            ),
        ensures
            final (self).wf(),
            final (self).expansions() == old(self).expansions(),
            final (self).emitted_s() == old(self).emitted_s(),
            final (self).entries_s().len() == old(self).entries_s().len(),
            forall|i: int|
                0 <= i < old(self).entries_s().len() ==> (#[trigger] final (self).entries_s()[i]).loc
                    == old(self).entries_s()[i].loc,
            final (self).best_h_s() == old(self).best_h_s(),
            final (self).max_millis_s() == old(self).max_millis_s(),
            final (self).started == old(self).started,
    {
        let ej = self.entries[j];
        if new_g >= ej.g {
            return ;
        }
        let ghost pre = *self;
        let elen = self.entries.len();
        let was_open = ej.open;
        self.entries.set(
            j,
            SearchEntry { loc: ej.loc, g: new_g, h: ej.h, parent: Some(parent_idx), open: true },
        );
        if !was_open {
            self.open.push(j);
        }
        proof {
            let es = self.entries_s();
            let op = self.open_s();
            let log = self.expansions();
            assert(parent_idx != j);
            assert(forall|i: int|
                0 <= i < es.len() && i != j ==> es[i] == pre.entries_s()[i]);
            lemma_update_locs_unique(pre.entries_s(), es, j as int);
            assert(pre.entries_s().len() == elen as int);
            lemma_update_open_ok(pre.entries_s(), es, pre.open_s(), op, j as int, was_open);
            lemma_update_log_ok(pre.entries_s(), es, log, j as int);
            assert(forall|i: int|
                0 <= i < es.len() ==> (#[trigger] es[i]).h == pre.entries_s()[i].h && es[i].loc
                    == pre.entries_s()[i].loc);
            lemma_update_best_ok(pre.entries_s(), es, log, pre.best_h_s());
            reveal(edges_ok);
            assert forall|i: int|
                0 <= i < es.len() implies ((#[trigger] es[i]).parent matches Some(p) ==> p
                < es.len() && em_has_edge(self.emitted_s(), es[p as int].loc, es[i].loc)) by {
                if i != j {
                    match es[i].parent {
                        Option::Some(p) => {
                            assert(pre.entries_s()[i].parent == Some(p));
                            assert(em_has_edge(
                                pre.emitted_s(),
                                pre.entries_s()[p as int].loc,
                                pre.entries_s()[i].loc,
                            ));
                        },
                        Option::None => {},
                    }
                } else {
                    assert(es[j as int].parent == Some(parent_idx));
                }
            }
            assert(parents_ok(es));
            assert(self.wf());
        }
    }

    /// The record chain from the start entry to entry `i`, following
    /// parent handles.  Well defined because parent links strictly
    /// decrease `g`.
    pub closed spec fn chain(self, i: int) -> Seq<BlockRecord>
        decreases self.entries_s()[i].g
        when parents_ok(self.entries_s()) && 0 <= i < self.entries_s().len()
    {
        match self.entries_s()[i].parent {
            Option::None => seq![record_of(self.entries_s()[i].loc)],
            Option::Some(p) => self.chain(p as int).push(record_of(self.entries_s()[i].loc)),
        }
    }

    /// A chain is nonempty, starts at the start location and ends at
    /// its own entry.
    pub proof fn lemma_chain_props(self, i: int)
        requires
            self.wf(),
            0 <= i < self.entries_s().len(),
        ensures
            self.chain(i).len() >= 1,
            self.chain(i)[0] == record_of(self.start_loc()),
            self.chain(i).last() == record_of(self.entries_s()[i].loc),
        decreases self.entries_s()[i].g,
    {
        match self.entries_s()[i].parent {
            Option::None => {
                assert(i == 0);
            },
            Option::Some(p) => {
                self.lemma_chain_props(p as int);
            },
        }
    }

    /// No node is ever expanded twice at a worse or equal cost: a later
    /// expansion of the same location carries a strictly smaller `g`.
    pub proof fn lemma_no_worse_reexpansion(self, k1: int, k2: int)
        requires
            self.wf(),
            0 <= k1 < k2 < self.expansions().len(),
            self.expansions()[k1].0 == self.expansions()[k2].0,
        ensures
            self.expansions()[k2].1 < self.expansions()[k1].1,
    {
        reveal(log_ok);
    }

    /// The best-so-far handle is justified: its entry's heuristic value
    /// is no larger than that of any entry whose location was expanded.
    pub proof fn lemma_best_is_min_h(self, i: int)
        requires
            self.wf(),
            0 <= i < self.entries_s().len(),
            log_has(self.expansions(), self.entries_s()[i].loc),
        ensures
            self.entries_s()[self.best_h_s()].h <= self.entries_s()[i].h,
    {
        reveal(best_ok);
    }

    /// Every step of a chain is a recorded expansion edge: while the
    /// earlier record's location was expanded, the expander emitted
    /// the later one as its neighbor.
    pub proof fn lemma_chain_edges(self, i: int, t: int)
        requires
            self.wf(),
            0 <= i < self.entries_s().len(),
            0 <= t < self.chain(i).len() - 1,
        ensures
            self.edge_logged(
                self.chain(i)[t].state.location,
                self.chain(i)[t + 1].state.location,
            ),
        decreases self.entries_s()[i].g,
    {
        reveal(edges_ok);
        match self.entries_s()[i].parent {
            Option::None => {
                assert(self.chain(i).len() == 1);
            },
            Option::Some(p) => {
                self.lemma_chain_props(p as int);
                assert(self.chain(i) == self.chain(p as int).push(
                    record_of(self.entries_s()[i].loc),
                ));
                if t < self.chain(p as int).len() - 1 {
                    self.lemma_chain_edges(p as int, t);
                    assert(self.chain(i)[t] == self.chain(p as int)[t]);
                    assert(self.chain(i)[t + 1] == self.chain(p as int)[t + 1]);
                } else {
                    assert(self.chain(i)[t] == self.chain(p as int).last());
                    assert(self.chain(i)[t + 1] == record_of(self.entries_s()[i].loc));
                    assert(em_has_edge(
                        self.emitted_s(),
                        self.entries_s()[p as int].loc,
                        self.entries_s()[i].loc,
                    ));
                }
            },
        }
    }

    /// The records of `s`, reversed.
    closed spec fn rev_records(self, s: Seq<usize>) -> Seq<BlockRecord> {
        Seq::new(s.len(), |m: int| record_of(self.entries_s()[s[s.len() - 1 - m] as int].loc))
    }

    /// Walks the parent handles back to the root and returns the chain
    /// of records from the start to entry `idx`.
    fn reconstruct(&self, idx: usize) -> (r: Vec<BlockRecord>)
        requires
            self.wf(),
            idx < self.entries_s().len(),
        ensures
            r@ == self.chain(idx as int),
    {
        let mut idxs: Vec<usize> = Vec::new();
        let mut cur = idx;
        proof {
            assert(self.rev_records(idxs@) =~= Seq::<BlockRecord>::empty());
            assert(self.chain(idx as int) =~= self.chain(cur as int) + self.rev_records(idxs@));
        }
        loop
            invariant_except_break
                self.wf(),
                idx < self.entries_s().len(),
                cur < self.entries_s().len(),
                forall|t: int| 0 <= t < idxs@.len() ==> (#[trigger] idxs@[t]) < self.entries_s().len(),
                self.chain(idx as int) == self.chain(cur as int) + self.rev_records(idxs@),
            ensures
                forall|t: int| 0 <= t < idxs@.len() ==> (#[trigger] idxs@[t]) < self.entries_s().len(),
                self.chain(idx as int) == self.rev_records(idxs@),
            decreases self.entries_s()[cur as int].g,
        {
            let ghost pre_idxs = idxs@;
            idxs.push(cur);
            proof {
                assert(self.rev_records(idxs@) =~= seq![
                    record_of(self.entries_s()[cur as int].loc),
                ] + self.rev_records(pre_idxs));
            }
            let e = self.entries[cur];
            match e.parent {
                Some(p) => {
                    proof {
                        assert(self.chain(cur as int) == self.chain(p as int).push(
                            record_of(self.entries_s()[cur as int].loc),
                        ));
                        assert(self.chain(p as int).push(
                            record_of(self.entries_s()[cur as int].loc),
                        ) + self.rev_records(pre_idxs) =~= self.chain(p as int)
                            + self.rev_records(idxs@));
                    }
                    cur = p;
                },
                None => {
                    proof {
                        assert(self.chain(cur as int) == seq![
                            record_of(self.entries_s()[cur as int].loc),
                        ]);
                        assert(self.chain(cur as int) + self.rev_records(pre_idxs)
                            =~= self.rev_records(idxs@));
                    }
                    break ;
                },
            }
        }
        let n = idxs.len();
        let mut out: Vec<BlockRecord> = Vec::new();
        let mut t: usize = 0;
        while t < n
            invariant
                t <= n,
                n == idxs@.len(),
                self.wf(),
                forall|m: int| 0 <= m < n ==> (#[trigger] idxs@[m]) < self.entries_s().len(),
                out@.len() == t,
                forall|m: int| 0 <= m < t ==> (#[trigger] out@[m]) == self.rev_records(idxs@)[m],
            decreases n - t,
        {
            let e = self.entries[idxs[n - 1 - t]];
            out.push(BlockRecord { state: MoveState { location: e.loc } });
            t = t + 1;
        }
        proof {
            assert(out@ =~= self.rev_records(idxs@));
        }
        out
    }

    /// Resets the engine to search from a new start; all prior state,
    /// including the per-call budget, is discarded.
    pub fn recalc(&mut self, node: BlockNode)
        ensures
            final (self).wf(),
            final (self).start_loc() == node.location,
            final (self).open_count() == 1,
            final (self).expansions() == Seq::<(BlockLocation, u64)>::empty(),
            final (self).emitted_s() == Seq::<(BlockLocation, Seq<(BlockLocation, int)>)>::empty(),
            final (self).max_millis_s() == DEFAULT_MAX_MILLIS,
    {
        *self = AStar::new(node);
    }

    /// Fills in the start entry's heuristic, which was unknown when the
    /// engine was constructed.
    #[verifier::spinoff_prover]
    #[verifier::rlimit(100)]
    fn set_start_h(&mut self, h0: u64)
        requires
            old(self).wf(),
            !old(self).started,
        ensures
            final (self).wf(),
            final (self).started,
            final (self).start_loc() == old(self).start_loc(),
            final (self).max_millis_s() == old(self).max_millis_s(),
            final (self).emitted_s() == old(self).emitted_s(),
    {
        let e0 = self.entries[0];
        self.entries.set(
            0,
            SearchEntry { loc: e0.loc, g: e0.g, h: h0, parent: e0.parent, open: e0.open },
        );
        self.started = true;
        proof {
            reveal(locs_unique);
            reveal(open_ok);
            reveal(log_ok);
            reveal(best_ok);
            let es = self.entries_s();
            let log = self.expansions();
            assert(log.len() == 0);
            assert(forall|i: int|
                0 < i < es.len() ==> es[i] == old(self).entries_s()[i]);
            assert(forall|i: int|
                0 <= i < es.len() ==> (#[trigger] es[i]).loc == old(self).entries_s()[i].loc
                    && es[i].parent == old(self).entries_s()[i].parent);
            lemma_update_edges_ok(old(self).entries_s(), es, self.emitted_s());
            assert(es[0].loc == old(self).entries_s()[0].loc);
            assert(es[0].g == old(self).entries_s()[0].g);
            assert(es[0].parent == old(self).entries_s()[0].parent);
            assert(es[0].open == old(self).entries_s()[0].open);
            assert forall|kk: int| 0 <= kk < log.len() implies exists|i: int|
                0 <= i < es.len() && es[i].loc == (#[trigger] log[kk]).0 by {
                let i = choose|i: int|
                    0 <= i < old(self).entries_s().len() && old(self).entries_s()[i].loc
                        == log[kk].0;
                assert(es[i].loc == log[kk].0);
            }
            assert(self.wf());
        }
    }

    /// Wraps the chain to entry `idx` as a path result.
    fn finish_at(&self, idx: usize, complete: bool) -> (pr: PathResult<BlockRecord>)
        requires
            self.wf(),
            idx < self.entries_s().len(),
        ensures
            pr.complete == complete,
            pr.path@.len() >= 1,
            pr.path@[0] == record_of(self.start_loc()),
            pr.path@ == self.chain(idx as int),
            pr.path@.last() == record_of(self.entries_s()[idx as int].loc),
    {
        let path = self.reconstruct(idx);
        proof {
            self.lemma_chain_props(idx as int);
        }
        PathResult { complete, path }
    }

    /// Expands the best open entry once: pops it, keeps the
    /// lowest-heuristic node up to date, and either reports it as a
    /// goal or relaxes all its neighbors.
    #[verifier::spinoff_prover]
    #[verifier::rlimit(100)]
    fn expand_once<H: Heuristic, P: Progressor, G: GoalCheck>(
        &mut self,
        heuristic: &H,
        progressor: &P,
        goal_check: &G,
    ) -> (r: Option<usize>)
        requires
            old(self).wf(),
            old(self).started,
            old(self).open_s().len() > 0,
        ensures
            final (self).wf(),
            final (self).started,
            final (self).start_loc() == old(self).start_loc(),
            final (self).max_millis_s() == old(self).max_millis_s(),
            old(self).emitted_s().len() <= final (self).emitted_s().len(),
            forall|k: int|
                0 <= k < old(self).emitted_s().len() ==> final (self).emitted_s()[k] == old(
                    self,
                ).emitted_s()[k],
            forall|k: int|
                old(self).emitted_s().len() <= k < final (self).emitted_s().len()
                    ==> progressor.emits(
                    (BlockNode { location: (#[trigger] final (self).emitted_s()[k]).0 }),
                    final (self).emitted_s()[k].1,
                ),
            r matches Some(oi) ==> oi < final (self).entries_s().len()
                && goal_check.spec_is_goal(
                (BlockNode { location: final (self).entries_s()[oi as int].loc }),
            ),
    {
        let ghost start0 = self.start_loc();
        let oi = self.pop_min();
        let node = BlockNode::simple(self.entries[oi].loc);
        proof {
            assert(node == (BlockNode { location: self.entries_s()[oi as int].loc }));
        }
        if goal_check.is_goal(&node) {
            return Some(oi);
        }
        match progressor.progressions(&node) {
            Progression::Edge => {},
            Progression::Movements(ns) => {
                proof {
                    lemma_grow_edges_ok(
                        self.entries_s(),
                        self.emitted_s(),
                        (node.location, neighbor_view(ns@)),
                    );
                }
                self.emitted_log = Ghost(
                    self.emitted_log@.push((node.location, neighbor_view(ns@))),
                );
                let ghost em1 = self.emitted_s();
                proof {
                    assert(self.wf());
                }
                let mut t: usize = 0;
                while t < ns.len()
                    invariant
                        self.wf(),
                        self.started,
                        self.start_loc() == start0,
                        self.max_millis_s() == old(self).max_millis_s(),
                        oi < self.entries_s().len(),
                        self.entries_s()[oi as int].loc == node.location,
                        self.emitted_s() == em1,
                        em1.len() >= 1,
                        em1.last() == (node.location, neighbor_view(ns@)),
                    decreases ns.len() - t,
                {
                    let nb = ns[t];
                    let h = heuristic.heuristic(&nb.value);
                    proof {
                        let k = em1.len() - 1;
                        assert(em1[k].1 == neighbor_view(ns@));
                        assert(em1[k].1[t as int].0 == nb.value.location);
                        assert(em_has_edge(em1, node.location, nb.value.location));
                    }
                    self.relax(oi, &nb, h);
                    t = t + 1;
                }
            },
        }
        None
    }

    /// Runs the search until the goal is found, the open set empties,
    /// the deadline (or the per-call budget) passes, or the per-call
    /// expansion cap is hit.  `Finished` comes back exactly when the
    /// goal was reached (`complete`) or the open set is empty
    /// (`!complete`, with the best-effort path toward the
    /// lowest-heuristic node seen); otherwise the state persists and
    /// the next call resumes.
    #[verifier::spinoff_prover]
    #[verifier::rlimit(100)]
    pub fn iterate_until<H: Heuristic, P: Progressor, G: GoalCheck>(
        &mut self,
        deadline_millis: u128,
        heuristic: &H,
        progressor: &P,
        goal_check: &G,
    ) -> (r: Increment<PathResult<BlockRecord>>)
        requires
            old(self).wf(),
        ensures
            final (self).wf(),
            final (self).start_loc() == old(self).start_loc(),
            final (self).max_millis_s() == old(self).max_millis_s(),
            old(self).emitted_s().len() <= final (self).emitted_s().len(),
            forall|k: int|
                0 <= k < old(self).emitted_s().len() ==> final (self).emitted_s()[k] == old(
                    self,
                ).emitted_s()[k],
            forall|k: int|
                old(self).emitted_s().len() <= k < final (self).emitted_s().len()
                    ==> progressor.emits(
                    (BlockNode { location: (#[trigger] final (self).emitted_s()[k]).0 }),
                    final (self).emitted_s()[k].1,
                ),
            match r {
                Increment::InProgress => final (self).open_count() > 0,
                Increment::Finished(pr) => {
                    &&& pr.path@.len() >= 1
                    &&& pr.path@[0] == record_of(old(self).start_loc())
                    &&& (pr.complete ==> goal_check.spec_is_goal(
                        (BlockNode { location: pr.path@.last().state.location }),
                    ))
                    &&& (!pr.complete ==> final (self).open_count() == 0 && pr.path@.last()
                        == record_of(final (self).entries_s()[final (self).best_h_s()].loc))
                    &&& forall|t: int|
                        0 <= t < pr.path@.len() - 1 ==> final (self).edge_logged(
                            (#[trigger] pr.path@[t]).state.location,
                            pr.path@[t + 1].state.location,
                        )
                    &&& exists|i: int|
                        0 <= i < final (self).entries_s().len() && pr.path@ == #[trigger] final (
                        self).chain(i) && pr.path@.last() == record_of(
                            final (self).entries_s()[i].loc,
                        )
                },
            },
    {
        let now0 = now_millis();
        let budget = self.max_millis;
        let budget_end = if now0 <= u128::MAX - budget {
            now0 + budget
        } else {
            u128::MAX
        };
        let eff = if deadline_millis < budget_end {
            deadline_millis
        } else {
            budget_end
        };
        if !self.started {
            let start_node = BlockNode::simple(self.entries[0].loc);
            let h0 = heuristic.heuristic(&start_node);
            self.set_start_h(h0);
        }
        let ghost start0 = self.start_loc();
        let mut steps: usize = 0;
        let ghost em0 = self.emitted_s();
        while steps < MAX_EXPANSIONS_PER_CALL
            invariant
                self.wf(),
                self.started,
                self.start_loc() == start0,
                start0 == old(self).start_loc(),
                self.max_millis_s() == old(self).max_millis_s(),
                em0 == old(self).emitted_s(),
                em0.len() <= self.emitted_s().len(),
                forall|k: int| 0 <= k < em0.len() ==> self.emitted_s()[k] == em0[k],
                forall|k: int|
                    em0.len() <= k < self.emitted_s().len() ==> progressor.emits(
                        (BlockNode { location: (#[trigger] self.emitted_s()[k]).0 }),
                        self.emitted_s()[k].1,
                    ),
            decreases MAX_EXPANSIONS_PER_CALL - steps,
        {
            match self.slice_step(eff, heuristic, progressor, goal_check) {
                Some(inc) => {
                    return inc;
                },
                None => {},
            }
            steps = steps + 1;
        }
        if self.open.len() > 0 {
            Increment::InProgress
        } else {
            let best = self.best_h_idx;
            let pr = self.finish_at(best, false);
            proof {
                assert(pr.path@ == self.chain(best as int));
                assert forall|t: int| 0 <= t < pr.path@.len() - 1 implies self.edge_logged(
                    (#[trigger] pr.path@[t]).state.location,
                    pr.path@[t + 1].state.location,
                ) by {
                    self.lemma_chain_edges(best as int, t);
                }
            }
            Increment::Finished(pr)
        }
    }

    /// One slice step: ends the slice with a result, or expands one
    /// node and goes on.
    #[verifier::spinoff_prover]
    #[verifier::rlimit(100)]
    fn slice_step<H: Heuristic, P: Progressor, G: GoalCheck>(
        &mut self,
        eff: u128,
        heuristic: &H,
        progressor: &P,
        goal_check: &G,
    ) -> (r: Option<Increment<PathResult<BlockRecord>>>)
        requires
            old(self).wf(),
            old(self).started,
        ensures
            final (self).wf(),
            final (self).started,
            final (self).start_loc() == old(self).start_loc(),
            final (self).max_millis_s() == old(self).max_millis_s(),
            old(self).emitted_s().len() <= final (self).emitted_s().len(),
            forall|k: int|
                0 <= k < old(self).emitted_s().len() ==> final (self).emitted_s()[k] == old(
                    self,
                ).emitted_s()[k],
            forall|k: int|
                old(self).emitted_s().len() <= k < final (self).emitted_s().len()
                    ==> progressor.emits(
                    (BlockNode { location: (#[trigger] final (self).emitted_s()[k]).0 }),
                    final (self).emitted_s()[k].1,
                ),
            match r {
                Some(inc) => match inc {
                    Increment::InProgress => final (self).open_count() > 0,
                    Increment::Finished(pr) => {
                        &&& pr.path@.len() >= 1
                        &&& pr.path@[0] == record_of(old(self).start_loc())
                        &&& (pr.complete ==> goal_check.spec_is_goal(
                            (BlockNode { location: pr.path@.last().state.location }),
                        ))
                        &&& (!pr.complete ==> final (self).open_count() == 0 && pr.path@.last()
                            == record_of(
                            final (self).entries_s()[final (self).best_h_s()].loc,
                        ))
                        &&& forall|t: int|
                            0 <= t < pr.path@.len() - 1 ==> final (self).edge_logged(
                                (#[trigger] pr.path@[t]).state.location,
                                pr.path@[t + 1].state.location,
                            )
                        &&& exists|i: int|
                            0 <= i < final (self).entries_s().len() && pr.path@ == #[trigger] final (
                            self).chain(i) && pr.path@.last() == record_of(
                                final (self).entries_s()[i].loc,
                            )
                    },
                },
                None => true,
            },
    {
        if self.open.len() == 0 {
            let best = self.best_h_idx;
            let pr = self.finish_at(best, false);
            proof {
                assert(pr.path@ == self.chain(best as int));
                assert forall|t: int| 0 <= t < pr.path@.len() - 1 implies self.edge_logged(
                    (#[trigger] pr.path@[t]).state.location,
                    pr.path@[t + 1].state.location,
                ) by {
                    self.lemma_chain_edges(best as int, t);
                }
            }
            return Some(Increment::Finished(pr));
        }
        if now_millis() >= eff {
            return Some(Increment::InProgress);
        }
        match self.expand_once(heuristic, progressor, goal_check) {
            Some(oi) => {
                let pr = self.finish_at(oi, true);
                proof {
                    assert(pr.path@ == self.chain(oi as int));
                    assert forall|t: int| 0 <= t < pr.path@.len() - 1 implies self.edge_logged(
                        (#[trigger] pr.path@[t]).state.location,
                        pr.path@[t + 1].state.location,
                    ) by {
                        self.lemma_chain_edges(oi as int, t);
                    }
                }
                Some(Increment::Finished(pr))
            },
            None => None,
        }
    }

    /// The handle of the entry at `loc`, if the arena has one.
    fn find_entry(&self, loc: BlockLocation) -> (r: Option<usize>)
        ensures
            match r {
                Some(i) => i < self.entries_s().len() && self.entries_s()[i as int].loc == loc,
                None => forall|i: int|
                    0 <= i < self.entries_s().len() ==> (#[trigger] self.entries_s()[i]).loc != loc,
            },
    {
        let n = self.entries.len();
        let mut i: usize = 0;
        while i < n
            invariant
                i <= n,
                n == self.entries@.len(),
                forall|t: int| 0 <= t < i ==> (#[trigger] self.entries@[t]).loc != loc,
            decreases n - i,
        {
            if self.entries[i].loc == loc {
                return Some(i);
            }
            i = i + 1;
        }
        None
    }
}

} // verus!
