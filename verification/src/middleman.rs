//! The bidirectional-search coordinator's state machine: it watches the
//! nodes both searches visit and emits the first node seen twice, or
//! `None` when the forward search finishes without an overlap.  The
//! channel plumbing that feeds it lives outside the library.

use vstd::prelude::*;

use crate::types::BlockLocation;

verus! {

/// A message from one of the two searches.
#[derive(Clone, Copy, Debug)]
pub enum Msg<T> {
    /// The search visited this node.
    Node(T),
    /// The search's open set emptied or it reached the far endpoint.
    Finished { forward: bool },
}

/// The coordinator state: the set of nodes seen so far, and whether a
/// verdict was already emitted.  Once done, every further message is
/// ignored, so at most one value is ever emitted.
pub struct Middleman {
    traversed: Vec<BlockLocation>,
    done: bool,
}

/// The coordinator's transition on one message, as a mathematical
/// function of `(seen nodes, done) x message`: the new state and the
/// emitted verdict, if any.  [`Middleman::step`] is proved to follow
/// it exactly.
pub open spec fn spec_step(
    tr: Seq<BlockLocation>,
    done: bool,
    msg: Msg<BlockLocation>,
) -> (Seq<BlockLocation>, bool, Option<Option<BlockLocation>>) {
    if done {
        (tr, true, Option::None)
    } else {
        match msg {
            Msg::Node(n) => if tr.contains(n) {
                (tr, true, Some(Some(n)))
            } else {
                (tr.push(n), false, Option::None)
            },
            Msg::Finished { forward } => if forward {
                (tr, true, Some(Option::<BlockLocation>::None))
            } else {
                (tr, false, Option::None)
            },
        }
    }
}

/// The state a fresh coordinator reaches after the whole message
/// sequence.
pub open spec fn run_state(msgs: Seq<Msg<BlockLocation>>) -> (Seq<BlockLocation>, bool)
    decreases msgs.len(),
{
    if msgs.len() == 0 {
        (Seq::empty(), false)
    } else {
        let prev = run_state(msgs.drop_last());
        let st = spec_step(prev.0, prev.1, msgs.last());
        (st.0, st.1)
    }
}

/// Every verdict a fresh coordinator emits over the message sequence,
/// in order.
pub open spec fn run_emissions(msgs: Seq<Msg<BlockLocation>>) -> Seq<Option<BlockLocation>>
    decreases msgs.len(),
{
    if msgs.len() == 0 {
        Seq::empty()
    } else {
        let prev = run_state(msgs.drop_last());
        let st = spec_step(prev.0, prev.1, msgs.last());
        match st.2 {
            Some(v) => run_emissions(msgs.drop_last()).push(v),
            Option::None => run_emissions(msgs.drop_last()),
        }
    }
}

/// How often the sequence carries `Node(n)`.
pub open spec fn node_count(msgs: Seq<Msg<BlockLocation>>, n: BlockLocation) -> nat
    decreases msgs.len(),
{
    if msgs.len() == 0 {
        0
    } else {
        node_count(msgs.drop_last(), n) + (match msgs.last() {
            Msg::Node(m) => if m == n {
                1nat
            } else {
                0nat
            },
            Msg::Finished { .. } => 0nat,
        })
    }
}

/// The coordinator emits at most one verdict over any run, and it has
/// emitted one exactly when it is done.
pub proof fn lemma_at_most_one_emission(msgs: Seq<Msg<BlockLocation>>)
    ensures
        run_emissions(msgs).len() <= 1,
        run_state(msgs).1 == (run_emissions(msgs).len() == 1),
    decreases msgs.len(),
{
    if msgs.len() > 0 {
        lemma_at_most_one_emission(msgs.drop_last());
    }
}

/// An emitted meeting node was observed at least twice among the
/// visited-node messages.  When each side's visit stream is free of
/// duplicates, two observations mean both sides visited it.
pub proof fn lemma_emitted_node_observed_twice(msgs: Seq<Msg<BlockLocation>>)
    ensures
        forall|x: BlockLocation| #[trigger]
            run_state(msgs).0.contains(x) ==> node_count(msgs, x) >= 1,
        forall|j: int|
            0 <= j < run_emissions(msgs).len() ==> (#[trigger] run_emissions(msgs)[j] matches Some(
                n,
            ) ==> node_count(msgs, n) >= 2),
    decreases msgs.len(),
{
    if msgs.len() > 0 {
        let prefix = msgs.drop_last();
        lemma_emitted_node_observed_twice(prefix);
        assert forall|x: BlockLocation|
            node_count(prefix, x) <= #[trigger] node_count(msgs, x) by {}
        let prev = run_state(prefix);
        let st = spec_step(prev.0, prev.1, msgs.last());
        assert forall|x: BlockLocation| #[trigger]
            run_state(msgs).0.contains(x) implies node_count(msgs, x) >= 1 by {
            if prev.0.contains(x) {
                assert(node_count(prefix, x) >= 1);
            } else {
                // the state only grew by the node of this message
                match msgs.last() {
                    Msg::Node(m) => {
                        assert(x == m);
                        assert(node_count(msgs, x) == node_count(prefix, x) + 1);
                    },
                    Msg::Finished { .. } => {
                        assert(run_state(msgs).0 == prev.0);
                    },
                }
            }
        }
        assert forall|j: int| 0 <= j < run_emissions(msgs).len() implies (
        #[trigger] run_emissions(msgs)[j] matches Some(n) ==> node_count(msgs, n) >= 2) by {
            if j < run_emissions(prefix).len() {
                assert(run_emissions(msgs)[j] == run_emissions(prefix)[j]);
            } else {
                // the verdict of this very message
                match st.2 {
                    Some(v) => {
                        assert(run_emissions(msgs)[j] == v);
                        match v {
                            Some(n) => {
                                assert(prev.0.contains(n));
                                assert(node_count(prefix, n) >= 1);
                                assert(node_count(msgs, n) == node_count(prefix, n) + 1);
                            },
                            Option::None => {},
                        }
                    },
                    Option::None => {},
                }
            }
        }
    }
}

/// The converse of the meeting rule: while no verdict was emitted,
/// every visited node was fresh — the seen-set holds exactly the nodes
/// of the `Node` messages, each observed once.  Together with
/// [`lemma_at_most_one_emission`] and
/// [`lemma_emitted_node_observed_twice`] this makes the verdict the
/// first node to arrive a second time, if any.
pub proof fn lemma_no_emission_means_no_duplicate(msgs: Seq<Msg<BlockLocation>>)
    ensures
        !run_state(msgs).1 ==> forall|n: BlockLocation| node_count(msgs, n) <= 1,
        !run_state(msgs).1 ==> forall|n: BlockLocation|
            #[trigger] run_state(msgs).0.contains(n) == (node_count(msgs, n) >= 1),
    decreases msgs.len(),
{
    if msgs.len() > 0 {
        let prefix = msgs.drop_last();
        lemma_no_emission_means_no_duplicate(prefix);
        let prev = run_state(prefix);
        if !run_state(msgs).1 {
            // a verdict never clears: the previous state was also open
            assert(!prev.1);
            match msgs.last() {
                Msg::Node(m) => {
                    assert(!prev.0.contains(m));
                    assert(node_count(prefix, m) == 0);
                    assert(run_state(msgs).0 == prev.0.push(m));
                    assert forall|n: BlockLocation| node_count(msgs, n) <= 1 by {
                        if n == m {
                            assert(node_count(msgs, n) == 1);
                        } else {
                            assert(node_count(msgs, n) == node_count(prefix, n));
                        }
                    }
                    assert forall|n: BlockLocation| #[trigger]
                        run_state(msgs).0.contains(n) == (node_count(msgs, n) >= 1) by {
                        if prev.0.push(m).contains(n) {
                            let k = choose|k: int|
                                0 <= k < prev.0.push(m).len() && prev.0.push(m)[k] == n;
                            if k < prev.0.len() {
                                assert(prev.0[k] == n);
                                assert(prev.0.contains(n));
                            } else {
                                assert(n == m);
                            }
                        }
                        if prev.0.contains(n) {
                            let k = choose|k: int| 0 <= k < prev.0.len() && prev.0[k] == n;
                            assert(prev.0.push(m)[k] == n);
                            assert(prev.0.push(m).contains(n));
                        }
                        if n == m {
                            assert(prev.0.push(m)[prev.0.len() as int] == n);
                            assert(prev.0.push(m).contains(n));
                        }
                        if n == m {
                            assert(node_count(msgs, n) == 1);
                        } else {
                            assert(node_count(msgs, n) == node_count(prefix, n));
                        }
                    }
                },
                Msg::Finished { .. } => {
                    assert(run_state(msgs).0 == prev.0);
                    assert(forall|n: BlockLocation|
                        node_count(msgs, n) == node_count(prefix, n));
                },
            }
        }
    }
}

impl Middleman {
    /// The nodes observed so far, in arrival order.
    pub closed spec fn traversed_s(self) -> Seq<BlockLocation> {
        self.traversed@
    }

    /// Whether the verdict was emitted.
    pub closed spec fn done_s(self) -> bool {
        self.done
    }

    /// A fresh coordinator: nothing seen, no verdict.
    pub fn new() -> (r: Middleman)
        ensures
            r.traversed_s() == Seq::<BlockLocation>::empty(),
            !r.done_s(),
    {
        Middleman { traversed: Vec::new(), done: false }
    }

    /// Feeds one message.  `Some(v)` is the verdict (emitted at most
    /// once): `Some(Some(n))` when `n` was already seen, `Some(None)`
    /// when the forward search finished without an overlap.  The
    /// backward search finishing alone is not fatal.
    pub fn step(&mut self, msg: Msg<BlockLocation>) -> (r: Option<Option<BlockLocation>>)
        ensures
            (final (self).traversed_s(), final (self).done_s(), r) == spec_step(
                old(self).traversed_s(),
                old(self).done_s(),
                msg,
            ),
            old(self).done_s() ==> r is None && final (self).done_s() && final (self).traversed_s()
                == old(self).traversed_s(),
            !old(self).done_s() ==> match msg {
                Msg::Node(n) => {
                    if old(self).traversed_s().contains(n) {
                        r == Some(Some(n)) && final (self).done_s() && final (self).traversed_s()
                            == old(self).traversed_s()
                    } else {
                        r is None && !final (self).done_s() && final (self).traversed_s() == old(
                            self,
                        ).traversed_s().push(n)
                    }
                },
                Msg::Finished { forward } => {
                    if forward {
                        r == Some(Option::<BlockLocation>::None) && final (self).done_s() && final (
                        self).traversed_s() == old(self).traversed_s()
                    } else {
                        r is None && !final (self).done_s() && final (self).traversed_s() == old(
                            self,
                        ).traversed_s()
                    }
                },
            },
    {
        if self.done {
            return None;
        }
        match msg {
            Msg::Node(n) => {
                let len = self.traversed.len();
                let mut i: usize = 0;
                let mut seen = false;
                while i < len
                    invariant
                        i <= len,
                        len == self.traversed@.len(),
                        seen == exists|k: int|
                            0 <= k < i && #[trigger] self.traversed@[k] == n,
                    decreases len - i,
                {
                    if self.traversed[i] == n {
                        seen = true;
                    }
                    i = i + 1;
                }
                proof {
                    assert(seen == self.traversed@.contains(n));
                }
                if seen {
                    self.done = true;
                    Some(Some(n))
                } else {
                    self.traversed.push(n);
                    None
                }
            },
            Msg::Finished { forward } => {
                if forward {
                    self.done = true;
                    Some(None)
                } else {
                    None
                }
            },
        }
    }
}

} // verus!
