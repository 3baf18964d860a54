//! The graph-search engine: a frontier of nodes to explore, ordered by
//! key-space distance to a target, with at-most-once "found" and "explored"
//! events per key.
//!
//! The engine keeps every node it has ever seen in `entries`; `states` tags
//! each one as waiting in the frontier, in flight (its query dispatched), or
//! explored (its reply processed). A ghost log records every event fired, and
//! well-formedness ties the log to the state: each key is found at most once,
//! explored at most once, and only after it was found.

use vstd::prelude::*;
use crate::api::{Key, Node, NodeView};
use crate::key_space::{KeySpace, key_coords, dist_to, node_distance};

verus! {

/// Waiting in the frontier.
pub const STATE_FRONTIER: u8 = 0;

/// Dispatched, awaiting a reply.
pub const STATE_IN_FLIGHT: u8 = 1;

/// Reply processed.
pub const STATE_EXPLORED: u8 = 2;

/// One callback event of a search: a node was first observed, or a node's
/// own query reply was processed.
pub enum SearchEvent {
    Found(NodeView),
    Explored(NodeView),
}

impl SearchEvent {
    /// The key value the event is about.
    pub open spec fn id_val(self) -> int {
        match self {
            SearchEvent::Found(v) => v.id_val(),
            SearchEvent::Explored(v) => v.id_val(),
        }
    }
}

/// A "found" event for key `id` somewhere in the log.
pub open spec fn has_found_event(log: Seq<SearchEvent>, id: int) -> bool {
    exists|t: int| 0 <= t < log.len() && (#[trigger] log[t]) is Found && log[t].id_val() == id
}

/// A "found" event for key `id` strictly before position `t2`.
pub open spec fn found_before(log: Seq<SearchEvent>, t2: int, id: int) -> bool {
    exists|t: int| 0 <= t < t2 && (#[trigger] log[t]) is Found && log[t].id_val() == id
}

/// An "explored" event for key `id` somewhere in the log.
pub open spec fn has_explored_event(log: Seq<SearchEvent>, id: int) -> bool {
    exists|t: int| 0 <= t < log.len() && (#[trigger] log[t]) is Explored && log[t].id_val() == id
}

/// The event discipline: each key is found at most once, explored at most
/// once, and explored only after it was found.
pub open spec fn events_wf(log: Seq<SearchEvent>) -> bool {
    &&& forall|t1: int, t2: int|
        0 <= t1 < t2 < log.len() && (#[trigger] log[t1]) is Found && (#[trigger] log[t2]) is Found
            ==> log[t1].id_val() != log[t2].id_val()
    &&& forall|t1: int, t2: int|
        0 <= t1 < t2 < log.len() && (#[trigger] log[t1]) is Explored && (
        #[trigger] log[t2]) is Explored ==> log[t1].id_val() != log[t2].id_val()
    &&& forall|t2: int|
        0 <= t2 < log.len() && (#[trigger] log[t2]) is Explored ==> found_before(
            log,
            t2,
            log[t2].id_val(),
        )
}

/// A node with key `id` among `entries`.
pub open spec fn id_among(entries: Seq<Node>, id: int) -> bool {
    exists|p: int| 0 <= p < entries.len() && (#[trigger] entries[p])@.id_val() == id
}

/// A node with key `id` among `entries` at a position tagged `state`.
pub open spec fn id_among_with_state(
    entries: Seq<Node>,
    states: Seq<u8>,
    id: int,
    state: u8,
) -> bool {
    exists|p: int|
        0 <= p < entries.len() && (#[trigger] entries[p])@.id_val() == id && states[p] == state
}

/// One search invocation's state.
pub struct GraphSearch {
    pub target_space: KeySpace,
    pub entries: Vec<Node>,
    pub states: Vec<u8>,
    pub log: Ghost<Seq<SearchEvent>>,
}

impl GraphSearch {
    /// The engine invariant: parallel vectors, well-formed distinct nodes,
    /// and a log in which exactly the entries are found, exactly the
    /// explored-tagged entries are explored, and the event discipline holds.
    pub open spec fn wf(self) -> bool {
        &&& self.entries@.len() == self.states@.len()
        &&& self.target_space.wf()
        &&& forall|p: int| 0 <= p < self.entries@.len() ==> (#[trigger] self.entries@[p])@.wf()
        &&& forall|p: int, q: int|
            0 <= p < q < self.entries@.len() ==> (#[trigger] self.entries@[p])@.id_val() != (
            #[trigger] self.entries@[q])@.id_val()
        &&& forall|p: int| 0 <= p < self.states@.len() ==> (#[trigger] self.states@[p]) <= 2
        &&& forall|p: int|
            0 <= p < self.entries@.len() ==> has_found_event(
                self.log@,
                (#[trigger] self.entries@[p])@.id_val(),
            )
        &&& forall|t: int|
            0 <= t < self.log@.len() && (#[trigger] self.log@[t]) is Found ==> id_among(
                self.entries@,
                self.log@[t].id_val(),
            )
        &&& forall|p: int|
            0 <= p < self.entries@.len() && (#[trigger] self.states@[p]) == STATE_EXPLORED
                ==> has_explored_event(self.log@, self.entries@[p]@.id_val())
        &&& forall|t: int|
            0 <= t < self.log@.len() && (#[trigger] self.log@[t]) is Explored
                ==> id_among_with_state(
                self.entries@,
                self.states@,
                self.log@[t].id_val(),
                STATE_EXPLORED,
            )
        &&& events_wf(self.log@)
    }

    /// A fresh search toward `target_key`, with keys embedded into
    /// `key_space_size` dimensions.
    pub fn new(target_key: &Key, key_space_size: usize) -> (r: GraphSearch)
        requires
            target_key@.wf(),
        ensures
            r.wf(),
            r.target_space@ == key_coords(target_key@.id_val(), key_space_size as nat),
            r.entries@.len() == 0,
            r.log@.len() == 0,
    {
        GraphSearch {
            target_space: KeySpace::from_key(target_key, key_space_size),
            entries: Vec::new(),
            states: Vec::new(),
            log: Ghost(Seq::empty()),
        }
    }

    /// Whether a node with this key has been observed already.
    pub fn contains_key(&self, node: &Node) -> (r: bool)
        requires
            self.wf(),
            node@.wf(),
        ensures
            r == id_among(self.entries@, node@.id_val()),
    {
        let mut p: usize = 0;
        while p < self.entries.len()
            invariant
                self.wf(),
                node@.wf(),
                0 <= p <= self.entries@.len(),
                forall|q: int|
                    0 <= q < p ==> (#[trigger] self.entries@[q])@.id_val() != node@.id_val(),
            decreases self.entries@.len() - p,
        {
            if self.entries[p].key.same_key(&node.key) {
                return true;
            }
            p += 1;
        }
        false
    }

    /// Observe a node. A node with a new key enters the frontier and fires a
    /// "found" event; a node whose key was already observed changes nothing.
    pub fn add_found(&mut self, node: &Node) -> (fired: bool)
        requires
            old(self).wf(),
            node@.wf(),
        ensures
            final(self).wf(),
            final(self).target_space == old(self).target_space,
            fired == !id_among(old(self).entries@, node@.id_val()),
            fired ==> final(self).log@ == old(self).log@.push(SearchEvent::Found(node@))
                && final(self).entries@.len() == old(self).entries@.len() + 1
                && final(self).entries@.drop_last() == old(self).entries@
                && final(self).entries@.last()@ == node@
                && final(self).states@ == old(self).states@.push(STATE_FRONTIER),
            !fired ==> final(self).log@ == old(self).log@ && final(self).entries@ == old(
                self,
            ).entries@ && final(self).states@ == old(self).states@,
    {
        if self.contains_key(node) {
            return false;
        }
        let ghost log_old = self.log@;
        let ghost entries_old = self.entries@;
        let ghost states_old = self.states@;
        self.entries.push(node.clone());
        self.states.push(STATE_FRONTIER);
        proof {
            assert(self.entries@.drop_last() =~= entries_old);
        }
        proof {
            self.log@ = self.log@.push(SearchEvent::Found(node@));
        }
        proof {
            let log_new = self.log@;
            let entries_new = self.entries@;
            let states_new = self.states@;
            let le = log_old.len() as int;
            let pe = entries_old.len() as int;
            assert(log_new[le] == SearchEvent::Found(node@));
            assert(entries_new[pe]@ == node@);
            // Every entry still has a found event, and conversely.
            assert forall|p: int| 0 <= p < entries_new.len() implies has_found_event(
                log_new,
                (#[trigger] entries_new[p])@.id_val(),
            ) by {
                if p < pe {
                    let t = choose|t: int|
                        0 <= t < log_old.len() && (#[trigger] log_old[t]) is Found
                            && log_old[t].id_val() == entries_old[p]@.id_val();
                    assert(log_new[t] == log_old[t]);
                } else {
                    assert(log_new[le] is Found && log_new[le].id_val() == node@.id_val());
                }
            };
            assert forall|t: int|
                0 <= t < log_new.len() && (#[trigger] log_new[t]) is Found implies id_among(
                entries_new,
                log_new[t].id_val(),
            ) by {
                if t < le {
                    let p = choose|p: int|
                        0 <= p < entries_old.len() && (#[trigger] entries_old[p])@.id_val()
                            == log_old[t].id_val();
                    assert(entries_new[p]@.id_val() == log_new[t].id_val());
                } else {
                    assert(entries_new[pe]@.id_val() == log_new[t].id_val());
                }
            };
            // Explored events and explored-tagged entries are untouched.
            assert forall|p: int|
                0 <= p < entries_new.len() && (#[trigger] states_new[p])
                    == STATE_EXPLORED implies has_explored_event(
                log_new,
                entries_new[p]@.id_val(),
            ) by {
                assert(p < pe);
                let t = choose|t: int|
                    0 <= t < log_old.len() && (#[trigger] log_old[t]) is Explored
                        && log_old[t].id_val() == entries_old[p]@.id_val();
                assert(log_new[t] == log_old[t]);
            };
            assert forall|t: int|
                0 <= t < log_new.len() && (#[trigger] log_new[t]) is Explored implies id_among_with_state(
                entries_new,
                states_new,
                log_new[t].id_val(),
                STATE_EXPLORED,
            ) by {
                assert(t < le);
                let p = choose|p: int|
                    0 <= p < entries_old.len() && (#[trigger] entries_old[p])@.id_val()
                        == log_old[t].id_val() && states_old[p] == STATE_EXPLORED;
                assert(entries_new[p]@.id_val() == log_new[t].id_val() && states_new[p]
                    == STATE_EXPLORED);
            };
            // The event discipline still holds: the new event is a first
            // "found" for this key.
            assert forall|t1: int, t2: int|
                0 <= t1 < t2 < log_new.len() && (#[trigger] log_new[t1]) is Found && (
            #[trigger] log_new[t2]) is Found implies log_new[t1].id_val()
                != log_new[t2].id_val() by {
                if t2 == le {
                    assert(log_new[t1] == log_old[t1]);
                    if log_old[t1].id_val() == node@.id_val() {
                        let p = choose|p: int|
                            0 <= p < entries_old.len() && (#[trigger] entries_old[p])@.id_val()
                                == log_old[t1].id_val();
                        assert(id_among(entries_old, node@.id_val()));
                    }
                }
            };
            assert forall|t2: int|
                0 <= t2 < log_new.len() && (#[trigger] log_new[t2]) is Explored implies found_before(
                log_new,
                t2,
                log_new[t2].id_val(),
            ) by {
                assert(t2 < le);
                let t1 = choose|t: int|
                    0 <= t < t2 && (#[trigger] log_old[t]) is Found && log_old[t].id_val()
                        == log_old[t2].id_val();
                assert(log_new[t1] == log_old[t1]);
            };
        }
        true
    }

    /// The closest frontier node to the target, if any, moved into flight.
    /// The node handed back is the one whose query should be dispatched next.
    #[verifier::rlimit(100)]
    pub fn next_to_query(&mut self) -> (r: Option<Node>)
        requires
            old(self).wf(),
        ensures
            final(self).wf(),
            final(self).target_space == old(self).target_space,
            final(self).log@ == old(self).log@,
            final(self).entries@ == old(self).entries@,
            r is None <==> !(exists|p: int|
                0 <= p < old(self).states@.len() && (#[trigger] old(self).states@[p])
                    == STATE_FRONTIER),
            r is None ==> final(self).states@ == old(self).states@,
            r matches Some(n) ==> exists|p: int|
                {
                    &&& 0 <= p < old(self).entries@.len()
                    &&& (#[trigger] old(self).entries@[p])@ == n@
                    &&& old(self).states@[p] == STATE_FRONTIER
                    &&& final(self).states@ == old(self).states@.update(p, STATE_IN_FLIGHT)
                    &&& forall|q: int|
                        0 <= q < old(self).states@.len() && (#[trigger] old(self).states@[q])
                            == STATE_FRONTIER ==> dist_to(
                            old(self).entries@[p]@.id_val(),
                            old(self).target_space@,
                        ) <= dist_to(old(self).entries@[q]@.id_val(), old(self).target_space@)
                },
    {
        let mut best: usize = 0;
        let mut found_any: bool = false;
        let mut p: usize = 0;
        while p < self.entries.len()
            invariant
                old(self).wf(),
                self == old(self),
                0 <= p <= self.entries@.len(),
                found_any ==> 0 <= (best as int) < p && self.states@[best as int]
                    == STATE_FRONTIER,
                found_any ==> forall|q: int|
                    0 <= q < p && (#[trigger] self.states@[q]) == STATE_FRONTIER ==> dist_to(
                        self.entries@[best as int]@.id_val(),
                        self.target_space@,
                    ) <= dist_to(self.entries@[q]@.id_val(), self.target_space@),
                !found_any ==> forall|q: int|
                    0 <= q < p ==> (#[trigger] self.states@[q]) != STATE_FRONTIER,
            decreases self.entries@.len() - p,
        {
            if self.states[p] == STATE_FRONTIER {
                if !found_any {
                    best = p;
                    found_any = true;
                } else {
                    let d_best = node_distance(&self.entries[best], &self.target_space);
                    let d_p = node_distance(&self.entries[p], &self.target_space);
                    if d_p < d_best {
                        best = p;
                    }
                }
            }
            p += 1;
        }
        if !found_any {
            return None;
        }
        let chosen = self.entries[best].clone();
        set_state(&mut self.states, best, STATE_IN_FLIGHT);
        proof {
            let states_new = self.states@;
            let entries = self.entries@;
            let log = self.log@;
            assert forall|p2: int|
                0 <= p2 < entries.len() && (#[trigger] states_new[p2])
                    == STATE_EXPLORED implies has_explored_event(log, entries[p2]@.id_val()) by {
                assert(old(self).states@[p2] == STATE_EXPLORED);
            };
            assert forall|t: int|
                0 <= t < log.len() && (#[trigger] log[t]) is Explored implies id_among_with_state(
                entries,
                states_new,
                log[t].id_val(),
                STATE_EXPLORED,
            ) by {
                let p2 = choose|p2: int|
                    0 <= p2 < entries.len() && (#[trigger] entries[p2])@.id_val()
                        == log[t].id_val() && old(self).states@[p2] == STATE_EXPLORED;
                assert(states_new[p2] == STATE_EXPLORED);
            };
        }
        Some(chosen)
    }

    /// Record the reply for a node whose query was in flight: the node is
    /// tagged explored and an "explored" event fires. A key that is not in
    /// flight (late, duplicated or unsolicited replies) changes nothing.
    #[verifier::rlimit(100)]
    pub fn mark_explored(&mut self, node: &Node) -> (fired: bool)
        requires
            old(self).wf(),
            node@.wf(),
        ensures
            final(self).wf(),
            final(self).target_space == old(self).target_space,
            final(self).entries@ == old(self).entries@,
            fired == id_among_with_state(
                old(self).entries@,
                old(self).states@,
                node@.id_val(),
                STATE_IN_FLIGHT,
            ),
            !fired ==> final(self).states@ == old(self).states@ && final(self).log@ == old(
                self,
            ).log@,
            fired ==> final(self).log@.len() == old(self).log@.len() + 1 && final(self).log@.take(
                old(self).log@.len() as int,
            ) == old(self).log@ && final(self).log@.last() is Explored
                && final(self).log@.last().id_val() == node@.id_val(),
    {
        let mut p: usize = 0;
        while p < self.entries.len()
            invariant
                old(self).wf(),
                node@.wf(),
                self == old(self),
                0 <= p <= self.entries@.len(),
                forall|q: int|
                    0 <= q < p ==> !((#[trigger] self.entries@[q])@.id_val() == node@.id_val()
                        && self.states@[q] == STATE_IN_FLIGHT),
            decreases self.entries@.len() - p,
        {
            if self.states[p] == STATE_IN_FLIGHT && self.entries[p].key.same_key(&node.key) {
                let ghost states_old = self.states@;
                let ghost log_old = self.log@;
                let ghost entries = self.entries@;
                set_state(&mut self.states, p, STATE_EXPLORED);
                proof {
                    self.log@ = self.log@.push(SearchEvent::Explored(entries[p as int]@));
                }
                proof {
                    let states_new = self.states@;
                    let log_new = self.log@;
                    let le = log_old.len() as int;
                    let pi = p as int;
                    assert(log_new[le] == SearchEvent::Explored(entries[pi]@));
                    assert(log_new.take(le) =~= log_old);
                    assert forall|p2: int| 0 <= p2 < entries.len() implies has_found_event(
                        log_new,
                        (#[trigger] entries[p2])@.id_val(),
                    ) by {
                        let t = choose|t: int|
                            0 <= t < log_old.len() && (#[trigger] log_old[t]) is Found
                                && log_old[t].id_val() == entries[p2]@.id_val();
                        assert(log_new[t] == log_old[t]);
                    };
                    assert forall|t: int|
                        0 <= t < log_new.len() && (#[trigger] log_new[t]) is Found implies id_among(
                        entries,
                        log_new[t].id_val(),
                    ) by {
                        assert(t < le);
                        assert(log_new[t] == log_old[t]);
                    };
                    assert forall|p2: int|
                        0 <= p2 < entries.len() && (#[trigger] states_new[p2])
                            == STATE_EXPLORED implies has_explored_event(
                        log_new,
                        entries[p2]@.id_val(),
                    ) by {
                        if p2 != pi {
                            assert(states_old[p2] == STATE_EXPLORED);
                            let t = choose|t: int|
                                0 <= t < log_old.len() && (#[trigger] log_old[t]) is Explored
                                    && log_old[t].id_val() == entries[p2]@.id_val();
                            assert(log_new[t] == log_old[t]);
                        } else {
                            assert(log_new[le] is Explored && log_new[le].id_val()
                                == entries[pi]@.id_val());
                        }
                    };
                    assert forall|t: int|
                        0 <= t < log_new.len() && (
                    #[trigger] log_new[t]) is Explored implies id_among_with_state(
                        entries,
                        states_new,
                        log_new[t].id_val(),
                        STATE_EXPLORED,
                    ) by {
                        if t < le {
                            assert(log_new[t] == log_old[t]);
                            let p2 = choose|p2: int|
                                0 <= p2 < entries.len() && (#[trigger] entries[p2])@.id_val()
                                    == log_old[t].id_val() && states_old[p2] == STATE_EXPLORED;
                            assert(states_new[p2] == STATE_EXPLORED);
                        } else {
                            assert(entries[pi]@.id_val() == log_new[t].id_val() && states_new[pi]
                                == STATE_EXPLORED);
                        }
                    };
                    // Discipline: this key was never explored before, and it
                    // was found earlier.
                    assert forall|t1: int, t2: int|
                        0 <= t1 < t2 < log_new.len() && (#[trigger] log_new[t1]) is Explored && (
                    #[trigger] log_new[t2]) is Explored implies log_new[t1].id_val()
                        != log_new[t2].id_val() by {
                        if t2 == le {
                            assert(log_new[t1] == log_old[t1]);
                            if log_old[t1].id_val() == entries[pi]@.id_val() {
                                let p2 = choose|p2: int|
                                    0 <= p2 < entries.len() && (#[trigger] entries[p2])@.id_val()
                                        == log_old[t1].id_val() && states_old[p2]
                                        == STATE_EXPLORED;
                                assert(p2 == pi);
                            }
                        }
                    };
                    assert forall|t2: int|
                        0 <= t2 < log_new.len() && (
                    #[trigger] log_new[t2]) is Explored implies found_before(
                        log_new,
                        t2,
                        log_new[t2].id_val(),
                    ) by {
                        if t2 < le {
                            let t1 = choose|t: int|
                                0 <= t < t2 && (#[trigger] log_old[t]) is Found
                                    && log_old[t].id_val() == log_old[t2].id_val();
                            assert(log_new[t1] == log_old[t1]);
                        } else {
                            let t1 = choose|t: int|
                                0 <= t < log_old.len() && (#[trigger] log_old[t]) is Found
                                    && log_old[t].id_val() == entries[pi]@.id_val();
                            assert(log_new[t1] == log_old[t1]);
                            assert(t1 < t2);
                        }
                    };
                }
                return true;
            }
            p += 1;
        }
        false
    }

    /// Whether the search has run out of work: nothing waiting, nothing in
    /// flight.
    pub fn is_exhausted(&self) -> (r: bool)
        requires
            self.wf(),
        ensures
            r == (forall|p: int|
                0 <= p < self.states@.len() ==> (#[trigger] self.states@[p]) == STATE_EXPLORED),
    {
        let mut p: usize = 0;
        while p < self.states.len()
            invariant
                self.wf(),
                0 <= p <= self.states@.len(),
                forall|q: int| 0 <= q < p ==> (#[trigger] self.states@[q]) == STATE_EXPLORED,
            decreases self.states@.len() - p,
        {
            if self.states[p] != STATE_EXPLORED {
                return false;
            }
            p += 1;
        }
        true
    }
}

/// Overwrite one element of a byte vector.
fn set_state(states: &mut Vec<u8>, i: usize, val: u8)
    requires
        i < old(states)@.len(),
    ensures
        final(states)@ == old(states)@.update(i as int, val),
{
    states.remove(i);
    states.insert(i, val);
    proof {
        assert(states@ =~= old(states)@.update(i as int, val));
    }
}

/// Law: in any search, each key fires "found" at most once and "explored" at
/// most once, and a key fires "explored" only after it fired "found".
pub proof fn lemma_callback_discipline(s: GraphSearch)
    requires
        s.wf(),
    ensures
        forall|t1: int, t2: int|
            0 <= t1 < t2 < s.log@.len() && (#[trigger] s.log@[t1]) is Found && (
            #[trigger] s.log@[t2]) is Found ==> s.log@[t1].id_val() != s.log@[t2].id_val(),
        forall|t1: int, t2: int|
            0 <= t1 < t2 < s.log@.len() && (#[trigger] s.log@[t1]) is Explored && (
            #[trigger] s.log@[t2]) is Explored ==> s.log@[t1].id_val() != s.log@[t2].id_val(),
        forall|t2: int|
            0 <= t2 < s.log@.len() && (#[trigger] s.log@[t2]) is Explored ==> found_before(
                s.log@,
                t2,
                s.log@[t2].id_val(),
            ),
{
}

} // verus!
