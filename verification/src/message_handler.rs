//! Request dispatch and the two search modes built on the graph-search
//! engine.
//!
//! `GraphRequestHandler` answers queries and neighbour listings directly from
//! the neighbours store. A search or connect request becomes a driver value
//! (`KeySearch` or `ConnectSearch`) that the surrounding runtime steps: it
//! asks the driver which node to query next, performs the network call, and
//! hands the reply back.

use vstd::prelude::*;
use crate::api::{
    ApiError, ApiErrorType, ApiVisibility, Key, Node, RequestMessage, RequestPayload,
    ResponsePayload, MessageSender, NodeView, views_of_nodes,
};
use crate::graph_search::{
    GraphSearch, has_found_event, has_explored_event, id_among, id_among_with_state,
    STATE_FRONTIER, STATE_IN_FLIGHT,
};
use crate::key_space::{key_coords, dist_to};
use crate::neighbours_store::NeighboursStore;

verus! {

/// How many of the closest-to-self nodes a join search tracks before it
/// declares the overlay joined.
pub const DEFAULT_CONNECT_SEARCH_SIZE: usize = 3;

/// The default bound on stored neighbours.
pub const DEFAULT_NEIGHBOURS_SIZE: usize = 3;

/// The default key-space dimension.
pub const DEFAULT_KEY_SPACE_SIZE: usize = 2;

/// A locate-key search: explore outward from the initial nodes until a node
/// with the target key is observed, or the frontier runs dry.
pub struct KeySearch {
    pub target: Key,
    pub engine: GraphSearch,
    pub result: Option<Node>,
    pub done: bool,
}

impl KeySearch {
    /// The driver invariant: a result is only ever a well-formed node with
    /// the target key, and while no result is recorded the target key has
    /// never been observed.
    pub open spec fn wf(self) -> bool {
        &&& self.target@.wf()
        &&& self.engine.wf()
        &&& (self.result matches Some(n) ==> n@.wf() && n@.id_val() == self.target@.id_val()
            && self.done)
        &&& (self.result is None ==> !has_found_event(self.engine.log@, self.target@.id_val()))
    }

    /// Observe one node: record it in the engine, and finish the search if it
    /// carries the target key.
    fn feed(&mut self, node: &Node)
        requires
            old(self).wf(),
            node@.wf(),
        ensures
            final(self).wf(),
            final(self).target@ == old(self).target@,
            final(self).engine.target_space == old(self).engine.target_space,
            id_among(final(self).engine.entries@, node@.id_val()),
            forall|id: int|
                id_among(old(self).engine.entries@, id) ==> id_among(
                    final(self).engine.entries@,
                    id,
                ),
            forall|id: int|
                id_among(final(self).engine.entries@, id) ==> id_among(
                    old(self).engine.entries@,
                    id,
                ) || id == node@.id_val(),
            forall|id: int|
                has_explored_event(old(self).engine.log@, id) ==> has_explored_event(
                    final(self).engine.log@,
                    id,
                ),
            (final(self).result is Some) == (old(self).result is Some || node@.id_val() == old(
                self,
            ).target@.id_val()),
            old(self).result is Some ==> final(self).result == old(self).result,
            final(self).done == (old(self).done || final(self).result is Some),
    {
        let ghost entries_old = self.engine.entries@;
        let ghost log_old = self.engine.log@;
        let fired = self.engine.add_found(node);
        if self.result.is_none() && fired && node.key.same_key(&self.target) {
            self.result = Some(node.clone());
            self.done = true;
        }
        proof {
            let entries_new = self.engine.entries@;
            let log_new = self.engine.log@;
            // The node's key is observed afterwards.
            if fired {
                assert(entries_new[entries_old.len() as int]@.id_val() == node@.id_val());
            }
            assert(id_among(entries_new, node@.id_val()));
            // Observations only grow, and only by this node's key.
            assert forall|id: int| id_among(entries_old, id) implies id_among(
                entries_new,
                id,
            ) by {
                let pp = choose|pp: int|
                    0 <= pp < entries_old.len() && (#[trigger] entries_old[pp])@.id_val() == id;
                assert(entries_new[pp]@.id_val() == id);
            };
            assert forall|id: int| id_among(entries_new, id) implies id_among(entries_old, id)
                || id == node@.id_val() by {
                let pp = choose|pp: int|
                    0 <= pp < entries_new.len() && (#[trigger] entries_new[pp])@.id_val() == id;
                if pp < entries_old.len() {
                    assert(entries_old[pp]@.id_val() == id);
                }
            };
            // Explored events survive the new found event.
            assert forall|id: int| has_explored_event(log_old, id) implies has_explored_event(
                log_new,
                id,
            ) by {
                let t = choose|t: int|
                    0 <= t < log_old.len() && (#[trigger] log_old[t]) is Explored
                        && log_old[t].id_val() == id;
                assert(log_new[t] == log_old[t]);
            };
            // The result appears exactly when the target key is observed.
            if !fired && node@.id_val() == self.target@.id_val() && old(self).result is None {
                // The target was already among the entries, so a found event
                // for it exists, contradicting the invariant.
                assert(has_found_event(self.engine.log@, self.target@.id_val())) by {
                    let pp = choose|pp: int|
                        0 <= pp < entries_old.len() && (#[trigger] entries_old[pp])@.id_val()
                            == node@.id_val();
                    assert(has_found_event(log_old, entries_old[pp]@.id_val()));
                };
                assert(false);
            }
            if self.result is None {
                assert(!has_found_event(self.engine.log@, self.target@.id_val())) by {
                    if has_found_event(self.engine.log@, self.target@.id_val()) {
                        let t = choose|t: int|
                            0 <= t < self.engine.log@.len() && (
                            #[trigger] self.engine.log@[t]) is Found
                                && self.engine.log@[t].id_val() == self.target@.id_val();
                        if fired {
                            assert(t < old(self).engine.log@.len() ==> old(self).engine.log@[t]
                                == self.engine.log@[t]);
                        }
                    }
                };
            }
        }
    }

    /// Start a locate-key search from a snapshot of known nodes. Every
    /// supplied node is observed, and the search already holds a result
    /// exactly when a supplied node carries the target key.
    pub fn new(target: Key, key_space_size: usize, initial: Vec<Node>) -> (r: KeySearch)
        requires
            target@.wf(),
            forall|i: int| 0 <= i < initial@.len() ==> (#[trigger] initial@[i])@.wf(),
        ensures
            r.wf(),
            r.target@ == target@,
            forall|i: int|
                0 <= i < initial@.len() ==> id_among(
                    r.engine.entries@,
                    (#[trigger] initial@[i])@.id_val(),
                ),
            (r.result is Some) == (exists|i: int|
                0 <= i < initial@.len() && (#[trigger] initial@[i])@.id_val()
                    == target@.id_val()),
            r.done == (r.result is Some),
    {
        let ghost tv = target@;
        let engine = GraphSearch::new(&target, key_space_size);
        let mut s = KeySearch { target, engine, result: None, done: false };
        let mut i: usize = 0;
        while i < initial.len()
            invariant
                s.wf(),
                s.target@ == tv,
                forall|k: int| 0 <= k < initial@.len() ==> (#[trigger] initial@[k])@.wf(),
                0 <= i <= initial@.len(),
                forall|k: int|
                    0 <= k < i ==> id_among(s.engine.entries@, (#[trigger] initial@[k])@.id_val()),
                (s.result is Some) == (exists|k: int|
                    0 <= k < i && (#[trigger] initial@[k])@.id_val() == tv.id_val()),
                s.done == (s.result is Some),
            decreases initial@.len() - i,
        {
            let ghost result_was = s.result;
            s.feed(&initial[i]);
            proof {
                if s.result is Some && result_was is None {
                    assert(initial@[i as int]@.id_val() == tv.id_val());
                }
            }
            i += 1;
        }
        s
    }

    /// The node whose query should go out next: a closest frontier node of
    /// the engine, moved into flight. `None` only once the search is
    /// finished, and a search finishes without a result only when its
    /// frontier has drained.
    pub fn next_query(&mut self) -> (r: Option<Node>)
        requires
            old(self).wf(),
        ensures
            final(self).wf(),
            final(self).target@ == old(self).target@,
            final(self).result == old(self).result,
            final(self).engine.entries@ == old(self).engine.entries@,
            final(self).engine.log@ == old(self).engine.log@,
            r matches Some(n) ==> n@.wf() && !old(self).done && final(self).done == old(
                self,
            ).done && (exists|p: int|
                {
                    &&& 0 <= p < old(self).engine.entries@.len()
                    &&& (#[trigger] old(self).engine.entries@[p])@ == n@
                    &&& old(self).engine.states@[p] == STATE_FRONTIER
                    &&& final(self).engine.states@ == old(self).engine.states@.update(
                        p,
                        STATE_IN_FLIGHT,
                    )
                    &&& forall|q: int|
                        0 <= q < old(self).engine.states@.len() && (#[trigger] old(
                            self,
                        ).engine.states@[q]) == STATE_FRONTIER ==> dist_to(
                            old(self).engine.entries@[p]@.id_val(),
                            old(self).engine.target_space@,
                        ) <= dist_to(
                            old(self).engine.entries@[q]@.id_val(),
                            old(self).engine.target_space@,
                        )
                }),
            r is None ==> final(self).done && final(self).engine.states@ == old(
                self,
            ).engine.states@ && (old(self).done || forall|p: int|
                0 <= p < old(self).engine.states@.len() ==> (#[trigger] old(
                    self,
                ).engine.states@[p]) != STATE_FRONTIER),
    {
        if self.done {
            return None;
        }
        let next = self.engine.next_to_query();
        match next {
            Some(n) => {
                proof {
                    let p = choose|p: int|
                        {
                            &&& 0 <= p < old(self).engine.entries@.len()
                            &&& (#[trigger] old(self).engine.entries@[p])@ == n@
                            &&& old(self).engine.states@[p] == STATE_FRONTIER
                            &&& self.engine.states@ == old(self).engine.states@.update(
                                p,
                                STATE_IN_FLIGHT,
                            )
                            &&& forall|q: int|
                                0 <= q < old(self).engine.states@.len() && (#[trigger] old(
                                    self,
                                ).engine.states@[q]) == STATE_FRONTIER ==> dist_to(
                                    old(self).engine.entries@[p]@.id_val(),
                                    old(self).engine.target_space@,
                                ) <= dist_to(
                                    old(self).engine.entries@[q]@.id_val(),
                                    old(self).engine.target_space@,
                                )
                        };
                    assert(old(self).engine.entries@[p]@.wf());
                }
                Some(n)
            },
            None => {
                self.done = true;
                None
            },
        }
    }

    /// Process the reply to one dispatched query: the queried node becomes
    /// explored if its query was in flight, every returned neighbour is
    /// observed, and the search finishes with a result exactly when a
    /// neighbour carries the target key.
    pub fn handle_reply(&mut self, from: &Node, neighbours: &Vec<Node>)
        requires
            old(self).wf(),
            from@.wf(),
            forall|i: int| 0 <= i < neighbours@.len() ==> (#[trigger] neighbours@[i])@.wf(),
        ensures
            final(self).wf(),
            final(self).target@ == old(self).target@,
            id_among_with_state(
                old(self).engine.entries@,
                old(self).engine.states@,
                from@.id_val(),
                STATE_IN_FLIGHT,
            ) ==> has_explored_event(final(self).engine.log@, from@.id_val()),
            forall|i: int|
                0 <= i < neighbours@.len() ==> id_among(
                    final(self).engine.entries@,
                    (#[trigger] neighbours@[i])@.id_val(),
                ),
            forall|id: int|
                id_among(old(self).engine.entries@, id) ==> id_among(
                    final(self).engine.entries@,
                    id,
                ),
            (final(self).result is Some) == (old(self).result is Some || exists|i: int|
                0 <= i < neighbours@.len() && (#[trigger] neighbours@[i])@.id_val() == old(
                    self,
                ).target@.id_val()),
            old(self).result is Some ==> final(self).result == old(self).result,
    {
        let ghost tv = self.target@;
        let fired = self.engine.mark_explored(from);
        let ghost entries_mid = self.engine.entries@;
        let ghost log_mid = self.engine.log@;
        proof {
            if fired {
                assert(self.engine.log@.last() is Explored && self.engine.log@.last().id_val()
                    == from@.id_val());
                assert(has_explored_event(log_mid, from@.id_val()));
            }
        }
        let mut i: usize = 0;
        while i < neighbours.len()
            invariant
                self.wf(),
                self.target@ == tv,
                tv == old(self).target@,
                entries_mid == old(self).engine.entries@,
                forall|k: int| 0 <= k < neighbours@.len() ==> (#[trigger] neighbours@[k])@.wf(),
                0 <= i <= neighbours@.len(),
                forall|k: int|
                    0 <= k < i ==> id_among(
                        self.engine.entries@,
                        (#[trigger] neighbours@[k])@.id_val(),
                    ),
                forall|id: int| id_among(entries_mid, id) ==> id_among(self.engine.entries@, id),
                forall|id: int|
                    has_explored_event(log_mid, id) ==> has_explored_event(self.engine.log@, id),
                (self.result is Some) == (old(self).result is Some || exists|k: int|
                    0 <= k < i && (#[trigger] neighbours@[k])@.id_val() == tv.id_val()),
                old(self).result is Some ==> self.result == old(self).result,
            decreases neighbours@.len() - i,
        {
            let ghost result_was = self.result;
            self.feed(&neighbours[i]);
            proof {
                if self.result is Some && result_was is None {
                    assert(neighbours@[i as int]@.id_val() == tv.id_val());
                }
            }
            i += 1;
        }
    }

    /// A failed or timed-out query is treated as an empty reply: the queried
    /// node becomes explored if its query was in flight, and nothing else
    /// changes.
    pub fn handle_failure(&mut self, from: &Node)
        requires
            old(self).wf(),
            from@.wf(),
        ensures
            final(self).wf(),
            final(self).target@ == old(self).target@,
            final(self).result == old(self).result,
            final(self).done == old(self).done,
            final(self).engine.entries@ == old(self).engine.entries@,
            id_among_with_state(
                old(self).engine.entries@,
                old(self).engine.states@,
                from@.id_val(),
                STATE_IN_FLIGHT,
            ) ==> has_explored_event(final(self).engine.log@, from@.id_val()),
    {
        let fired = self.engine.mark_explored(from);
        proof {
            if fired {
                assert(self.engine.log@.last() is Explored && self.engine.log@.last().id_val()
                    == from@.id_val());
            }
        }
    }

    /// The search's outcome so far.
    pub fn result(&self) -> (r: Option<Node>)
        requires
            self.wf(),
        ensures
            r matches Some(n) ==> n@.wf() && n@.id_val() == self.target@.id_val(),
            r is None <==> self.result is None,
    {
        match &self.result {
            Some(n) => Some(n.clone()),
            None => None,
        }
    }
}

/// Law: a finished locate-key search hands back a node only with exactly the
/// target key, and comes back empty only if no node with the target key was
/// ever observed.
pub proof fn lemma_search_outcome(s: KeySearch)
    requires
        s.wf(),
    ensures
        s.result matches Some(n) ==> n@.id_val() == s.target@.id_val(),
        s.result is None ==> !has_found_event(s.engine.log@, s.target@.id_val()),
{
}

} // verus!

use crate::key_space::{KeySpace, node_distance, sorted_nodes_by_distance_to};
use crate::neighbours_store::{
    bounded_closest, lemma_bounded_closest_insert, lemma_sorted_insert, lemma_sorted_prefix,
};

verus! {

/// A join search: look for the local key itself, starting from one bootstrap
/// node, and keep going until the closest observed nodes have all been
/// explored.
pub struct ConnectSearch {
    pub local_key: Key,
    pub engine: GraphSearch,
    pub n_closest: Vec<Node>,
    pub explored_flags: Vec<bool>,
    pub size: usize,
    pub joined: bool,
    pub done: bool,
    pub offered: Ghost<Seq<NodeView>>,
}

impl ConnectSearch {
    /// The driver invariant: the tracked list holds at most `size`
    /// well-formed observed nodes with distinct keys, ascending by distance
    /// to the local key; every node ever offered to the list is in it by key
    /// or was displaced only by nodes at least as close; a set flag records
    /// that the node's own query reply was processed; and the search declares
    /// the overlay joined only when every tracked node is explored.
    pub open spec fn wf(self) -> bool {
        &&& self.local_key@.wf()
        &&& self.engine.wf()
        &&& self.engine.target_space@ == key_coords(
            self.local_key@.id_val(),
            self.engine.target_space@.len() as nat,
        )
        &&& self.n_closest@.len() == self.explored_flags@.len()
        &&& self.n_closest@.len() <= self.size
        &&& forall|i: int| 0 <= i < self.n_closest@.len() ==> (#[trigger] self.n_closest@[i])@.wf()
        &&& sorted_nodes_by_distance_to(self.n_closest@, self.engine.target_space@)
        &&& forall|i: int, j2: int|
            0 <= i < j2 < self.n_closest@.len() ==> (#[trigger] self.n_closest@[i])@.id_val() != (
            #[trigger] self.n_closest@[j2])@.id_val()
        &&& forall|i: int|
            0 <= i < self.n_closest@.len() ==> id_among(
                self.engine.entries@,
                (#[trigger] self.n_closest@[i])@.id_val(),
            )
        &&& forall|t: int|
            0 <= t < self.offered@.len() ==> bounded_closest(
                self.n_closest@,
                self.size as int,
                self.engine.target_space@,
                #[trigger] self.offered@[t],
            )
        &&& forall|i: int|
            0 <= i < self.explored_flags@.len() && (#[trigger] self.explored_flags@[i])
                ==> has_explored_event(self.engine.log@, self.n_closest@[i]@.id_val())
        &&& (self.joined ==> forall|i: int|
            0 <= i < self.explored_flags@.len() ==> (#[trigger] self.explored_flags@[i]))
        &&& (self.joined ==> self.done)
    }

    /// Start a join search from one bootstrap node, which is observed at
    /// once.
    pub fn new(local_key: Key, key_space_size: usize, size: usize, bootstrap: &Node) -> (r:
        ConnectSearch)
        requires
            local_key@.wf(),
            bootstrap@.wf(),
        ensures
            r.wf(),
            r.local_key@ == local_key@,
            r.size == size,
            id_among(r.engine.entries@, bootstrap@.id_val()),
    {
        let ghost lv = local_key@;
        let engine = GraphSearch::new(&local_key, key_space_size);
        let mut s = ConnectSearch {
            local_key,
            engine,
            n_closest: Vec::new(),
            explored_flags: Vec::new(),
            size,
            joined: false,
            done: false,
            offered: Ghost(Seq::empty()),
        };
        let _ = s.feed(bootstrap);
        s
    }

    /// Observe one node: record it in the engine and, if its key is new,
    /// offer it to the tracked closest list. Reports whether the node is a
    /// new observation, fit to offer to the neighbours store.
    #[verifier::rlimit(100)]
    fn feed(&mut self, node: &Node) -> (fired: bool)
        requires
            old(self).wf(),
            node@.wf(),
        ensures
            final(self).wf(),
            final(self).local_key@ == old(self).local_key@,
            final(self).size == old(self).size,
            final(self).done == old(self).done,
            final(self).joined == old(self).joined,
            fired == !id_among(old(self).engine.entries@, node@.id_val()),
            id_among(final(self).engine.entries@, node@.id_val()),
            forall|id: int|
                id_among(old(self).engine.entries@, id) ==> id_among(
                    final(self).engine.entries@,
                    id,
                ),
            forall|id: int|
                id_among(final(self).engine.entries@, id) ==> id_among(
                    old(self).engine.entries@,
                    id,
                ) || id == node@.id_val(),
            forall|id: int|
                has_explored_event(old(self).engine.log@, id) ==> has_explored_event(
                    final(self).engine.log@,
                    id,
                ),
    {
        let ghost entries_old = self.engine.entries@;
        let ghost log_old = self.engine.log@;
        let fired = self.engine.add_found(node);
        proof {
            let entries_new = self.engine.entries@;
            let log_new = self.engine.log@;
            if fired {
                assert(entries_new[entries_old.len() as int]@.id_val() == node@.id_val());
            }
            assert(id_among(entries_new, node@.id_val()));
            assert forall|id: int| id_among(entries_old, id) implies id_among(
                entries_new,
                id,
            ) by {
                let pp = choose|pp: int|
                    0 <= pp < entries_old.len() && (#[trigger] entries_old[pp])@.id_val() == id;
                assert(entries_new[pp]@.id_val() == id);
            };
            assert forall|id: int| id_among(entries_new, id) implies id_among(entries_old, id)
                || id == node@.id_val() by {
                let pp = choose|pp: int|
                    0 <= pp < entries_new.len() && (#[trigger] entries_new[pp])@.id_val() == id;
                if pp < entries_old.len() {
                    assert(entries_old[pp]@.id_val() == id);
                }
            };
            assert forall|id: int| has_explored_event(log_old, id) implies has_explored_event(
                log_new,
                id,
            ) by {
                let t = choose|t: int|
                    0 <= t < log_old.len() && (#[trigger] log_old[t]) is Explored
                        && log_old[t].id_val() == id;
                assert(log_new[t] == log_old[t]);
            };
            // The flags stay justified, and the tracked list stays observed.
            assert forall|i: int|
                0 <= i < self.explored_flags@.len() && (
            #[trigger] self.explored_flags@[i]) implies has_explored_event(
                log_new,
                self.n_closest@[i]@.id_val(),
            ) by {
                let t = choose|t: int|
                    0 <= t < log_old.len() && (#[trigger] log_old[t]) is Explored
                        && log_old[t].id_val() == old(self).n_closest@[i]@.id_val();
                assert(log_new[t] == log_old[t]);
            };
            assert forall|i: int| 0 <= i < self.n_closest@.len() implies id_among(
                entries_new,
                (#[trigger] self.n_closest@[i])@.id_val(),
            ) by {
                assert(id_among(entries_old, self.n_closest@[i]@.id_val()));
            };
        }
        if !fired {
            return false;
        }
        if self.size == 0 || self.done {
            return true;
        }
        // The node's key is fresh, so it is not yet tracked.
        proof {
            assert forall|i: int| 0 <= i < self.n_closest@.len() implies (
            #[trigger] self.n_closest@[i])@.id_val() != node@.id_val() by {
                assert(id_among(entries_old, self.n_closest@[i]@.id_val()));
            };
        }
        let ghost offered_old = self.offered@;
        let x = node.clone();
        insert_tracked(
            &mut self.n_closest,
            &mut self.explored_flags,
            x,
            self.size,
            &self.engine.target_space,
            Ghost(offered_old),
        );
        proof {
            self.offered@ = offered_old.push(node@);
            assert(self.offered@[offered_old.len() as int] == node@);
            assert(forall|t: int| 0 <= t < offered_old.len() ==> self.offered@[t] == offered_old.push(x@)[t]);
            assert(self.offered@ =~= offered_old.push(x@));
            // The flags stay justified across the insertion.
            assert forall|i: int|
                0 <= i < self.explored_flags@.len() && (
            #[trigger] self.explored_flags@[i]) implies has_explored_event(
                self.engine.log@,
                self.n_closest@[i]@.id_val(),
            ) by {
                let k = choose|k: int|
                    0 <= k < old(self).explored_flags@.len() && old(self).explored_flags@[k] && (
                    #[trigger] old(self).n_closest@[k])@.id_val()
                        == self.n_closest@[i]@.id_val();
                assert(has_explored_event(self.engine.log@, old(self).n_closest@[k]@.id_val()));
            };
            // The tracked list stays observed: every kept node is an old one
            // or the freshly observed node.
            assert forall|i: int| 0 <= i < self.n_closest@.len() implies id_among(
                self.engine.entries@,
                (#[trigger] self.n_closest@[i])@.id_val(),
            ) by {
                if exists|k: int|
                    0 <= k < old(self).n_closest@.len() && self.n_closest@[i] == (#[trigger] old(
                        self,
                    ).n_closest@[k]) {
                    let k = choose|k: int|
                        0 <= k < old(self).n_closest@.len() && self.n_closest@[i] == (
                        #[trigger] old(self).n_closest@[k]);
                    assert(id_among(entries_old, old(self).n_closest@[k]@.id_val()));
                } else {
                    assert(self.n_closest@[i] == x);
                }
            };
        }
        true
    }

    /// The node whose query should go out next: a closest frontier node of
    /// the engine, moved into flight. `None` only once the search is
    /// finished, and a search finishes unjoined only when its frontier has
    /// drained.
    pub fn next_query(&mut self) -> (r: Option<Node>)
        requires
            old(self).wf(),
        ensures
            final(self).wf(),
            final(self).local_key@ == old(self).local_key@,
            final(self).joined == old(self).joined,
            final(self).n_closest@ == old(self).n_closest@,
            final(self).explored_flags@ == old(self).explored_flags@,
            final(self).offered@ == old(self).offered@,
            final(self).engine.entries@ == old(self).engine.entries@,
            final(self).engine.log@ == old(self).engine.log@,
            r matches Some(n) ==> n@.wf() && !old(self).done && final(self).done == old(
                self,
            ).done && (exists|p: int|
                {
                    &&& 0 <= p < old(self).engine.entries@.len()
                    &&& (#[trigger] old(self).engine.entries@[p])@ == n@
                    &&& old(self).engine.states@[p] == STATE_FRONTIER
                    &&& final(self).engine.states@ == old(self).engine.states@.update(
                        p,
                        STATE_IN_FLIGHT,
                    )
                    &&& forall|q: int|
                        0 <= q < old(self).engine.states@.len() && (#[trigger] old(
                            self,
                        ).engine.states@[q]) == STATE_FRONTIER ==> dist_to(
                            old(self).engine.entries@[p]@.id_val(),
                            old(self).engine.target_space@,
                        ) <= dist_to(
                            old(self).engine.entries@[q]@.id_val(),
                            old(self).engine.target_space@,
                        )
                }),
            r is None ==> final(self).done && final(self).engine.states@ == old(
                self,
            ).engine.states@ && (old(self).done || forall|p: int|
                0 <= p < old(self).engine.states@.len() ==> (#[trigger] old(
                    self,
                ).engine.states@[p]) != STATE_FRONTIER),
    {
        if self.done {
            return None;
        }
        let next = self.engine.next_to_query();
        match next {
            Some(n) => {
                proof {
                    let p = choose|p: int|
                        {
                            &&& 0 <= p < old(self).engine.entries@.len()
                            &&& (#[trigger] old(self).engine.entries@[p])@ == n@
                            &&& old(self).engine.states@[p] == STATE_FRONTIER
                            &&& self.engine.states@ == old(self).engine.states@.update(
                                p,
                                STATE_IN_FLIGHT,
                            )
                            &&& forall|q: int|
                                0 <= q < old(self).engine.states@.len() && (#[trigger] old(
                                    self,
                                ).engine.states@[q]) == STATE_FRONTIER ==> dist_to(
                                    old(self).engine.entries@[p]@.id_val(),
                                    old(self).engine.target_space@,
                                ) <= dist_to(
                                    old(self).engine.entries@[q]@.id_val(),
                                    old(self).engine.target_space@,
                                )
                        };
                    assert(old(self).engine.entries@[p]@.wf());
                }
                Some(n)
            },
            None => {
                self.done = true;
                None
            },
        }
    }

    /// Process the reply to one dispatched query: the queried node becomes
    /// explored if its query was in flight (setting its tracked flag), every
    /// returned neighbour is observed, and the search is joined once every
    /// tracked node has been explored. Returns exactly the genuinely new
    /// observations, fit to offer to the neighbours store.
    pub fn handle_reply(&mut self, from: &Node, neighbours: &Vec<Node>) -> (fresh: Vec<Node>)
        requires
            old(self).wf(),
            from@.wf(),
            forall|i: int| 0 <= i < neighbours@.len() ==> (#[trigger] neighbours@[i])@.wf(),
        ensures
            final(self).wf(),
            final(self).local_key@ == old(self).local_key@,
            id_among_with_state(
                old(self).engine.entries@,
                old(self).engine.states@,
                from@.id_val(),
                STATE_IN_FLIGHT,
            ) ==> has_explored_event(final(self).engine.log@, from@.id_val()),
            forall|i: int|
                0 <= i < neighbours@.len() ==> id_among(
                    final(self).engine.entries@,
                    (#[trigger] neighbours@[i])@.id_val(),
                ),
            forall|id: int|
                id_among(old(self).engine.entries@, id) ==> id_among(
                    final(self).engine.entries@,
                    id,
                ),
            forall|i: int|
                0 <= i < fresh@.len() ==> (#[trigger] fresh@[i])@.wf() && !id_among(
                    old(self).engine.entries@,
                    fresh@[i]@.id_val(),
                ) && (exists|k: int|
                    0 <= k < neighbours@.len() && (#[trigger] neighbours@[k])@ == fresh@[i]@),
            forall|k: int|
                0 <= k < neighbours@.len() && !id_among(
                    old(self).engine.entries@,
                    (#[trigger] neighbours@[k])@.id_val(),
                ) ==> exists|i: int|
                    0 <= i < fresh@.len() && (#[trigger] fresh@[i])@.id_val()
                        == neighbours@[k]@.id_val(),
    {
        let ghost lv = self.local_key@;
        let fired = self.engine.mark_explored(from);
        let ghost entries_mid = self.engine.entries@;
        let ghost log_mid = self.engine.log@;
        proof {
            if fired {
                assert(self.engine.log@.last() is Explored && self.engine.log@.last().id_val()
                    == from@.id_val());
                assert(has_explored_event(log_mid, from@.id_val()));
            }
            assert forall|i: int|
                0 <= i < self.explored_flags@.len() && (
            #[trigger] self.explored_flags@[i]) implies has_explored_event(
                self.engine.log@,
                self.n_closest@[i]@.id_val(),
            ) by {
                let t = choose|t: int|
                    0 <= t < old(self).engine.log@.len() && (#[trigger] old(
                        self,
                    ).engine.log@[t]) is Explored && old(self).engine.log@[t].id_val() == old(
                        self,
                    ).n_closest@[i]@.id_val();
                assert(self.engine.log@.take(old(self).engine.log@.len() as int)[t] == old(
                    self,
                ).engine.log@[t]);
                assert(self.engine.log@[t] == old(self).engine.log@[t]);
            };
        }
        if fired {
            self.mark_tracked_explored(from);
        }
        let mut fresh: Vec<Node> = Vec::new();
        let mut i: usize = 0;
        while i < neighbours.len()
            invariant
                self.wf(),
                self.local_key@ == lv,
                lv == old(self).local_key@,
                entries_mid == old(self).engine.entries@,
                forall|k: int| 0 <= k < neighbours@.len() ==> (#[trigger] neighbours@[k])@.wf(),
                0 <= i <= neighbours@.len(),
                forall|k: int|
                    0 <= k < i ==> id_among(
                        self.engine.entries@,
                        (#[trigger] neighbours@[k])@.id_val(),
                    ),
                forall|id: int| id_among(entries_mid, id) ==> id_among(self.engine.entries@, id),
                forall|id: int|
                    has_explored_event(log_mid, id) ==> has_explored_event(self.engine.log@, id),
                forall|id: int|
                    id_among(self.engine.entries@, id) ==> id_among(entries_mid, id) || (
                    exists|fi: int|
                        0 <= fi < fresh@.len() && (#[trigger] fresh@[fi])@.id_val() == id),
                forall|fi: int|
                    0 <= fi < fresh@.len() ==> (#[trigger] fresh@[fi])@.wf() && !id_among(
                        entries_mid,
                        fresh@[fi]@.id_val(),
                    ) && (exists|k: int|
                        0 <= k < neighbours@.len() && (#[trigger] neighbours@[k])@
                            == fresh@[fi]@),
            decreases neighbours@.len() - i,
        {
            let ghost entries_before = self.engine.entries@;
            let ghost fresh_before = fresh@;
            let is_new = self.feed(&neighbours[i]);
            if is_new {
                fresh.push(neighbours[i].clone());
                proof {
                    assert(fresh@[fresh_before.len() as int]@ == neighbours@[i as int]@);
                    // A key fresh to the current entries is fresh to the
                    // entries the reply arrived at.
                    assert(!id_among(entries_mid, neighbours@[i as int]@.id_val()));
                }
            }
            proof {
                assert forall|id: int| id_among(self.engine.entries@, id) implies id_among(
                    entries_mid,
                    id,
                ) || (exists|fi: int|
                    0 <= fi < fresh@.len() && (#[trigger] fresh@[fi])@.id_val() == id) by {
                    if id_among(entries_before, id) {
                        if !id_among(entries_mid, id) {
                            let fi = choose|fi: int|
                                0 <= fi < fresh_before.len() && (
                                #[trigger] fresh_before[fi])@.id_val() == id;
                            assert(fresh@[fi]@.id_val() == id);
                        }
                    } else {
                        assert(id == neighbours@[i as int]@.id_val());
                        assert(fresh@[fresh_before.len() as int]@.id_val() == id);
                    }
                };
            }
            i += 1;
        }
        self.check_joined();
        proof {
            assert forall|k: int|
                0 <= k < neighbours@.len() && !id_among(
                    entries_mid,
                    (#[trigger] neighbours@[k])@.id_val(),
                ) implies exists|i2: int|
                0 <= i2 < fresh@.len() && (#[trigger] fresh@[i2])@.id_val()
                    == neighbours@[k]@.id_val() by {
                assert(id_among(self.engine.entries@, neighbours@[k]@.id_val()));
            };
        }
        fresh
    }

    /// A failed or timed-out query is treated as an empty reply: the queried
    /// node becomes explored if its query was in flight, and the tracked
    /// list is untouched.
    pub fn handle_failure(&mut self, from: &Node)
        requires
            old(self).wf(),
            from@.wf(),
        ensures
            final(self).wf(),
            final(self).local_key@ == old(self).local_key@,
            final(self).n_closest@ == old(self).n_closest@,
            final(self).offered@ == old(self).offered@,
            final(self).engine.entries@ == old(self).engine.entries@,
            id_among_with_state(
                old(self).engine.entries@,
                old(self).engine.states@,
                from@.id_val(),
                STATE_IN_FLIGHT,
            ) ==> has_explored_event(final(self).engine.log@, from@.id_val()),
    {
        let fired = self.engine.mark_explored(from);
        proof {
            if fired {
                assert(self.engine.log@.last() is Explored && self.engine.log@.last().id_val()
                    == from@.id_val());
            }
            assert forall|i: int|
                0 <= i < self.explored_flags@.len() && (
            #[trigger] self.explored_flags@[i]) implies has_explored_event(
                self.engine.log@,
                self.n_closest@[i]@.id_val(),
            ) by {
                let t = choose|t: int|
                    0 <= t < old(self).engine.log@.len() && (#[trigger] old(
                        self,
                    ).engine.log@[t]) is Explored && old(self).engine.log@[t].id_val() == old(
                        self,
                    ).n_closest@[i]@.id_val();
                assert(self.engine.log@.take(old(self).engine.log@.len() as int)[t] == old(
                    self,
                ).engine.log@[t]);
                assert(self.engine.log@[t] == old(self).engine.log@[t]);
            };
        }
        if fired {
            self.mark_tracked_explored(from);
        }
        self.check_joined();
    }

    /// Set the explored flag of every tracked node with the replier's key,
    /// and of no other. Called only just after the engine fired an
    /// "explored" event for it.
    fn mark_tracked_explored(&mut self, from: &Node)
        requires
            old(self).wf(),
            from@.wf(),
            has_explored_event(old(self).engine.log@, from@.id_val()),
        ensures
            final(self).wf(),
            final(self).local_key@ == old(self).local_key@,
            final(self).engine == old(self).engine,
            final(self).n_closest@ == old(self).n_closest@,
            final(self).offered@ == old(self).offered@,
            final(self).size == old(self).size,
            final(self).joined == old(self).joined,
            final(self).done == old(self).done,
            forall|k: int|
                0 <= k < final(self).explored_flags@.len() ==> (
                #[trigger] final(self).explored_flags@[k]) == (old(self).explored_flags@[k] || old(
                    self,
                ).n_closest@[k]@.id_val() == from@.id_val()),
    {
        let mut i: usize = 0;
        while i < self.n_closest.len()
            invariant
                old(self).wf(),
                from@.wf(),
                has_explored_event(old(self).engine.log@, from@.id_val()),
                self.local_key == old(self).local_key,
                self.engine == old(self).engine,
                self.n_closest@ == old(self).n_closest@,
                self.offered@ == old(self).offered@,
                self.size == old(self).size,
                self.joined == old(self).joined,
                self.done == old(self).done,
                self.explored_flags@.len() == self.n_closest@.len(),
                0 <= i <= self.n_closest@.len(),
                forall|k: int|
                    0 <= k < self.explored_flags@.len() && (#[trigger] self.explored_flags@[k])
                        ==> has_explored_event(self.engine.log@, self.n_closest@[k]@.id_val()),
                forall|k: int|
                    0 <= k < i ==> (#[trigger] self.explored_flags@[k]) == (old(
                        self,
                    ).explored_flags@[k] || old(self).n_closest@[k]@.id_val() == from@.id_val()),
                forall|k: int|
                    i <= k < self.explored_flags@.len() ==> (#[trigger] self.explored_flags@[k])
                        == old(self).explored_flags@[k],
            decreases self.n_closest@.len() - i,
        {
            if self.n_closest[i].key.same_key(&from.key) {
                set_flag(&mut self.explored_flags, i, true);
            }
            i += 1;
        }
        proof {
            if self.joined {
                assert forall|k: int|
                    0 <= k < self.explored_flags@.len() implies (
                #[trigger] self.explored_flags@[k]) by {
                    assert(self.explored_flags@[k] == (old(self).explored_flags@[k] || old(
                        self,
                    ).n_closest@[k]@.id_val() == from@.id_val()));
                };
            }
        }
    }

    /// Declare the overlay joined exactly once every tracked node has been
    /// explored.
    fn check_joined(&mut self)
        requires
            old(self).wf(),
        ensures
            final(self).wf(),
            final(self).local_key@ == old(self).local_key@,
            final(self).n_closest@ == old(self).n_closest@,
            final(self).explored_flags@ == old(self).explored_flags@,
            final(self).offered@ == old(self).offered@,
            final(self).engine == old(self).engine,
            final(self).joined == (old(self).joined || forall|k: int|
                0 <= k < old(self).explored_flags@.len() ==> (#[trigger] old(
                    self,
                ).explored_flags@[k])),
            final(self).done == (old(self).done || final(self).joined),
    {
        let mut i: usize = 0;
        while i < self.explored_flags.len()
            invariant
                self == old(self),
                old(self).wf(),
                0 <= i <= self.explored_flags@.len(),
                forall|k: int| 0 <= k < i ==> (#[trigger] self.explored_flags@[k]),
            decreases self.explored_flags@.len() - i,
        {
            if !self.explored_flags[i] {
                proof {
                    if old(self).joined {
                        assert(old(self).explored_flags@[i as int]);
                    }
                }
                return ;
            }
            i += 1;
        }
        self.joined = true;
        self.done = true;
    }

    /// Whether the overlay was joined: every tracked closest node explored.
    pub fn is_joined(&self) -> (r: bool)
        ensures
            r == self.joined,
    {
        self.joined
    }
}

/// Slot a new node with a fresh key into the tracked closest list, in
/// distance order after any node at the same distance, then clip the list
/// back to `size`. Every candidate the list accounted for stays accounted
/// for, and the new node is accounted for too; a set flag in the result
/// always comes from a set flag on the same key.
#[verifier::rlimit(100)]
#[verifier::spinoff_prover]
fn insert_tracked(
    nodes: &mut Vec<Node>,
    flags: &mut Vec<bool>,
    x: Node,
    size: usize,
    pivot: &KeySpace,
    offered: Ghost<Seq<NodeView>>,
)
    requires
        pivot.wf(),
        x@.wf(),
        old(nodes)@.len() == old(flags)@.len(),
        old(nodes)@.len() <= size,
        size > 0,
        forall|i: int| 0 <= i < old(nodes)@.len() ==> (#[trigger] old(nodes)@[i])@.wf(),
        sorted_nodes_by_distance_to(old(nodes)@, pivot@),
        forall|i: int, j2: int|
            0 <= i < j2 < old(nodes)@.len() ==> (#[trigger] old(nodes)@[i])@.id_val() != (
            #[trigger] old(nodes)@[j2])@.id_val(),
        forall|i: int|
            0 <= i < old(nodes)@.len() ==> (#[trigger] old(nodes)@[i])@.id_val()
                != x@.id_val(),
        forall|t: int|
            0 <= t < offered@.len() ==> bounded_closest(
                old(nodes)@,
                size as int,
                pivot@,
                #[trigger] offered@[t],
            ),
    ensures
        final(nodes)@.len() == final(flags)@.len(),
        final(nodes)@.len() <= size,
        forall|i: int| 0 <= i < final(nodes)@.len() ==> (#[trigger] final(nodes)@[i])@.wf(),
        sorted_nodes_by_distance_to(final(nodes)@, pivot@),
        forall|i: int, j2: int|
            0 <= i < j2 < final(nodes)@.len() ==> (#[trigger] final(nodes)@[i])@.id_val() != (
            #[trigger] final(nodes)@[j2])@.id_val(),
        forall|i: int|
            0 <= i < final(nodes)@.len() ==> (exists|k: int|
                0 <= k < old(nodes)@.len() && final(nodes)@[i] == (#[trigger] old(nodes)@[k]))
                || final(nodes)@[i] == x,
        forall|i: int|
            0 <= i < final(flags)@.len() && (#[trigger] final(flags)@[i]) ==> exists|k: int|
                0 <= k < old(flags)@.len() && old(flags)@[k] && (#[trigger] old(
                    nodes,
                )@[k])@.id_val() == final(nodes)@[i]@.id_val(),
        forall|t: int|
            0 <= t < offered@.push(x@).len() ==> bounded_closest(
                final(nodes)@,
                size as int,
                pivot@,
                #[trigger] offered@.push(x@)[t],
            ),
{
    let ghost pre = nodes@;
    let ghost pref = flags@;
    let ghost lsp = pivot@;
    let d = node_distance(&x, pivot);
    let mut j = nodes.len();
    while j > 0 && tracked_further(nodes, j - 1, d, pivot)
        invariant
            nodes@ == pre,
            pivot.wf(),
            pivot@ == lsp,
            forall|m: int| 0 <= m < pre.len() ==> (#[trigger] pre[m])@.wf(),
            0 <= j <= pre.len(),
            forall|m: int| j <= m < pre.len() ==> dist_to((#[trigger] pre[m])@.id_val(), lsp) > d,
        decreases j,
    {
        j -= 1;
    }
    proof {
        assert forall|m: int| 0 <= m < j implies dist_to((#[trigger] pre[m])@.id_val(), lsp)
            <= d by {
            assert(dist_to(pre[j - 1]@.id_val(), lsp) <= d);
        };
        lemma_sorted_insert(pre, x, j as int, lsp);
        pre.insert_ensures(j as int, x);
        pref.insert_ensures(j as int, false);
    }
    nodes.insert(j, x);
    flags.insert(j, false);
    let ghost mid = nodes@;
    let ghost midf = flags@;
    if nodes.len() > size {
        nodes.truncate(size);
        flags.truncate(size);
        proof {
            assert(nodes@ =~= mid.take(size as int));
            assert(flags@ =~= midf.take(size as int));
            lemma_sorted_prefix(mid, size as int, lsp);
        }
    }
    proof {
        assert(forall|m: int| 0 <= m < nodes@.len() ==> nodes@[m] == mid[m]);
        assert(forall|m: int| 0 <= m < flags@.len() ==> flags@[m] == midf[m]);
        if pre.len() + 1 > size {
            assert(nodes@ =~= pre.insert(j as int, x).take(size as int));
        } else {
            assert(nodes@ =~= pre.insert(j as int, x));
        }
        // Every candidate accounted for stays accounted for; the new node is
        // accounted for too.
        assert forall|t: int| 0 <= t < offered@.push(x@).len() implies bounded_closest(
            nodes@,
            size as int,
            lsp,
            #[trigger] offered@.push(x@)[t],
        ) by {
            let c = offered@.push(x@)[t];
            if t < offered@.len() {
                assert(bounded_closest(pre, size as int, lsp, c));
            } else {
                assert(c == x@);
            }
            lemma_bounded_closest_insert(pre, nodes@, x, j as int, size as int, lsp, c);
        };
        // Set flags come from set flags on the same key.
        assert forall|i: int|
            0 <= i < flags@.len() && (#[trigger] flags@[i]) implies exists|k: int|
            0 <= k < pref.len() && pref[k] && (#[trigger] pre[k])@.id_val()
                == nodes@[i]@.id_val() by {
            if i < j {
                assert(midf[i] == pref[i] && mid[i] == pre[i]);
                assert(pref[i] && pre[i]@.id_val() == nodes@[i]@.id_val());
            } else if i == j {
                assert(midf[i] == false);
            } else {
                assert(midf[i] == pref[i - 1] && mid[i] == pre[i - 1]);
                assert(pref[i - 1] && pre[i - 1]@.id_val() == nodes@[i]@.id_val());
            }
        };
        // Well-formed, from the old list or the new node, pairwise distinct.
        assert forall|i: int| 0 <= i < nodes@.len() implies (#[trigger] nodes@[i])@.wf() && ((
        exists|k: int| 0 <= k < pre.len() && nodes@[i] == (#[trigger] pre[k])) || nodes@[i]
            == x) by {
            if i < j {
                assert(mid[i] == pre[i]);
            } else if i == j {
                assert(mid[i] == x);
            } else {
                assert(mid[i] == pre[i - 1]);
            }
        };
        assert forall|i: int, j2: int| 0 <= i < j2 < nodes@.len() implies (
        #[trigger] nodes@[i])@.id_val() != (#[trigger] nodes@[j2])@.id_val() by {
            if j2 < j {
            } else if j2 == j {
                assert(mid[i] == pre[i] && mid[j2] == x);
            } else {
                assert(mid[j2] == pre[j2 - 1]);
                if i < j {
                    assert(mid[i] == pre[i]);
                } else if i == j {
                    assert(mid[i] == x);
                } else {
                    assert(mid[i] == pre[i - 1]);
                }
            }
        };
    }
}

/// Whether the tracked node at `m` lies strictly further from `pivot` than
/// distance `d`.
fn tracked_further(nodes: &Vec<Node>, m: usize, d: u128, pivot: &KeySpace) -> (r: bool)
    requires
        m < nodes@.len(),
        nodes@[m as int]@.wf(),
        pivot.wf(),
    ensures
        r == (dist_to(nodes@[m as int]@.id_val(), pivot@) > d),
{
    node_distance(&nodes[m], pivot) > d
}

/// Overwrite one element of a flag vector.
fn set_flag(flags: &mut Vec<bool>, i: usize, val: bool)
    requires
        i < old(flags)@.len(),
    ensures
        final(flags)@ == old(flags)@.update(i as int, val),
{
    flags.remove(i);
    flags.insert(i, val);
    proof {
        assert(flags@ =~= old(flags)@.update(i as int, val));
    }
}

/// Law: a join search declares the overlay joined only when every node in
/// its tracked closest list has had its own query reply processed — an
/// "explored" event, which the event discipline places after that node's
/// "found" event.
pub proof fn lemma_connect_outcome(s: ConnectSearch)
    requires
        s.wf(),
        s.joined,
    ensures
        forall|i: int|
            0 <= i < s.n_closest@.len() ==> has_explored_event(
                s.engine.log@,
                (#[trigger] s.n_closest@[i])@.id_val(),
            ),
{
    assert forall|i: int| 0 <= i < s.n_closest@.len() implies has_explored_event(
        s.engine.log@,
        (#[trigger] s.n_closest@[i])@.id_val(),
    ) by {
        assert(s.explored_flags@[i]);
    };
}

/// Law: the tracked closest list accounts for every node ever offered to
/// it: each offered node is in the list by key, or the list is full of
/// nodes at least as close to the local key.
pub proof fn lemma_connect_tracks_closest(s: ConnectSearch)
    requires
        s.wf(),
    ensures
        forall|t: int|
            0 <= t < s.offered@.len() ==> bounded_closest(
                s.n_closest@,
                s.size as int,
                s.engine.target_space@,
                #[trigger] s.offered@[t],
            ),
{
}

} // verus!

use crate::neighbours_store::n_closest_result;

verus! {

/// What the handler asks its runtime to do with one inbound request: send a
/// reply straight back, or run a search first.
pub enum HandlerAction {
    Reply(ResponsePayload),
    StartSearch(Key),
    StartConnect(Node),
}

/// Whether every key and node inside a request is well formed. The wire
/// decoder only produces requests for which this holds.
pub open spec fn request_wf(m: crate::api::RequestMessageView) -> bool {
    &&& match m.sender {
        crate::api::MessageSenderView::Node(n) => n.wf(),
        crate::api::MessageSenderView::Cli => true,
    }
    &&& match m.payload {
        crate::api::RequestPayloadView::QueryRequest(k) => k.wf(),
        crate::api::RequestPayloadView::SearchRequest(k) => k.wf(),
        crate::api::RequestPayloadView::ConnectRequest(n) => n.wf(),
        crate::api::RequestPayloadView::ListNeighboursRequest => true,
    }
}

/// The node-local request handler: the local key, its bounded neighbours
/// store, and the key-space dimension everything is embedded into.
pub struct GraphRequestHandler {
    pub key: Key,
    pub neighbours_store: NeighboursStore,
    pub key_space_size: usize,
}

impl GraphRequestHandler {
    /// The handler invariant: a well-formed store built around the local key.
    pub open spec fn wf(self) -> bool {
        &&& self.key@.wf()
        &&& self.neighbours_store.wf()
        &&& self.neighbours_store.local_key@ == self.key@
        &&& self.neighbours_store.local_space@.len() == self.key_space_size
    }

    /// A handler for the node that owns `key`, holding at most
    /// `neighbours_size` neighbours in a `key_space_size`-dimensional space.
    pub fn new(key: Key, neighbours_size: usize, key_space_size: usize) -> (r:
        GraphRequestHandler)
        requires
            key@.wf(),
        ensures
            r.wf(),
            r.key@ == key@,
            r.key_space_size == key_space_size,
            r.neighbours_store.capacity == neighbours_size,
            r.neighbours_store.nodes@.len() == 0,
            r.neighbours_store.considered@.len() == 0,
    {
        let store_key = key.clone();
        let neighbours_store = NeighboursStore::new(store_key, neighbours_size, key_space_size);
        GraphRequestHandler { key, neighbours_store, key_space_size }
    }

    /// Handle one inbound request. A request from another node first offers
    /// that node to the neighbours store — every inbound conversation
    /// strengthens the overlay; a request from the local client does not.
    /// Queries and neighbour listings are answered from the store; searches
    /// and connects come back as actions for the runtime to drive.
    pub fn receive(&mut self, request: &RequestMessage) -> (r: HandlerAction)
        requires
            old(self).wf(),
            request_wf(request@),
        ensures
            final(self).wf(),
            final(self).key@ == old(self).key@,
            final(self).key_space_size == old(self).key_space_size,
            final(self).neighbours_store.capacity == old(self).neighbours_store.capacity,
            final(self).neighbours_store.local_key@ == old(self).neighbours_store.local_key@,
            final(self).neighbours_store.local_space@ == old(self).neighbours_store.local_space@,
            final(self).neighbours_store.considered@ == match request@.sender {
                crate::api::MessageSenderView::Node(n) => old(
                    self,
                ).neighbours_store.considered@.push(n),
                crate::api::MessageSenderView::Cli => old(self).neighbours_store.considered@,
            },
            request@.sender is Cli ==> final(self).neighbours_store.nodes@ == old(
                self,
            ).neighbours_store.nodes@,
            request@.payload matches crate::api::RequestPayloadView::QueryRequest(k) ==> (
            r matches HandlerAction::Reply(p) && p matches ResponsePayload::QueryResponse(ns) && n_closest_result(
                final(self).neighbours_store,
                k,
                1,
                ns@,
            )),
            request@.payload matches crate::api::RequestPayloadView::ListNeighboursRequest ==> (
            r matches HandlerAction::Reply(p) && p matches ResponsePayload::ListNeighboursResponse(ns)
                && views_of_nodes(ns@) == views_of_nodes(final(self).neighbours_store.nodes@)),
            request@.payload matches crate::api::RequestPayloadView::SearchRequest(k) ==> (
            r matches HandlerAction::StartSearch(k2) && k2@ == k),
            request@.payload matches crate::api::RequestPayloadView::ConnectRequest(n) ==> (
            r matches HandlerAction::StartConnect(n2) && n2@ == n),
    {
        match &request.sender {
            MessageSender::Node(n) => {
                self.neighbours_store.consider_candidate(n);
            },
            MessageSender::Cli => {},
        }
        match &request.payload {
            RequestPayload::QueryRequest(key) => {
                let nodes = self.neighbours_store.get_n_closest(key, 1);
                HandlerAction::Reply(ResponsePayload::QueryResponse(nodes))
            },
            RequestPayload::SearchRequest(key) => HandlerAction::StartSearch(key.clone()),
            RequestPayload::ConnectRequest(node) => HandlerAction::StartConnect(node.clone()),
            RequestPayload::ListNeighboursRequest => {
                let nodes = self.neighbours_store.get_all();
                HandlerAction::Reply(ResponsePayload::ListNeighboursResponse(nodes))
            },
        }
    }

    /// Start a locate-key search from the current neighbours snapshot: the
    /// driver observes exactly the stored neighbours, and already holds a
    /// result exactly when a stored neighbour carries the target key.
    pub fn start_search(&self, target: Key) -> (r: KeySearch)
        requires
            self.wf(),
            target@.wf(),
        ensures
            r.wf(),
            r.target@ == target@,
            forall|p: int|
                0 <= p < self.neighbours_store.nodes@.len() ==> id_among(
                    r.engine.entries@,
                    (#[trigger] self.neighbours_store.nodes@[p])@.id_val(),
                ),
            (r.result is Some) == (exists|p: int|
                0 <= p < self.neighbours_store.nodes@.len() && (
                #[trigger] self.neighbours_store.nodes@[p])@.id_val() == target@.id_val()),
            r.done == (r.result is Some),
    {
        let initial = self.neighbours_store.get_all();
        proof {
            assert forall|i: int| 0 <= i < initial@.len() implies (#[trigger] initial@[i])@
                == self.neighbours_store.nodes@[i]@ by {
                assert(views_of_nodes(initial@)[i] == initial@[i]@);
                assert(views_of_nodes(self.neighbours_store.nodes@)[i]
                    == self.neighbours_store.nodes@[i]@);
            };
        }
        let r = KeySearch::new(target, self.key_space_size, initial);
        proof {
            assert forall|p: int| 0 <= p < self.neighbours_store.nodes@.len() implies id_among(
                r.engine.entries@,
                (#[trigger] self.neighbours_store.nodes@[p])@.id_val(),
            ) by {
                assert(id_among(r.engine.entries@, initial@[p]@.id_val()));
            };
            if r.result is Some {
                let i = choose|i: int|
                    0 <= i < initial@.len() && (#[trigger] initial@[i])@.id_val()
                        == r.target@.id_val();
                assert(self.neighbours_store.nodes@[i]@.id_val() == r.target@.id_val());
            }
            if exists|p: int|
                0 <= p < self.neighbours_store.nodes@.len() && (
                #[trigger] self.neighbours_store.nodes@[p])@.id_val() == r.target@.id_val() {
                let p = choose|p: int|
                    0 <= p < self.neighbours_store.nodes@.len() && (
                    #[trigger] self.neighbours_store.nodes@[p])@.id_val()
                        == r.target@.id_val();
                assert(initial@[p]@.id_val() == r.target@.id_val());
            }
        }
        r
    }

    /// Start a join search from a bootstrap node, which is observed at once.
    pub fn start_connect(&self, bootstrap: &Node) -> (r: ConnectSearch)
        requires
            self.wf(),
            bootstrap@.wf(),
        ensures
            r.wf(),
            r.local_key@ == self.key@,
            r.size == DEFAULT_CONNECT_SEARCH_SIZE,
            id_among(r.engine.entries@, bootstrap@.id_val()),
    {
        let local = self.key.clone();
        ConnectSearch::new(local, self.key_space_size, DEFAULT_CONNECT_SEARCH_SIZE, bootstrap)
    }

    /// Offer a node observed during a search to the neighbours store.
    pub fn consider(&mut self, node: &Node)
        requires
            old(self).wf(),
            node@.wf(),
        ensures
            final(self).wf(),
            final(self).key@ == old(self).key@,
            final(self).key_space_size == old(self).key_space_size,
            final(self).neighbours_store.capacity == old(self).neighbours_store.capacity,
            final(self).neighbours_store.local_key@ == old(self).neighbours_store.local_key@,
            final(self).neighbours_store.local_space@ == old(self).neighbours_store.local_space@,
            final(self).neighbours_store.considered@ == old(
                self,
            ).neighbours_store.considered@.push(node@),
    {
        self.neighbours_store.consider_candidate(node);
    }

    /// The query that a search dispatches to a remote node, ready to frame
    /// and send. `sender` names this node as the remote peer will see it;
    /// every outbound conversation carries it so the peer can strengthen its
    /// own overlay.
    pub fn outbound_query(&self, target: &Key, sender: MessageSender, id: u32, version: String) -> (r:
        RequestMessage)
        requires
            self.wf(),
            target@.wf(),
        ensures
            r@.payload matches crate::api::RequestPayloadView::QueryRequest(k) && k == target@,
            r@.sender == sender@,
            r@.id == id,
            r@.version == version@,
    {
        RequestMessage { payload: RequestPayload::QueryRequest(target.clone()), sender, id, version }
    }

    /// Unwrap the reply to an outbound query: exactly a query response is
    /// accepted; any other payload is a protocol violation by the peer.
    pub fn unwrap_query_reply(&self, reply: ResponsePayload) -> (r: Result<Vec<Node>, ApiError>)
        ensures
            reply@ matches crate::api::ResponsePayloadView::QueryResponse(ns) ==> (r matches Ok(v)
                && views_of_nodes(v@) == ns),
            !(reply@ is QueryResponse) ==> (r matches Err(e) && e@.error_type
                == ApiErrorType::External),
    {
        match reply {
            ResponsePayload::QueryResponse(nodes) => Ok(nodes),
            _ => Err(ApiError::new(
                ApiErrorType::External,
                String::from_str("the reply to a query was not a query response"),
            )),
        }
    }
}

/// Check a request against the transport it arrived on: a payload not meant
/// for that transport is rejected as a remote fault, before any handling.
pub fn check_request(request: &RequestMessage, visibility: &ApiVisibility) -> (r: Result<
    (),
    ApiError,
>)
    ensures
        request@.payload.visible(*visibility) ==> r is Ok,
        !request@.payload.visible(*visibility) ==> (r matches Err(e) && e@.error_type
            == ApiErrorType::External),
{
    if request.payload.is_visible(visibility) {
        Ok(())
    } else {
        Err(ApiError::new(
            ApiErrorType::External,
            String::from_str("this request may not arrive over this transport"),
        ))
    }
}

/// Law: a search or connect payload is never admitted from the global
/// transport, while queries and neighbour listings pass on both.
pub proof fn lemma_visibility(p: crate::api::RequestPayloadView)
    ensures
        p is SearchRequest ==> !p.visible(ApiVisibility::Global),
        p is ConnectRequest ==> !p.visible(ApiVisibility::Global),
        p is QueryRequest ==> p.visible(ApiVisibility::Global) && p.visible(ApiVisibility::Local),
        p is ListNeighboursRequest ==> p.visible(ApiVisibility::Global) && p.visible(
            ApiVisibility::Local,
        ),
{
}

} // verus!
