//! The bounded neighbours store: at most `capacity` distinct peers, chosen
//! as the candidates closest to the local key among all ever considered.

use vstd::prelude::*;
use crate::api::{Key, Node, NodeView, views_of_nodes, clone_nodes, appears_in};
use crate::key_space::{
    KeySpace, key_coords, dist_to, sorted_by_distance_to, sorted_nodes_by_distance_to,
    lemma_sorted_views_iff_nodes, node_distance, sort_nodes_by_distance,
};

verus! {

/// A bounded set of peers ordered by closeness to the local key.
///
/// The ghost `considered` field records every candidate ever handed to
/// `consider_candidate`; the well-formedness predicate ties what is stored to
/// that history.
pub struct NeighboursStore {
    pub local_key: Key,
    pub capacity: usize,
    pub local_space: KeySpace,
    pub nodes: Vec<Node>,
    pub considered: Ghost<Seq<NodeView>>,
}

impl NeighboursStore {
    /// The store's invariant: well-formed contents, ascending distance to the
    /// local key, at most `capacity` entries, no entry for the local key, all
    /// keys distinct, and the stored nodes are exactly the closest distinct
    /// non-local candidates among those ever considered.
    pub open spec fn wf(self) -> bool {
        &&& self.local_key@.wf()
        &&& self.local_space.wf()
        &&& self.local_space@ == key_coords(
            self.local_key@.id_val(),
            self.local_space@.len() as nat,
        )
        &&& self.nodes@.len() <= self.capacity
        &&& forall|i: int| 0 <= i < self.nodes@.len() ==> (#[trigger] self.nodes@[i])@.wf()
        &&& sorted_nodes_by_distance_to(self.nodes@, self.local_space@)
        &&& forall|i: int|
            0 <= i < self.nodes@.len() ==> (#[trigger] self.nodes@[i])@.id_val()
                != self.local_key@.id_val()
        &&& forall|i: int, j: int|
            0 <= i < j < self.nodes@.len() ==> (#[trigger] self.nodes@[i])@.id_val() != (
            #[trigger] self.nodes@[j])@.id_val()
        &&& forall|i: int|
            0 <= i < self.nodes@.len() ==> self.considered@.contains(#[trigger] self.nodes@[i]@)
        &&& forall|t: int| 0 <= t < self.considered@.len() ==> (#[trigger] self.considered@[t]).wf()
        &&& forall|t: int|
            0 <= t < self.considered@.len() && (#[trigger] self.considered@[t]).id_val()
                != self.local_key@.id_val() ==> self.keeps(self.considered@[t])
    }

    /// A candidate is accounted for: a node with its key is stored, or the
    /// store is full and every stored node is at least as close to the local
    /// key.
    pub open spec fn keeps(self, c: NodeView) -> bool {
        ||| exists|i: int|
            0 <= i < self.nodes@.len() && (#[trigger] self.nodes@[i])@.id_val() == c.id_val()
        ||| (self.nodes@.len() == self.capacity && forall|i: int|
            0 <= i < self.nodes@.len() ==> dist_to(
                (#[trigger] self.nodes@[i])@.id_val(),
                self.local_space@,
            ) <= dist_to(c.id_val(), self.local_space@))
    }

    /// An empty store around `local_key`, holding at most `capacity` peers,
    /// with keys embedded into `key_space_size` dimensions.
    pub fn new(local_key: Key, capacity: usize, key_space_size: usize) -> (r: NeighboursStore)
        requires
            local_key@.wf(),
        ensures
            r.wf(),
            r.local_key@ == local_key@,
            r.capacity == capacity,
            r.local_space@.len() == key_space_size,
            r.nodes@.len() == 0,
            r.considered@.len() == 0,
    {
        let local_space = KeySpace::from_key(&local_key, key_space_size);
        NeighboursStore {
            local_key,
            capacity,
            local_space,
            nodes: Vec::new(),
            considered: Ghost(Seq::empty()),
        }
    }

    /// How many neighbours are stored.
    pub fn len(&self) -> (r: usize)
        ensures
            r == self.nodes@.len(),
    {
        self.nodes.len()
    }

    /// Offer a candidate. A candidate with the local key, or with a key
    /// already stored, changes nothing; otherwise it is inserted and, if the
    /// store then exceeds its capacity, the furthest node is dropped.
    #[verifier::rlimit(100)]
    pub fn consider_candidate(&mut self, node: &Node)
        requires
            old(self).wf(),
            node@.wf(),
        ensures
            final(self).wf(),
            final(self).considered@ == old(self).considered@.push(node@),
            final(self).local_key@ == old(self).local_key@,
            final(self).capacity == old(self).capacity,
            final(self).local_space@ == old(self).local_space@,
            (node@.id_val() == old(self).local_key@.id_val() || exists|i: int|
                0 <= i < old(self).nodes@.len() && (#[trigger] old(self).nodes@[i])@.id_val()
                    == node@.id_val()) ==> final(self).nodes@ == old(self).nodes@,
    {
        let ghost cons_old = self.considered@;
        proof {
            self.considered@ = self.considered@.push(node@);
        }
        let ghost cons_new = self.considered@;
        proof {
            lemma_contains_after_push(cons_old, node@, self.nodes@);
        }
        if node.key.same_key(&self.local_key) {
            return ;
        }
        let mut i: usize = 0;
        while i < self.nodes.len()
            invariant
                old(self).wf(),
                node@.wf(),
                self.nodes@ == old(self).nodes@,
                self.local_key@ == old(self).local_key@,
                self.local_space@ == old(self).local_space@,
                self.capacity == old(self).capacity,
                self.considered@ == cons_new,
                cons_new == cons_old.push(node@),
                cons_old == old(self).considered@,
                0 <= i <= self.nodes@.len(),
                forall|k: int|
                    0 <= k < i ==> (#[trigger] self.nodes@[k])@.id_val() != node@.id_val(),
            decreases self.nodes@.len() - i,
        {
            if self.nodes[i].key.same_key(&node.key) {
                proof {
                    lemma_contains_after_push(cons_old, node@, self.nodes@);
                    assert(self.nodes@[i as int]@.id_val() == node@.id_val());
                }
                return ;
            }
            i += 1;
        }
        // The candidate is new and not the local key: insert it in distance
        // order, then drop the furthest entry if over capacity.
        let ghost pre = self.nodes@;
        let ghost lsp = old(self).local_space@;
        let ghost cap = old(self).capacity as int;
        let x = node.clone();
        let d = node_distance(&x, &self.local_space);
        let mut j = self.nodes.len();
        while j > 0 && further(&self.nodes, j - 1, d, &self.local_space)
            invariant
                old(self).wf(),
                self.nodes@ == pre,
                pre == old(self).nodes@,
                self.local_space@ == lsp,
                self.local_space.wf(),
                forall|m: int| 0 <= m < pre.len() ==> (#[trigger] pre[m])@.wf(),
                0 <= j <= pre.len(),
                forall|m: int|
                    j <= m < pre.len() ==> dist_to((#[trigger] pre[m])@.id_val(), lsp) > d,
            decreases j,
        {
            j -= 1;
        }
        proof {
            assert forall|m: int| 0 <= m < j implies dist_to(
                (#[trigger] pre[m])@.id_val(),
                lsp,
            ) <= d by {
                assert(dist_to(pre[j - 1]@.id_val(), lsp) <= d);
            };
        }
        self.nodes.insert(j, x);
        let ghost inserted = self.nodes@;
        if self.nodes.len() > self.capacity {
            self.nodes.truncate(self.capacity);
            proof {
                assert(self.nodes@ =~= inserted.take(cap));
            }
        }
        proof {
            assert(x@ == node@);
            if inserted.len() > cap {
                assert(pre.len() == cap);
            } else {
                assert(self.nodes@ == inserted);
            }
            lemma_consider_inserted(*old(self), *self, x, j as int);
        }
    }

    /// A snapshot of the stored neighbours, ascending by distance to the
    /// local key.
    pub fn get_all(&self) -> (r: Vec<Node>)
        requires
            self.wf(),
        ensures
            views_of_nodes(r@) == views_of_nodes(self.nodes@),
            r@.len() == self.nodes@.len(),
            sorted_by_distance_to(views_of_nodes(r@), self.local_space@),
    {
        let r = clone_nodes(&self.nodes);
        proof {
            assert(views_of_nodes(r@) =~= views_of_nodes(self.nodes@));
            lemma_sorted_views_iff_nodes(self.nodes@, self.local_space@);
        }
        r
    }

    /// Up to `k` stored neighbours, ascending by distance to `target_key`.
    /// Every stored node left out lies at least as far from the target as
    /// every node returned.
    #[verifier::rlimit(100)]
    pub fn get_n_closest(&self, target_key: &Key, k: usize) -> (r: Vec<Node>)
        requires
            self.wf(),
            target_key@.wf(),
        ensures
            n_closest_result(*self, target_key@, k as int, r@),
    {
        let target_space = KeySpace::from_key(target_key, self.local_space.coords.len());
        let copies = clone_nodes(&self.nodes);
        proof {
            assert forall|i: int| 0 <= i < copies@.len() implies (#[trigger] copies@[i])@.wf() by {
                assert(views_of_nodes(copies@)[i] == copies@[i]@);
                assert(views_of_nodes(self.nodes@)[i] == self.nodes@[i]@);
            };
        }
        let ghost copies_seq = copies@;
        let mut sorted = sort_nodes_by_distance(copies, &target_space);
        let ghost full = sorted@;
        proof {
            lemma_sorted_views_iff_nodes(full, target_space@);
        }
        if sorted.len() > k {
            sorted.truncate(k);
            proof {
                assert(sorted@ =~= full.take(k as int));
            }
        }
        proof {
            lemma_closest_selection(self.nodes@, copies_seq, full, sorted@, target_space@, k as int);
            lemma_sorted_views_iff_nodes(sorted@, target_space@);
        }
        sorted
    }
}

/// What `get_n_closest` promises: up to `k` of the stored nodes, each well
/// formed, ascending by distance to the target key's embedding, and nothing
/// stored was left out in favour of a node farther from the target.
pub open spec fn n_closest_result(s: NeighboursStore, target: crate::api::KeyView, k: int, r: Seq<
    Node,
>) -> bool {
    &&& r.len() == vstd::math::min(k, s.nodes@.len() as int)
    &&& forall|i: int| 0 <= i < r.len() ==> (#[trigger] r[i])@.wf()
    &&& sorted_by_distance_to(
        views_of_nodes(r),
        key_coords(target.id_val(), s.local_space@.len() as nat),
    )
    &&& forall|i: int| 0 <= i < r.len() ==> appears_in((#[trigger] r[i])@, s.nodes@)
    &&& forall|p: int|
        0 <= p < s.nodes@.len() ==> appears_in((#[trigger] s.nodes@[p])@, r) || (forall|i: int|
            0 <= i < r.len() ==> dist_to(
                (#[trigger] r[i])@.id_val(),
                key_coords(target.id_val(), s.local_space@.len() as nat),
            ) <= dist_to(
                s.nodes@[p]@.id_val(),
                key_coords(target.id_val(), s.local_space@.len() as nat),
            ))
}

/// Truncating a distance-sorted permutation of the stored nodes keeps only
/// nodes that were stored, and drops only nodes no closer than any kept.
#[verifier::rlimit(100)]
proof fn lemma_closest_selection(
    nodes: Seq<Node>,
    copies: Seq<Node>,
    full: Seq<Node>,
    post: Seq<Node>,
    tsp: Seq<i64>,
    k: int,
)
    requires
        views_of_nodes(copies) == views_of_nodes(nodes),
        copies.len() == nodes.len(),
        full.to_multiset() == copies.to_multiset(),
        full.len() == copies.len(),
        sorted_nodes_by_distance_to(full, tsp),
        0 <= k,
        post == if full.len() > k {
            full.take(k)
        } else {
            full
        },
        forall|i: int| 0 <= i < full.len() ==> (#[trigger] full[i])@.wf(),
    ensures
        forall|i: int| 0 <= i < post.len() ==> appears_in((#[trigger] post[i])@, nodes),
        forall|p: int|
            0 <= p < nodes.len() ==> appears_in((#[trigger] nodes[p])@, post) || (forall|i: int|
                0 <= i < post.len() ==> dist_to((#[trigger] post[i])@.id_val(), tsp) <= dist_to(
                    nodes[p]@.id_val(),
                    tsp,
                )),
        sorted_nodes_by_distance_to(post, tsp),
        forall|i: int| 0 <= i < post.len() ==> (#[trigger] post[i])@.wf(),
        post.len() == vstd::math::min(k, nodes.len() as int),
{
    assert(forall|m: int| 0 <= m < post.len() ==> post[m] == full[m]);
    assert forall|i: int| 0 <= i < post.len() implies appears_in((#[trigger] post[i])@, nodes) by {
        assert(full[i] == post[i]);
        assert(full.contains(post[i]));
        vstd::seq_lib::to_multiset_contains(full, post[i]);
        vstd::seq_lib::to_multiset_contains(copies, post[i]);
        assert(copies.contains(post[i]));
        let p = choose|p: int| 0 <= p < copies.len() && copies[p] == post[i];
        assert(views_of_nodes(copies)[p] == copies[p]@);
        assert(views_of_nodes(nodes)[p] == nodes[p]@);
        assert(post[i]@ == nodes[p]@);
        assert(appears_in(post[i]@, nodes));
    };
    assert forall|p: int| 0 <= p < nodes.len() implies appears_in((#[trigger] nodes[p])@, post) || (
    forall|i: int|
        0 <= i < post.len() ==> dist_to((#[trigger] post[i])@.id_val(), tsp) <= dist_to(
            nodes[p]@.id_val(),
            tsp,
        )) by {
        assert(copies.contains(copies[p]));
        vstd::seq_lib::to_multiset_contains(copies, copies[p]);
        vstd::seq_lib::to_multiset_contains(full, copies[p]);
        assert(full.to_multiset().count(copies[p]) == copies.to_multiset().count(copies[p]));
        assert(full.contains(copies[p]));
        let q = choose|q: int| 0 <= q < full.len() && full[q] == copies[p];
        assert(views_of_nodes(copies)[p] == copies[p]@);
        assert(views_of_nodes(nodes)[p] == nodes[p]@);
        assert(copies[p]@ == nodes[p]@);
        if q < post.len() {
            assert(post[q]@ == nodes[p]@);
            assert(appears_in(nodes[p]@, post));
        } else {
            assert forall|i: int| 0 <= i < post.len() implies dist_to(
                (#[trigger] post[i])@.id_val(),
                tsp,
            ) <= dist_to(nodes[p]@.id_val(), tsp) by {
                assert(dist_to(full[i]@.id_val(), tsp) <= dist_to(full[q]@.id_val(), tsp));
            };
        }
    };
    assert forall|p2: int, q2: int| 0 <= p2 < q2 < post.len() implies dist_to(
        (#[trigger] post[p2])@.id_val(),
        tsp,
    ) <= dist_to((#[trigger] post[q2])@.id_val(), tsp) by {
        assert(post[p2] == full[p2] && post[q2] == full[q2]);
    };
}

/// Inserting a node at its scan position keeps the sequence ascending.
pub proof fn lemma_sorted_insert(pre: Seq<Node>, x: Node, j: int, lsp: Seq<i64>)
    requires
        sorted_nodes_by_distance_to(pre, lsp),
        0 <= j <= pre.len(),
        forall|m: int|
            0 <= m < j ==> dist_to((#[trigger] pre[m])@.id_val(), lsp) <= dist_to(
                x@.id_val(),
                lsp,
            ),
        forall|m: int|
            j <= m < pre.len() ==> dist_to((#[trigger] pre[m])@.id_val(), lsp) > dist_to(
                x@.id_val(),
                lsp,
            ),
    ensures
        sorted_nodes_by_distance_to(pre.insert(j, x), lsp),
{
    let inserted = pre.insert(j, x);
    pre.insert_ensures(j, x);
    assert forall|p: int, q: int| 0 <= p < q < inserted.len() implies dist_to(
        (#[trigger] inserted[p])@.id_val(),
        lsp,
    ) <= dist_to((#[trigger] inserted[q])@.id_val(), lsp) by {
        if q < j {
            assert(inserted[p] == pre[p] && inserted[q] == pre[q]);
        } else if q == j {
            assert(inserted[q] == x && inserted[p] == pre[p]);
        } else {
            assert(inserted[q] == pre[q - 1]);
            if p < j {
                assert(inserted[p] == pre[p]);
            } else if p == j {
                assert(inserted[p] == x);
                assert(dist_to(pre[q - 1]@.id_val(), lsp) > dist_to(x@.id_val(), lsp));
            } else {
                assert(inserted[p] == pre[p - 1]);
            }
        }
    };
}

/// A prefix of an ascending sequence is ascending.
pub proof fn lemma_sorted_prefix(s: Seq<Node>, k: int, lsp: Seq<i64>)
    requires
        sorted_nodes_by_distance_to(s, lsp),
        0 <= k <= s.len(),
    ensures
        sorted_nodes_by_distance_to(s.take(k), lsp),
{
    assert forall|p: int, q: int| 0 <= p < q < s.take(k).len() implies dist_to(
        (#[trigger] s.take(k)[p])@.id_val(),
        lsp,
    ) <= dist_to((#[trigger] s.take(k)[q])@.id_val(), lsp) by {
        assert(s.take(k)[p] == s[p] && s.take(k)[q] == s[q]);
    };
}

/// After a genuinely new, non-local candidate is inserted in distance order
/// and the store truncated back to its capacity, the invariant holds again.
#[verifier::rlimit(100)]
proof fn lemma_consider_inserted(s_old: NeighboursStore, s_new: NeighboursStore, x: Node, j: int)
    requires
        s_old.wf(),
        x@.wf(),
        x@.id_val() != s_old.local_key@.id_val(),
        forall|k: int|
            0 <= k < s_old.nodes@.len() ==> (#[trigger] s_old.nodes@[k])@.id_val()
                != x@.id_val(),
        s_new.local_key == s_old.local_key,
        s_new.capacity == s_old.capacity,
        s_new.local_space == s_old.local_space,
        s_new.considered@ == s_old.considered@.push(x@),
        0 <= j <= s_old.nodes@.len(),
        forall|m: int|
            0 <= m < j ==> dist_to((#[trigger] s_old.nodes@[m])@.id_val(), s_old.local_space@)
                <= dist_to(x@.id_val(), s_old.local_space@),
        forall|m: int|
            j <= m < s_old.nodes@.len() ==> dist_to(
                (#[trigger] s_old.nodes@[m])@.id_val(),
                s_old.local_space@,
            ) > dist_to(x@.id_val(), s_old.local_space@),
        s_new.nodes@ == if s_old.nodes@.len() + 1 > s_old.capacity {
            s_old.nodes@.insert(j, x).take(s_old.capacity as int)
        } else {
            s_old.nodes@.insert(j, x)
        },
    ensures
        s_new.wf(),
{
    let pre = s_old.nodes@;
    let post = s_new.nodes@;
    let lsp = s_old.local_space@;
    let cap = s_old.capacity as int;
    let cons_old = s_old.considered@;
    let cons_new = s_new.considered@;
    let inserted = pre.insert(j, x);
    pre.insert_ensures(j, x);
    lemma_sorted_insert(pre, x, j, lsp);
    if inserted.len() > cap {
        assert(pre.len() == cap);
        lemma_sorted_prefix(inserted, cap, lsp);
        assert(post =~= inserted.take(cap));
    }
    assert(forall|m: int| 0 <= m < post.len() ==> post[m] == inserted[m]);
    assert(post.len() <= cap);
    // Each stored node is well formed, non-local, and recorded as considered.
    assert forall|m: int| 0 <= m < post.len() implies (#[trigger] post[m])@.wf() && post[m]@.id_val()
        != s_new.local_key@.id_val() && cons_new.contains(post[m]@) by {
        lemma_contains_after_push(cons_old, x@, pre);
        if m < j {
            assert(post[m] == pre[m]);
            assert(cons_old.contains(pre[m]@));
        } else if m == j {
            assert(post[m] == x);
        } else {
            assert(post[m] == pre[m - 1]);
            assert(cons_old.contains(pre[m - 1]@));
        }
    };
    // Keys stay pairwise distinct.
    assert forall|m: int, m2: int| 0 <= m < m2 < post.len() implies (
    #[trigger] post[m])@.id_val() != (#[trigger] post[m2])@.id_val() by {
        if m2 < j {
        } else if m2 == j {
            assert(post[m] == pre[m] && post[m2] == x);
        } else {
            assert(post[m2] == pre[m2 - 1]);
            if m < j {
                assert(post[m] == pre[m]);
            } else if m == j {
                assert(post[m] == x);
            } else {
                assert(post[m] == pre[m - 1]);
            }
        }
    };
    // Every considered candidate is accounted for.
    assert forall|t: int|
        0 <= t < cons_new.len() && (#[trigger] cons_new[t]).id_val()
            != s_new.local_key@.id_val() implies s_new.keeps(cons_new[t]) by {
        lemma_keeps_case(s_old, s_new, x, j, t);
    };
}

/// One considered candidate stays accounted for across the insertion.
#[verifier::rlimit(100)]
proof fn lemma_keeps_case(s_old: NeighboursStore, s_new: NeighboursStore, x: Node, j: int, t: int)
    requires
        s_old.wf(),
        x@.wf(),
        x@.id_val() != s_old.local_key@.id_val(),
        forall|k: int|
            0 <= k < s_old.nodes@.len() ==> (#[trigger] s_old.nodes@[k])@.id_val()
                != x@.id_val(),
        s_new.local_key == s_old.local_key,
        s_new.capacity == s_old.capacity,
        s_new.local_space == s_old.local_space,
        s_new.considered@ == s_old.considered@.push(x@),
        0 <= j <= s_old.nodes@.len(),
        forall|m: int|
            0 <= m < j ==> dist_to((#[trigger] s_old.nodes@[m])@.id_val(), s_old.local_space@)
                <= dist_to(x@.id_val(), s_old.local_space@),
        forall|m: int|
            j <= m < s_old.nodes@.len() ==> dist_to(
                (#[trigger] s_old.nodes@[m])@.id_val(),
                s_old.local_space@,
            ) > dist_to(x@.id_val(), s_old.local_space@),
        s_new.nodes@ == if s_old.nodes@.len() + 1 > s_old.capacity {
            s_old.nodes@.insert(j, x).take(s_old.capacity as int)
        } else {
            s_old.nodes@.insert(j, x)
        },
        0 <= t < s_new.considered@.len(),
        s_new.considered@[t].id_val() != s_new.local_key@.id_val(),
    ensures
        s_new.keeps(s_new.considered@[t]),
{
    let pre = s_old.nodes@;
    let post = s_new.nodes@;
    let lsp = s_old.local_space@;
    let cap = s_old.capacity as int;
    let cons_old = s_old.considered@;
    let cons_new = s_new.considered@;
    let inserted = pre.insert(j, x);
    let d = dist_to(x@.id_val(), lsp);
    pre.insert_ensures(j, x);
    lemma_sorted_insert(pre, x, j, lsp);
    if inserted.len() > cap {
        assert(pre.len() == cap);
        assert(post =~= inserted.take(cap));
    }
    assert(forall|m: int| 0 <= m < post.len() ==> post[m] == inserted[m]);
    let c = cons_new[t];
    if t == cons_old.len() {
        // The candidate just offered.
        assert(c == x@);
        if j < post.len() {
            assert(post[j] == x);
            assert(post[j]@.id_val() == c.id_val());
        } else {
            // It was inserted at the very end and truncated away: the store
            // is full of nodes at least as close.
            assert(inserted.len() > cap && j == cap);
            assert(post.len() == cap);
            assert forall|m: int| 0 <= m < post.len() implies dist_to(
                (#[trigger] post[m])@.id_val(),
                lsp,
            ) <= dist_to(c.id_val(), lsp) by {
                assert(post[m] == pre[m]);
                assert(dist_to(pre[m]@.id_val(), lsp) <= d);
            };
        }
    } else {
        assert(c == cons_old[t]);
        assert(s_old.keeps(c));
        if exists|i2: int| 0 <= i2 < pre.len() && (#[trigger] pre[i2])@.id_val() == c.id_val() {
            let i2 = choose|i2: int|
                0 <= i2 < pre.len() && (#[trigger] pre[i2])@.id_val() == c.id_val();
            let i3 = if i2 < j {
                i2
            } else {
                i2 + 1
            };
            assert(inserted[i3] == pre[i2]);
            if i3 < post.len() {
                assert(post[i3] == pre[i2]);
                assert(post[i3]@.id_val() == c.id_val());
            } else {
                // The matching node sat at the dropped position: everything
                // kept is at least as close.
                assert(inserted.len() > cap);
                assert(i3 == cap);
                assert(post.len() == cap);
                assert(dist_to(inserted[i3]@.id_val(), lsp) == dist_to(c.id_val(), lsp));
                assert forall|m: int| 0 <= m < post.len() implies dist_to(
                    (#[trigger] post[m])@.id_val(),
                    lsp,
                ) <= dist_to(c.id_val(), lsp) by {
                    assert(post[m] == inserted[m]);
                    assert(dist_to(inserted[m]@.id_val(), lsp) <= dist_to(
                        inserted[i3]@.id_val(),
                        lsp,
                    ));
                };
            }
        } else {
            // The store was already full of nodes at least as close as this
            // candidate; that stays true.
            assert(pre.len() == cap && forall|m: int|
                0 <= m < pre.len() ==> dist_to((#[trigger] pre[m])@.id_val(), lsp) <= dist_to(
                    c.id_val(),
                    lsp,
                ));
            assert forall|m: int| 0 <= m < post.len() implies dist_to(
                (#[trigger] post[m])@.id_val(),
                lsp,
            ) <= dist_to(c.id_val(), lsp) by {
                if m < j {
                    assert(post[m] == pre[m]);
                } else if m == j {
                    // The new node was kept, so the node dropped was a stored
                    // one no closer than the candidate, and the new node is
                    // closer still.
                    assert(post[m] == x);
                    assert(inserted.len() == cap + 1);
                    assert(m < cap);
                    assert(inserted[cap] == pre[cap - 1]);
                    assert(dist_to(pre[cap - 1]@.id_val(), lsp) > d);
                    assert(dist_to(pre[cap - 1]@.id_val(), lsp) <= dist_to(c.id_val(), lsp));
                } else {
                    assert(post[m] == pre[m - 1]);
                }
            };
            assert(post.len() == cap);
        }
    }
}

/// Pushing one more view keeps every earlier containment.
proof fn lemma_contains_after_push(s: Seq<NodeView>, v: NodeView, nodes: Seq<Node>)
    ensures
        forall|i: int|
            0 <= i < nodes.len() && s.contains(#[trigger] nodes[i]@) ==> s.push(v).contains(
                nodes[i]@,
            ),
        s.push(v).contains(v),
{
    assert(s.push(v)[s.len() as int] == v);
    assert forall|i: int|
        0 <= i < nodes.len() && s.contains(#[trigger] nodes[i]@) implies s.push(v).contains(
        nodes[i]@,
    ) by {
        let t = choose|t: int| 0 <= t < s.len() && s[t] == nodes[i]@;
        assert(s.push(v)[t] == nodes[i]@);
    };
}

/// Whether the stored node at `m` lies strictly further from `pivot` than
/// distance `d`.
fn further(nodes: &Vec<Node>, m: usize, d: u128, pivot: &KeySpace) -> (r: bool)
    requires
        m < nodes@.len(),
        nodes@[m as int]@.wf(),
        pivot.wf(),
    ensures
        r == (dist_to(nodes@[m as int]@.id_val(), pivot@) > d),
{
    node_distance(&nodes[m], pivot) > d
}

/// Law: however candidates arrive, a well-formed store holds at most its
/// capacity of nodes, never the local key, only nodes that were considered,
/// and nothing considered was passed over in favour of a farther node: a
/// distinct non-local candidate is either stored (by key) or was dropped
/// only when the store was full of nodes at least as close.
pub proof fn lemma_store_bounds(s: NeighboursStore)
    requires
        s.wf(),
    ensures
        s.nodes@.len() <= s.capacity,
        forall|i: int|
            0 <= i < s.nodes@.len() ==> (#[trigger] s.nodes@[i])@.id_val()
                != s.local_key@.id_val(),
        forall|i: int|
            0 <= i < s.nodes@.len() ==> s.considered@.contains(#[trigger] s.nodes@[i]@),
        forall|t: int|
            0 <= t < s.considered@.len() && (#[trigger] s.considered@[t]).id_val()
                != s.local_key@.id_val() ==> s.keeps(s.considered@[t]),
{
}

} // verus!

verus! {

/// A candidate is accounted for by a bounded list ordered towards `lsp`:
/// a node with its key is in the list, or the list is full and every listed
/// node is at least as close.
pub open spec fn bounded_closest(nodes: Seq<Node>, cap: int, lsp: Seq<i64>, c: NodeView) -> bool {
    ||| exists|i: int| 0 <= i < nodes.len() && (#[trigger] nodes[i])@.id_val() == c.id_val()
    ||| (nodes.len() == cap && forall|i: int|
        0 <= i < nodes.len() ==> dist_to((#[trigger] nodes[i])@.id_val(), lsp) <= dist_to(
            c.id_val(),
            lsp,
        ))
}

/// Inserting a fresh node at its scan position and clipping back to the
/// bound keeps every previously accounted-for candidate accounted for, and
/// accounts for the fresh node itself.
#[verifier::rlimit(100)]
pub proof fn lemma_bounded_closest_insert(
    pre: Seq<Node>,
    post: Seq<Node>,
    x: Node,
    j: int,
    cap: int,
    lsp: Seq<i64>,
    c: NodeView,
)
    requires
        sorted_nodes_by_distance_to(pre, lsp),
        pre.len() <= cap,
        0 <= j <= pre.len(),
        forall|m: int|
            0 <= m < j ==> dist_to((#[trigger] pre[m])@.id_val(), lsp) <= dist_to(
                x@.id_val(),
                lsp,
            ),
        forall|m: int|
            j <= m < pre.len() ==> dist_to((#[trigger] pre[m])@.id_val(), lsp) > dist_to(
                x@.id_val(),
                lsp,
            ),
        forall|m: int| 0 <= m < pre.len() ==> (#[trigger] pre[m])@.id_val() != x@.id_val(),
        post == (if pre.len() + 1 > cap {
            pre.insert(j, x).take(cap)
        } else {
            pre.insert(j, x)
        }),
        bounded_closest(pre, cap, lsp, c) || c.id_val() == x@.id_val(),
    ensures
        bounded_closest(post, cap, lsp, c),
{
    let inserted = pre.insert(j, x);
    let d = dist_to(x@.id_val(), lsp);
    pre.insert_ensures(j, x);
    lemma_sorted_insert(pre, x, j, lsp);
    if inserted.len() > cap {
        assert(pre.len() == cap);
        assert(post =~= inserted.take(cap));
    }
    assert(forall|m: int| 0 <= m < post.len() ==> post[m] == inserted[m]);
    if c.id_val() == x@.id_val() {
        // The freshly inserted node itself.
        if j < post.len() {
            assert(post[j] == x);
            assert(post[j]@.id_val() == c.id_val());
        } else {
            assert(inserted.len() > cap && j == cap);
            assert(post.len() == cap);
            assert forall|m: int| 0 <= m < post.len() implies dist_to(
                (#[trigger] post[m])@.id_val(),
                lsp,
            ) <= dist_to(c.id_val(), lsp) by {
                assert(post[m] == pre[m]);
                assert(dist_to(pre[m]@.id_val(), lsp) <= d);
            };
        }
    } else if exists|i2: int|
        0 <= i2 < pre.len() && (#[trigger] pre[i2])@.id_val() == c.id_val() {
        let i2 = choose|i2: int|
            0 <= i2 < pre.len() && (#[trigger] pre[i2])@.id_val() == c.id_val();
        let i3 = if i2 < j {
            i2
        } else {
            i2 + 1
        };
        assert(inserted[i3] == pre[i2]);
        if i3 < post.len() {
            assert(post[i3] == pre[i2]);
            assert(post[i3]@.id_val() == c.id_val());
        } else {
            // The matching node sat at the dropped position: everything kept
            // is at least as close.
            assert(inserted.len() > cap);
            assert(i3 == cap);
            assert(post.len() == cap);
            assert(dist_to(inserted[i3]@.id_val(), lsp) == dist_to(c.id_val(), lsp));
            assert forall|m: int| 0 <= m < post.len() implies dist_to(
                (#[trigger] post[m])@.id_val(),
                lsp,
            ) <= dist_to(c.id_val(), lsp) by {
                assert(post[m] == inserted[m]);
                assert(dist_to(inserted[m]@.id_val(), lsp) <= dist_to(
                    inserted[i3]@.id_val(),
                    lsp,
                ));
            };
        }
    } else {
        // The list was already full of nodes at least as close as this
        // candidate; that stays true.
        assert(pre.len() == cap && forall|m: int|
            0 <= m < pre.len() ==> dist_to((#[trigger] pre[m])@.id_val(), lsp) <= dist_to(
                c.id_val(),
                lsp,
            ));
        assert forall|m: int| 0 <= m < post.len() implies dist_to(
            (#[trigger] post[m])@.id_val(),
            lsp,
        ) <= dist_to(c.id_val(), lsp) by {
            if m < j {
                assert(post[m] == pre[m]);
            } else if m == j {
                assert(post[m] == x);
                assert(inserted.len() == cap + 1);
                assert(m < cap);
                assert(inserted[cap] == pre[cap - 1]);
                assert(dist_to(pre[cap - 1]@.id_val(), lsp) > d);
                assert(dist_to(pre[cap - 1]@.id_val(), lsp) <= dist_to(c.id_val(), lsp));
            } else {
                assert(post[m] == pre[m - 1]);
            }
        };
        assert(post.len() == cap);
    }
}

} // verus!
