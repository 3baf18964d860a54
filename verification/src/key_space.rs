//! The key-space embedding: every key is hashed into a fixed-dimensional
//! vector of signed 32-bit coordinates, and peers are ordered by exact
//! squared Euclidean distance between those vectors.
//!
//! The embedding depends only on the numeric value of the key's short id and
//! on the dimension, so it is deterministic across runs and platforms.

use vstd::prelude::*;
use crate::api::{Key, KeyView, Node, NodeView, views_of_nodes};
use vstd::multiset::Multiset;

verus! {

/// One 32-bit chunk of the key hash: the short-id value mixed with the
/// coordinate index by two rounds of multiply-and-reduce modulo 2^32.
pub open spec fn chunk(id: int, i: int) -> int {
    (((id + (i + 1) * 0x9E37_79B9) % 0x1_0000_0000) * 0x85EB_CA6B) % 0x1_0000_0000
}

/// Coordinate `i` of a key's embedding: the chunk recentred into the signed
/// 32-bit range.
pub open spec fn coord(id: int, i: int) -> i64 {
    (chunk(id, i) - 0x8000_0000) as i64
}

/// The full embedding of a key with short-id value `id` into `n` dimensions.
pub open spec fn key_coords(id: int, n: nat) -> Seq<i64> {
    Seq::new(n, |i: int| coord(id, i))
}

/// A point of the key space. All coordinates lie in the signed 32-bit range.
pub struct KeySpace {
    pub coords: Vec<i64>,
}

impl View for KeySpace {
    type V = Seq<i64>;

    open spec fn view(&self) -> Seq<i64> {
        self.coords@
    }
}

/// Coordinates within the signed 32-bit range.
pub open spec fn coords_wf(s: Seq<i64>) -> bool {
    forall|i: int| 0 <= i < s.len() ==> -0x8000_0000 <= #[trigger] s[i] < 0x8000_0000
}

impl KeySpace {
    /// A key-space point is well formed when every coordinate is in range.
    pub open spec fn wf(self) -> bool {
        coords_wf(self@)
    }

    /// Embed `key` into an `n`-dimensional key space. Total, and a function
    /// of the short-id value and `n` alone.
    pub fn from_key(key: &Key, n: usize) -> (r: KeySpace)
        requires
            key@.wf(),
        ensures
            r@ == key_coords(key@.id_val(), n as nat),
            r.wf(),
    {
        let id = crate::api::key_id_value(&key.key_id);
        let mut coords: Vec<i64> = Vec::new();
        let mut i: usize = 0;
        while i < n
            invariant
                0 <= i <= n,
                coords@ =~= key_coords(id as int, n as nat).take(i as int),
            decreases n - i,
        {
            let t: u128 = ((id as u128) + ((i as u128) + 1) * 0x9E37_79B9) % 0x1_0000_0000;
            let c: u128 = (t * 0x85EB_CA6B) % 0x1_0000_0000;
            let v: i64 = (c as i64) - 0x8000_0000;
            proof {
                assert(v == coord(id as int, i as int));
                assert(key_coords(id as int, n as nat).take(i + 1) =~= key_coords(
                    id as int,
                    n as nat,
                ).take(i as int).push(v));
            }
            coords.push(v);
            i += 1;
        }
        proof {
            assert(key_coords(id as int, n as nat).take(n as int) =~= key_coords(
                id as int,
                n as nat,
            ));
        }
        KeySpace { coords }
    }
}

/// Law: the key-space embedding is deterministic. Two keys whose short ids
/// denote the same value embed to the same coordinates, in any dimension.
pub proof fn lemma_from_key_deterministic(a: KeyView, b: KeyView, n: nat)
    requires
        a.id_val() == b.id_val(),
    ensures
        key_coords(a.id_val(), n) == key_coords(b.id_val(), n),
{
}

/// The squared Euclidean distance between two coordinate vectors.
pub open spec fn dist_sq(a: Seq<i64>, b: Seq<i64>) -> int
    decreases a.len(),
{
    if a.len() == 0 || b.len() == 0 {
        0
    } else {
        dist_sq(a.drop_last(), b.drop_last()) + (a.last() - b.last()) * (a.last() - b.last())
    }
}

/// The squared distance from the key with short-id value `id` to the point
/// `pivot`, embedding the key into the pivot's dimension.
pub open spec fn dist_to(id: int, pivot: Seq<i64>) -> int {
    dist_sq(key_coords(id, pivot.len()), pivot)
}

/// The exact squared Euclidean distance between two points of equal
/// dimension.
pub fn distance_squared(a: &KeySpace, b: &KeySpace) -> (r: u128)
    requires
        a.wf(),
        b.wf(),
        a@.len() == b@.len(),
    ensures
        r == dist_sq(a@, b@),
{
    let mut acc: u128 = 0;
    let mut i: usize = 0;
    while i < a.coords.len()
        invariant
            0 <= i <= a@.len(),
            a.wf(),
            b.wf(),
            a@.len() == b@.len(),
            acc == dist_sq(a@.take(i as int), b@.take(i as int)),
            acc <= i * 0xFFFF_FFFE_0000_0001,
        decreases a@.len() - i,
    {
        let d: i128 = (a.coords[i] as i128) - (b.coords[i] as i128);
        proof {
            assert(-0xFFFF_FFFF <= d <= 0xFFFF_FFFF);
            assert(d * d <= 0xFFFF_FFFE_0000_0001 && d * d >= 0) by (nonlinear_arith)
                requires
                    -0xFFFF_FFFF <= d <= 0xFFFF_FFFF,
            ;
            assert(a@.take(i + 1).drop_last() =~= a@.take(i as int));
            assert(b@.take(i + 1).drop_last() =~= b@.take(i as int));
            assert(i * 0xFFFF_FFFE_0000_0001 + 0xFFFF_FFFE_0000_0001 == (i + 1)
                * 0xFFFF_FFFE_0000_0001);
            assert((i + 1) * 0xFFFF_FFFE_0000_0001 <= 0x1_0000_0000_0000_0000
                * 0xFFFF_FFFE_0000_0001) by (nonlinear_arith)
                requires
                    i + 1 <= 0x1_0000_0000_0000_0000,
            ;
        }
        let sq: u128 = (d * d) as u128;
        acc = acc + sq;
        i += 1;
    }
    proof {
        assert(a@.take(a@.len() as int) =~= a@);
        assert(b@.take(b@.len() as int) =~= b@);
    }
    acc
}

/// The squared distance from `node`'s key to the point `pivot`.
pub fn node_distance(node: &Node, pivot: &KeySpace) -> (r: u128)
    requires
        node@.wf(),
        pivot.wf(),
    ensures
        r == dist_to(node@.id_val(), pivot@),
{
    let ks = KeySpace::from_key(&node.key, pivot.coords.len());
    distance_squared(&ks, pivot)
}

/// Ascending distance to `pivot`, over every pair of positions.
pub open spec fn sorted_by_distance_to(s: Seq<NodeView>, pivot: Seq<i64>) -> bool {
    forall|i: int, j: int|
        0 <= i < j < s.len() ==> dist_to(#[trigger] s[i].id_val(), pivot) <= dist_to(
            #[trigger] s[j].id_val(),
            pivot,
        )
}

/// The result `r` rearranges `items` by the permutation `perm`, ascending by
/// distance to `pivot`, with nodes at equal distances kept in their original
/// order.
pub open spec fn stable_distance_permutation(
    items: Seq<Node>,
    r: Seq<Node>,
    perm: Seq<int>,
    pivot: Seq<i64>,
) -> bool {
    &&& perm.len() == r.len()
    &&& r.len() == items.len()
    &&& forall|i: int| 0 <= i < perm.len() ==> 0 <= #[trigger] perm[i] < items.len()
    &&& forall|i: int, j: int| 0 <= i < j < perm.len() ==> perm[i] != perm[j]
    &&& forall|i: int| 0 <= i < r.len() ==> (#[trigger] r[i]) == items[perm[i]]
    &&& forall|i: int, j: int|
        0 <= i < j < r.len() && dist_to((#[trigger] r[i])@.id_val(), pivot) == dist_to(
            (#[trigger] r[j])@.id_val(),
            pivot,
        ) ==> perm[i] < perm[j]
}

/// Sort nodes by ascending distance from their keys to `pivot`. The result
/// holds exactly the given nodes, rearranged by a permutation that keeps
/// equally distant nodes in their original order.
#[verifier::rlimit(100)]
pub fn sort_nodes_by_distance(items: Vec<Node>, pivot: &KeySpace) -> (r: Vec<Node>)
    requires
        pivot.wf(),
        forall|i: int| 0 <= i < items@.len() ==> (#[trigger] items@[i])@.wf(),
    ensures
        r@.to_multiset() == items@.to_multiset(),
        r@.len() == items@.len(),
        sorted_by_distance_to(views_of_nodes(r@), pivot@),
        forall|i: int| 0 <= i < r@.len() ==> (#[trigger] r@[i])@.wf(),
        exists|perm: Seq<int>| stable_distance_permutation(items@, r@, perm, pivot@),
{
    let ghost orig = items@;
    let mut rest = items;
    let mut out: Vec<Node> = Vec::new();
    let mut out_d: Vec<u128> = Vec::new();
    let ghost mut perm: Seq<int> = Seq::empty();
    proof {
        broadcast use vstd::multiset::group_multiset_axioms;

        vstd::seq_lib::to_multiset_len(out@);
        assert(out@.to_multiset().add(rest@.to_multiset()) =~= orig.to_multiset());
    }
    while rest.len() > 0
        invariant
            pivot.wf(),
            out@.len() == out_d@.len(),
            out@.len() + rest@.len() == orig.len(),
            out@.to_multiset().add(rest@.to_multiset()) =~= orig.to_multiset(),
            forall|k: int| 0 <= k < rest@.len() ==> (#[trigger] rest@[k]) == orig[out@.len() + k],
            forall|k: int| 0 <= k < orig.len() ==> (#[trigger] orig[k])@.wf(),
            forall|k: int| 0 <= k < out@.len() ==> (#[trigger] out@[k])@.wf(),
            forall|k: int|
                0 <= k < out@.len() ==> out_d@[k] == dist_to((#[trigger] out@[k])@.id_val(), pivot@),
            forall|p: int, q: int| 0 <= p < q < out_d@.len() ==> out_d@[p] <= out_d@[q],
            perm.len() == out@.len(),
            forall|i: int| 0 <= i < perm.len() ==> 0 <= #[trigger] perm[i] < out@.len(),
            forall|i: int, j: int| 0 <= i < j < perm.len() ==> perm[i] != perm[j],
            forall|i: int| 0 <= i < out@.len() ==> (#[trigger] out@[i]) == orig[perm[i]],
            forall|p: int, q: int|
                0 <= p < q < out_d@.len() && out_d@[p] == out_d@[q] ==> perm[p] < perm[q],
        decreases rest@.len(),
    {
        let ghost kk = out@.len() as int;
        proof {
            vstd::seq_lib::to_multiset_remove(rest@, 0);
            vstd::seq_lib::to_multiset_contains(rest@, rest@[0]);
        }
        let x = rest.remove(0);
        proof {
            assert(x == orig[kk]);
        }
        let d = node_distance(&x, pivot);
        let mut j = out.len();
        #[verifier::loop_isolation(false)]
        while j > 0 && larger(&out_d, j - 1, d)
            invariant
                0 <= j <= out_d@.len(),
                forall|m: int| j <= m < out_d@.len() ==> out_d@[m] > d,
            decreases j,
        {
            j -= 1;
        }
        proof {
            vstd::seq_lib::to_multiset_insert(out@, j as int, x);
            vstd::seq_lib::to_multiset_insert(out_d@, j as int, d);
            perm = perm.insert(j as int, kk);
        }
        out.insert(j, x);
        out_d.insert(j, d);
        proof {
            assert forall|p: int, q: int| 0 <= p < q < out_d@.len() implies out_d@[p]
                <= out_d@[q] by {
                if q == j {
                    assert(out_d@[p] == old_at(out_d@, j as int, p));
                }
            };
            // The permutation stays a stable witness: the fresh original
            // index is larger than every earlier one, and anything displaced
            // past the new node lies strictly further away.
            assert forall|p: int, q: int|
                0 <= p < q < out_d@.len() && out_d@[p] == out_d@[q] implies perm[p] < perm[q] by {
                if p == j {
                    assert(out_d@[q] > d);
                } else if q == j {
                    assert(out_d@[p] == old_at(out_d@, j as int, p));
                    assert(perm[p] < kk);
                }
            };
        }
    }
    proof {
        vstd::seq_lib::to_multiset_len(rest@);
        vstd::seq_lib::to_multiset_len(out@);
        vstd::seq_lib::to_multiset_len(orig);
        assert(rest@.to_multiset() =~= Multiset::<Node>::empty());
        assert(out@.to_multiset() =~= orig.to_multiset());
        assert(stable_distance_permutation(orig, out@, perm, pivot@));
    }
    out
}

/// Whether the distance stored at `m` exceeds `d`.
fn larger(out_d: &Vec<u128>, m: usize, d: u128) -> (r: bool)
    requires
        m < out_d@.len(),
    ensures
        r == (out_d@[m as int] > d),
{
    out_d[m] > d
}

/// The element of `s` at `p` before an insertion at position `j` shifted it.
spec fn old_at(s: Seq<u128>, j: int, p: int) -> u128 {
    if p < j {
        s[p]
    } else {
        s[p + 1]
    }
}

} // verus!

use vstd::prelude::*;

verus! {

/// The first planar coordinate of a point (zero for an empty vector).
pub open spec fn proj_x(v: Seq<i64>) -> int {
    if v.len() > 0 {
        v[0] as int
    } else {
        0
    }
}

/// The second planar coordinate of a point (zero below two dimensions).
pub open spec fn proj_y(v: Seq<i64>) -> int {
    if v.len() > 1 {
        v[1] as int
    } else {
        0
    }
}

/// The planar cross product of two vectors.
pub open spec fn cross(ax: int, ay: int, bx: int, by: int) -> int {
    ax * by - ay * bx
}

/// The planar dot product of two vectors.
pub open spec fn dot(ax: int, ay: int, bx: int, by: int) -> int {
    ax * bx + ay * by
}

/// The angular class of `v`, measured anticlockwise from the reference
/// vector `r`: 0 at angle zero, 1 strictly between zero and a half turn,
/// 2 at exactly a half turn, 3 strictly beyond it. A zero vector sits in
/// class 0, as an angle of zero.
pub open spec fn angle_class(rx: int, ry: int, vx: int, vy: int) -> int {
    if cross(rx, ry, vx, vy) > 0 {
        1
    } else if cross(rx, ry, vx, vy) < 0 {
        3
    } else if dot(rx, ry, vx, vy) >= 0 {
        0
    } else {
        2
    }
}

/// Whether `a` sits at an angle from `r` no greater than `b` does, angles
/// normalised anticlockwise into one full turn: earlier class first, and
/// within the open half-turn classes the pair ordered by their own cross
/// product.
pub open spec fn angle_le(rx: int, ry: int, ax: int, ay: int, bx: int, by: int) -> bool {
    let ca = angle_class(rx, ry, ax, ay);
    let cb = angle_class(rx, ry, bx, by);
    ca < cb || (ca == cb && (ca == 0 || ca == 2 || cross(ax, ay, bx, by) >= 0))
}

/// The angular order is total: of any two vectors, one comes no later than
/// the other.
pub proof fn lemma_angle_le_total(rx: int, ry: int, ax: int, ay: int, bx: int, by: int)
    ensures
        angle_le(rx, ry, ax, ay, bx, by) || angle_le(rx, ry, bx, by, ax, ay),
{
    assert(cross(ax, ay, bx, by) == -cross(bx, by, ax, ay)) by (nonlinear_arith);
}

/// The planar component of the embedding of key `id`, relative to `centre`.
pub open spec fn node_rel_x(id: int, centre: Seq<i64>) -> int {
    proj_x(key_coords(id, centre.len())) - proj_x(centre)
}

/// The second planar component of the embedding of key `id`, relative to
/// `centre`.
pub open spec fn node_rel_y(id: int, centre: Seq<i64>) -> int {
    proj_y(key_coords(id, centre.len())) - proj_y(centre)
}

/// Whether node `a` comes no later than node `b` in the angular order around
/// `centre`, measured from the direction of `reference`.
pub open spec fn angle_le_nodes(a_id: int, b_id: int, centre: Seq<i64>, reference: Seq<i64>) -> bool {
    angle_le(
        proj_x(reference) - proj_x(centre),
        proj_y(reference) - proj_y(centre),
        node_rel_x(a_id, centre),
        node_rel_y(a_id, centre),
        node_rel_x(b_id, centre),
        node_rel_y(b_id, centre),
    )
}

/// Each adjacent pair in angular order around `centre`.
pub open spec fn sorted_by_angle(s: Seq<NodeView>, centre: Seq<i64>, reference: Seq<i64>) -> bool {
    forall|i: int|
        0 <= i < s.len() - 1 ==> angle_le_nodes(
            (#[trigger] s[i]).id_val(),
            s[i + 1].id_val(),
            centre,
            reference,
        )
}

/// The planar components of a point relative to `centre`.
fn rel2(p: &KeySpace, centre: &KeySpace) -> (r: (i64, i64))
    requires
        p.wf(),
        centre.wf(),
    ensures
        r.0 == proj_x(p@) - proj_x(centre@),
        r.1 == proj_y(p@) - proj_y(centre@),
{
    let px: i64 = if p.coords.len() > 0 {
        p.coords[0]
    } else {
        0
    };
    let py: i64 = if p.coords.len() > 1 {
        p.coords[1]
    } else {
        0
    };
    let cx: i64 = if centre.coords.len() > 0 {
        centre.coords[0]
    } else {
        0
    };
    let cy: i64 = if centre.coords.len() > 1 {
        centre.coords[1]
    } else {
        0
    };
    (px - cx, py - cy)
}

/// Whether node `a` comes no later than node `b` in the angular order around
/// `centre`, measured from the direction of `reference`.
pub fn node_angle_le(a: &Node, b: &Node, centre: &KeySpace, reference: &KeySpace) -> (r: bool)
    requires
        a@.wf(),
        b@.wf(),
        centre.wf(),
        reference.wf(),
    ensures
        r == angle_le_nodes(a@.id_val(), b@.id_val(), centre@, reference@),
{
    let a_ks = KeySpace::from_key(&a.key, centre.coords.len());
    let b_ks = KeySpace::from_key(&b.key, centre.coords.len());
    let (rx, ry) = rel2(reference, centre);
    let (ax, ay) = rel2(&a_ks, centre);
    let (bx, by) = rel2(&b_ks, centre);
    let ca = angle_class_exec(rx, ry, ax, ay);
    let cb = angle_class_exec(rx, ry, bx, by);
    if ca < cb {
        true
    } else if ca == cb {
        if ca == 0 || ca == 2 {
            true
        } else {
            cross_exec(ax, ay, bx, by) >= 0
        }
    } else {
        false
    }
}

/// The planar cross product, computed exactly.
fn cross_exec(ax: i64, ay: i64, bx: i64, by: i64) -> (r: i128)
    requires
        -0x1_0000_0000 <= ax <= 0x1_0000_0000,
        -0x1_0000_0000 <= ay <= 0x1_0000_0000,
        -0x1_0000_0000 <= bx <= 0x1_0000_0000,
        -0x1_0000_0000 <= by <= 0x1_0000_0000,
    ensures
        r == cross(ax as int, ay as int, bx as int, by as int),
{
    proof {
        lemma_prod_bound(ax as int, by as int);
        lemma_prod_bound(ay as int, bx as int);
    }
    (ax as i128) * (by as i128) - (ay as i128) * (bx as i128)
}

/// The angular class of `v` measured from `r`, computed exactly.
fn angle_class_exec(rx: i64, ry: i64, vx: i64, vy: i64) -> (r: u8)
    requires
        -0x1_0000_0000 <= rx <= 0x1_0000_0000,
        -0x1_0000_0000 <= ry <= 0x1_0000_0000,
        -0x1_0000_0000 <= vx <= 0x1_0000_0000,
        -0x1_0000_0000 <= vy <= 0x1_0000_0000,
    ensures
        r == angle_class(rx as int, ry as int, vx as int, vy as int),
{
    proof {
        lemma_prod_bound(rx as int, vy as int);
        lemma_prod_bound(ry as int, vx as int);
        lemma_prod_bound(rx as int, vx as int);
        lemma_prod_bound(ry as int, vy as int);
    }
    let c: i128 = (rx as i128) * (vy as i128) - (ry as i128) * (vx as i128);
    if c > 0 {
        1
    } else if c < 0 {
        3
    } else {
        let d: i128 = (rx as i128) * (vx as i128) + (ry as i128) * (vy as i128);
        if d >= 0 {
            0
        } else {
            2
        }
    }
}

/// A product of two factors bounded by 2^32 in magnitude is bounded by 2^64.
proof fn lemma_prod_bound(a: int, b: int)
    requires
        -0x1_0000_0000 <= a <= 0x1_0000_0000,
        -0x1_0000_0000 <= b <= 0x1_0000_0000,
    ensures
        -0x1_0000_0000_0000_0000 <= a * b <= 0x1_0000_0000_0000_0000,
{
    assert(-0x1_0000_0000_0000_0000 <= a * b <= 0x1_0000_0000_0000_0000) by (nonlinear_arith)
        requires
            -0x1_0000_0000 <= a <= 0x1_0000_0000,
            -0x1_0000_0000 <= b <= 0x1_0000_0000,
    ;
}

/// Adjacent pairs of a node sequence in angular order.
pub open spec fn sorted_by_angle_nodes(s: Seq<Node>, centre: Seq<i64>, reference: Seq<i64>) -> bool {
    forall|i: int|
        0 <= i < s.len() - 1 ==> angle_le_nodes(
            (#[trigger] s[i])@.id_val(),
            s[i + 1]@.id_val(),
            centre,
            reference,
        )
}

/// Insert one node into a sequence already in angular order, keeping the
/// order and placing the node after any node at the same angle. Returns the
/// insertion position; everything displaced past it is strictly later in the
/// angular order.
#[verifier::rlimit(60)]
fn insert_by_angle(out: &mut Vec<Node>, x: Node, centre: &KeySpace, reference: &KeySpace) -> (j:
    usize)
    requires
        centre.wf(),
        reference.wf(),
        x@.wf(),
        forall|k: int| 0 <= k < old(out)@.len() ==> (#[trigger] old(out)@[k])@.wf(),
        sorted_by_angle_nodes(old(out)@, centre@, reference@),
    ensures
        j <= old(out)@.len(),
        final(out)@ == old(out)@.insert(j as int, x),
        forall|m: int|
            j <= m < old(out)@.len() ==> !angle_le_nodes(
                (#[trigger] old(out)@[m])@.id_val(),
                x@.id_val(),
                centre@,
                reference@,
            ),
        forall|k: int| 0 <= k < final(out)@.len() ==> (#[trigger] final(out)@[k])@.wf(),
        sorted_by_angle_nodes(final(out)@, centre@, reference@),
{
    let mut j = out.len();
    while j > 0 && !node_angle_le(&out[j - 1], &x, centre, reference)
        invariant
            0 <= j <= out@.len(),
            centre.wf(),
            reference.wf(),
            x@.wf(),
            out@ == old(out)@,
            forall|k: int| 0 <= k < out@.len() ==> (#[trigger] out@[k])@.wf(),
            forall|m: int|
                j <= m < out@.len() ==> !angle_le_nodes(
                    (#[trigger] out@[m])@.id_val(),
                    x@.id_val(),
                    centre@,
                    reference@,
                ),
        decreases j,
    {
        j -= 1;
    }
    proof {
        if j < out@.len() {
            lemma_angle_le_total(
                proj_x(reference@) - proj_x(centre@),
                proj_y(reference@) - proj_y(centre@),
                node_rel_x(out@[j as int]@.id_val(), centre@),
                node_rel_y(out@[j as int]@.id_val(), centre@),
                node_rel_x(x@.id_val(), centre@),
                node_rel_y(x@.id_val(), centre@),
            );
        }
    }
    let ghost pre = out@;
    out.insert(j, x);
    proof {
        assert forall|i: int| 0 <= i < out@.len() - 1 implies angle_le_nodes(
            (#[trigger] out@[i])@.id_val(),
            out@[i + 1]@.id_val(),
            centre@,
            reference@,
        ) by {
            if i + 1 < j {
                assert(out@[i] == pre[i] && out@[i + 1] == pre[i + 1]);
            } else if i + 1 == j {
                assert(out@[i] == pre[i] && out@[i + 1] == x);
            } else if i == j {
                assert(out@[i] == x && out@[i + 1] == pre[i]);
            } else {
                assert(out@[i] == pre[i - 1] && out@[i + 1] == pre[i]);
            }
        };
    }
    j
}

/// The result `r` rearranges `items` by the permutation `perm`, each
/// adjacent pair in angular order, with nodes at the same angle kept in
/// their original order.
pub open spec fn stable_angle_permutation(
    items: Seq<Node>,
    r: Seq<Node>,
    perm: Seq<int>,
    centre: Seq<i64>,
    reference: Seq<i64>,
) -> bool {
    &&& perm.len() == r.len()
    &&& r.len() == items.len()
    &&& forall|i: int| 0 <= i < perm.len() ==> 0 <= #[trigger] perm[i] < items.len()
    &&& forall|i: int, j: int| 0 <= i < j < perm.len() ==> perm[i] != perm[j]
    &&& forall|i: int| 0 <= i < r.len() ==> (#[trigger] r[i]) == items[perm[i]]
    &&& forall|i: int, j: int|
        0 <= i < j < r.len() && angle_le_nodes(
            (#[trigger] r[i])@.id_val(),
            (#[trigger] r[j])@.id_val(),
            centre,
            reference,
        ) && angle_le_nodes(r[j]@.id_val(), r[i]@.id_val(), centre, reference) ==> perm[i]
            < perm[j]
}

/// Sort nodes into the angular order around `centre`, measured from the
/// direction of `reference`. The result holds exactly the given nodes,
/// rearranged by a permutation that keeps nodes at the same angle in their
/// original order, each adjacent pair in order.
#[verifier::rlimit(100)]
pub fn sort_nodes_by_angle(items: Vec<Node>, centre: &KeySpace, reference: &KeySpace) -> (r: Vec<
    Node,
>)
    requires
        centre.wf(),
        reference.wf(),
        forall|i: int| 0 <= i < items@.len() ==> (#[trigger] items@[i])@.wf(),
    ensures
        r@.to_multiset() == items@.to_multiset(),
        r@.len() == items@.len(),
        sorted_by_angle(views_of_nodes(r@), centre@, reference@),
        forall|i: int| 0 <= i < r@.len() ==> (#[trigger] r@[i])@.wf(),
        exists|perm: Seq<int>| stable_angle_permutation(items@, r@, perm, centre@, reference@),
{
    let ghost orig = items@;
    let mut rest = items;
    let mut out: Vec<Node> = Vec::new();
    let ghost mut perm: Seq<int> = Seq::empty();
    proof {
        broadcast use vstd::multiset::group_multiset_axioms;

        vstd::seq_lib::to_multiset_len(out@);
        assert(out@.to_multiset().add(rest@.to_multiset()) =~= orig.to_multiset());
    }
    while rest.len() > 0
        invariant
            centre.wf(),
            reference.wf(),
            out@.len() + rest@.len() == orig.len(),
            out@.to_multiset().add(rest@.to_multiset()) =~= orig.to_multiset(),
            forall|k: int| 0 <= k < rest@.len() ==> (#[trigger] rest@[k]) == orig[out@.len() + k],
            forall|k: int| 0 <= k < orig.len() ==> (#[trigger] orig[k])@.wf(),
            forall|k: int| 0 <= k < out@.len() ==> (#[trigger] out@[k])@.wf(),
            sorted_by_angle_nodes(out@, centre@, reference@),
            perm.len() == out@.len(),
            forall|i: int| 0 <= i < perm.len() ==> 0 <= #[trigger] perm[i] < out@.len(),
            forall|i: int, j: int| 0 <= i < j < perm.len() ==> perm[i] != perm[j],
            forall|i: int| 0 <= i < out@.len() ==> (#[trigger] out@[i]) == orig[perm[i]],
            forall|i: int, j: int|
                0 <= i < j < out@.len() && angle_le_nodes(
                    (#[trigger] out@[i])@.id_val(),
                    (#[trigger] out@[j])@.id_val(),
                    centre@,
                    reference@,
                ) && angle_le_nodes(out@[j]@.id_val(), out@[i]@.id_val(), centre@, reference@)
                    ==> perm[i] < perm[j],
        decreases rest@.len(),
    {
        let ghost kk = out@.len() as int;
        let ghost rest_before = rest@;
        proof {
            vstd::seq_lib::to_multiset_remove(rest@, 0);
            vstd::seq_lib::to_multiset_contains(rest@, rest@[0]);
        }
        let x = rest.remove(0);
        proof {
            assert(x == orig[kk]);
        }
        let ghost pre = out@;
        let j = insert_by_angle(&mut out, x, centre, reference);
        proof {
            broadcast use vstd::multiset::group_multiset_axioms;

            vstd::seq_lib::to_multiset_insert(pre, j as int, x);
            assert(rest_before.contains(rest_before[0]));
            assert(rest_before.to_multiset().count(x) >= 1);
            assert(out@.to_multiset().add(rest@.to_multiset()) =~= orig.to_multiset());
            perm = perm.insert(j as int, kk);
            pre.insert_ensures(j as int, x);
            // The permutation stays a stable witness: the fresh original
            // index is larger than every earlier one, and anything displaced
            // past the new node is strictly later in the angular order.
            assert forall|i: int, j2: int|
                0 <= i < j2 < out@.len() && angle_le_nodes(
                    (#[trigger] out@[i])@.id_val(),
                    (#[trigger] out@[j2])@.id_val(),
                    centre@,
                    reference@,
                ) && angle_le_nodes(out@[j2]@.id_val(), out@[i]@.id_val(), centre@, reference@)
                    implies perm[i] < perm[j2] by {
                if i == j {
                    assert(out@[j2] == pre[j2 - 1]);
                    assert(!angle_le_nodes(
                        pre[j2 - 1]@.id_val(),
                        x@.id_val(),
                        centre@,
                        reference@,
                    ));
                } else if j2 == j {
                    assert(out@[i] == pre[i]);
                    assert(perm[i] < kk);
                } else if i < j && j2 < j {
                    assert(out@[i] == pre[i] && out@[j2] == pre[j2]);
                } else if i > j && j2 > j {
                    assert(out@[i] == pre[i - 1] && out@[j2] == pre[j2 - 1]);
                } else {
                    assert(out@[i] == pre[i] && out@[j2] == pre[j2 - 1]);
                }
            };
        }
    }
    proof {
        vstd::seq_lib::to_multiset_len(rest@);
        vstd::seq_lib::to_multiset_len(out@);
        vstd::seq_lib::to_multiset_len(orig);
        broadcast use vstd::multiset::group_multiset_axioms;

        assert(rest@.to_multiset() =~= Multiset::<Node>::empty());
        assert(out@.to_multiset() =~= orig.to_multiset());
        assert(stable_angle_permutation(orig, out@, perm, centre@, reference@));
        assert forall|i: int| 0 <= i < views_of_nodes(out@).len() - 1 implies angle_le_nodes(
            (#[trigger] views_of_nodes(out@)[i]).id_val(),
            views_of_nodes(out@)[i + 1].id_val(),
            centre@,
            reference@,
        ) by {
            assert(views_of_nodes(out@)[i] == out@[i]@);
            assert(views_of_nodes(out@)[i + 1] == out@[i + 1]@);
        };
    }
    out
}

} // verus!

verus! {

/// Ascending distance to `pivot` over a node sequence, pair by pair.
pub open spec fn sorted_nodes_by_distance_to(s: Seq<Node>, pivot: Seq<i64>) -> bool {
    forall|p: int, q: int|
        0 <= p < q < s.len() ==> dist_to((#[trigger] s[p])@.id_val(), pivot) <= dist_to(
            (#[trigger] s[q])@.id_val(),
            pivot,
        )
}

/// The two sortedness statements agree: over the nodes or over their views.
pub proof fn lemma_sorted_views_iff_nodes(s: Seq<Node>, pivot: Seq<i64>)
    ensures
        sorted_by_distance_to(views_of_nodes(s), pivot) <==> sorted_nodes_by_distance_to(s, pivot),
{
    if sorted_by_distance_to(views_of_nodes(s), pivot) {
        assert forall|p: int, q: int| 0 <= p < q < s.len() implies dist_to(
            (#[trigger] s[p])@.id_val(),
            pivot,
        ) <= dist_to((#[trigger] s[q])@.id_val(), pivot) by {
            assert(views_of_nodes(s)[p] == s[p]@);
            assert(views_of_nodes(s)[q] == s[q]@);
        };
    }
    if sorted_nodes_by_distance_to(s, pivot) {
        assert forall|p: int, q: int| 0 <= p < q < views_of_nodes(s).len() implies dist_to(
            (#[trigger] views_of_nodes(s)[p]).id_val(),
            pivot,
        ) <= dist_to((#[trigger] views_of_nodes(s)[q]).id_val(), pivot) by {
            assert(views_of_nodes(s)[p] == s[p]@);
            assert(views_of_nodes(s)[q] == s[q]@);
        };
    }
}

} // verus!
