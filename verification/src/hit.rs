//! The hit-tester: maps a world-space point back to a node id through the
//! current layout map, first match in depth-first pre-order winning.

use vstd::prelude::*;
use std::collections::HashMap;
use crate::layout::Pos;
use crate::model::{
    forest_ids, forest_view, id_in_forest, node_ids, node_view, SceneObject, SpecNode,
};

verus! {

broadcast use vstd::std_specs::hash::group_hash_axioms;

/// A click lands on a node when it falls strictly within this distance of
/// the node's anchor.
pub const HIT_RADIUS: i64 = 20;

/// Squared Euclidean distance between two anchors.
pub open spec fn dist2(a: Pos, b: Pos) -> int {
    (a.x - b.x) * (a.x - b.x) + (a.y - b.y) * (a.y - b.y)
}

/// Whether a world-space point `w` lands on an anchor `p`.
pub open spec fn hit_at(w: Pos, p: Pos) -> bool {
    dist2(w, p) < HIT_RADIUS as int * HIT_RADIUS as int
}

/// The hit result for one tree: the node itself wins over its children; a
/// node without a laid-out anchor cannot be hit.
pub open spec fn node_hit(n: SpecNode, w: Pos, m: Map<u32, Pos>) -> Option<u32>
    decreases n,
{
    if m.contains_key(n.id) && hit_at(w, m[n.id]) {
        Some(n.id)
    } else {
        forest_hit(n.children, w, m)
    }
}

/// The hit result for a forest: first match in pre-order.
pub open spec fn forest_hit(s: Seq<SpecNode>, w: Pos, m: Map<u32, Pos>) -> Option<u32>
    decreases s,
{
    if s.len() == 0 {
        None
    } else if node_hit(s[0], w, m) is Some {
        node_hit(s[0], w, m)
    } else {
        forest_hit(s.drop_first(), w, m)
    }
}

/// Whatever the hit-tester returns names a node of the tree whose laid-out
/// anchor the point actually lands on.
pub proof fn lemma_node_hit_sound(n: SpecNode, w: Pos, m: Map<u32, Pos>)
    ensures
        match node_hit(n, w, m) {
            Some(id) => node_ids(n).contains(id) && m.contains_key(id) && hit_at(w, m[id]),
            None => true,
        },
    decreases n,
{
    crate::model::lemma_node_ids_split(n);
    lemma_forest_hit_sound(n.children, w, m);
}

/// Soundness of the hit result over a forest.
pub proof fn lemma_forest_hit_sound(s: Seq<SpecNode>, w: Pos, m: Map<u32, Pos>)
    ensures
        match forest_hit(s, w, m) {
            Some(id) => id_in_forest(s, id) && m.contains_key(id) && hit_at(w, m[id]),
            None => true,
        },
    decreases s,
{
    if s.len() > 0 {
        lemma_node_hit_sound(s[0], w, m);
        lemma_forest_hit_sound(s.drop_first(), w, m);
        crate::model::lemma_forest_ids_first(s);
    }
}

/// A point placed exactly on the laid-out anchor of any node of the tree is
/// always hit: the search returns some node (the clicked one, or an earlier
/// pre-order node whose anchor coincides).
pub proof fn lemma_node_hit_at_anchor(n: SpecNode, w: Pos, m: Map<u32, Pos>, id: u32)
    requires
        node_ids(n).contains(id),
        m.contains_key(id),
        m[id] == w,
    ensures
        node_hit(n, w, m) is Some,
    decreases n,
{
    crate::model::lemma_node_ids_split(n);
    if m.contains_key(n.id) && hit_at(w, m[n.id]) {
    } else {
        if id == n.id {
            assert(dist2(w, m[id]) == 0);
            assert(false);
        } else {
            lemma_forest_hit_at_anchor(n.children, w, m, id);
        }
    }
}

/// The anchor-hit guarantee over a forest.
pub proof fn lemma_forest_hit_at_anchor(s: Seq<SpecNode>, w: Pos, m: Map<u32, Pos>, id: u32)
    requires
        id_in_forest(s, id),
        m.contains_key(id),
        m[id] == w,
    ensures
        forest_hit(s, w, m) is Some,
    decreases s,
{
    crate::model::lemma_forest_ids_first(s);
    assert(s.len() > 0);
    if node_hit(s[0], w, m) is Some {
    } else {
        if node_ids(s[0]).contains(id) {
            lemma_node_hit_at_anchor(s[0], w, m, id);
            assert(false);
        } else {
            lemma_forest_hit_at_anchor(s.drop_first(), w, m, id);
        }
    }
}

/// Whether the point lands within the hit radius of the anchor, computed
/// without overflow whatever the coordinates.
fn within_radius(w: Pos, p: Pos) -> (r: bool)
    ensures
        r == hit_at(w, p),
{
    let dx: i128 = w.x as i128 - p.x as i128;
    let dy: i128 = w.y as i128 - p.y as i128;
    proof {
        assert(dx >= 20 ==> dx * dx >= 400) by (nonlinear_arith);
        assert(dx <= -20 ==> dx * dx >= 400) by (nonlinear_arith);
        assert(dy >= 20 ==> dy * dy >= 400) by (nonlinear_arith);
        assert(dy <= -20 ==> dy * dy >= 400) by (nonlinear_arith);
        assert(dx * dx >= 0) by (nonlinear_arith);
        assert(dy * dy >= 0) by (nonlinear_arith);
        assert(-20 < dx < 20 ==> dx * dx < 400) by (nonlinear_arith);
        assert(-20 < dy < 20 ==> dy * dy < 400) by (nonlinear_arith);
    }
    if -19 <= dx && dx <= 19 && -19 <= dy && dy <= 19 {
        dx * dx + dy * dy < 400
    } else {
        false
    }
}

/// Hit-tests one tree against the layout map: the node itself first, then
/// its children in order.
pub fn find_clicked_object(o: &SceneObject, w: Pos, m: &HashMap<u32, Pos>) -> (r: Option<u32>)
    ensures
        r == node_hit(node_view(*o), w, m@),
    decreases node_ids(node_view(*o)).len(),
{
    let ghost nv = node_view(*o);
    proof {
        crate::model::lemma_forest_view_index(o.children@);
        assert(node_ids(nv) == seq![nv.id] + forest_ids(nv.children));
    }
    if let Some(p) = m.get(&o.id) {
        if within_radius(w, *p) {
            return Some(o.id);
        }
    }
    let n = o.children.len();
    let mut i: usize = 0;
    while i < n
        invariant
            nv == node_view(*o),
            n == o.children@.len(),
            n == nv.children.len(),
            forall|j: int| 0 <= j < n ==> nv.children[j] == node_view(o.children@[j]),
            node_ids(nv).len() == 1 + forest_ids(nv.children).len(),
            i <= n,
            forall|j: int| 0 <= j < i ==> node_hit(#[trigger] nv.children[j], w, m@) is None,
            !(m@.contains_key(nv.id) && hit_at(w, m@[nv.id])),
        decreases n - i,
    {
        proof {
            crate::model::lemma_subtree_ids_len(nv.children, i as int);
        }
        let r = find_clicked_object(&o.children[i], w, m);
        if r.is_some() {
            proof {
                lemma_forest_hit_skip(nv.children, w, m@, i as int);
                assert(nv.children.skip(i as int)[0] == nv.children[i as int]);
            }
            return r;
        }
        i += 1;
    }
    proof {
        lemma_forest_hit_skip(nv.children, w, m@, n as int);
        assert(nv.children.skip(n as int).len() == 0);
    }
    None
}

/// Skipping trees in which the hit-test fails does not change its result.
pub proof fn lemma_forest_hit_skip(s: Seq<SpecNode>, w: Pos, m: Map<u32, Pos>, k: int)
    requires
        0 <= k <= s.len(),
        forall|j: int| 0 <= j < k ==> node_hit(#[trigger] s[j], w, m) is None,
    ensures
        forest_hit(s, w, m) == forest_hit(s.skip(k), w, m),
    decreases k,
{
    if k > 0 {
        assert(node_hit(s[0], w, m) is None);
        assert(forall|j: int| 0 <= j < s.drop_first().len() ==> s.drop_first()[j] == s[j + 1]);
        lemma_forest_hit_skip(s.drop_first(), w, m, k - 1);
        assert(s.drop_first().skip(k - 1) =~= s.skip(k));
    } else {
        assert(s.skip(0) =~= s);
    }
}

/// Hit-tests the whole forest, first match in pre-order.
pub fn hit_test_forest(v: &Vec<SceneObject>, w: Pos, m: &HashMap<u32, Pos>) -> (r: Option<u32>)
    ensures
        r == forest_hit(forest_view(v@), w, m@),
{
    let ghost s = forest_view(v@);
    proof {
        crate::model::lemma_forest_view_index(v@);
    }
    let n = v.len();
    let mut i: usize = 0;
    while i < n
        invariant
            s == forest_view(v@),
            n == v@.len(),
            n == s.len(),
            forall|j: int| 0 <= j < n ==> s[j] == node_view(v@[j]),
            i <= n,
            forall|j: int| 0 <= j < i ==> node_hit(#[trigger] s[j], w, m@) is None,
        decreases n - i,
    {
        let r = find_clicked_object(&v[i], w, m);
        if r.is_some() {
            proof {
                lemma_forest_hit_skip(s, w, m@, i as int);
                assert(s.skip(i as int)[0] == s[i as int]);
            }
            return r;
        }
        i += 1;
    }
    proof {
        lemma_forest_hit_skip(s, w, m@, n as int);
        assert(s.skip(n as int).len() == 0);
    }
    None
}

} // verus!
