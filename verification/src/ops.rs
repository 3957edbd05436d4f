//! Structural operations on the forest: lookup by id, deletion, child
//! insertion, and attribute edits, each mirrored by a spec function.

use vstd::prelude::*;
use crate::model::{
    forest_ids, forest_view, id_in_forest, node_ids, node_view, Color, SceneObject, ShapeKind,
    SpecNode,
};

verus! {

/// The node carrying `id` in this tree, searching the node itself before its
/// children (depth-first pre-order); `None` if the id does not occur.
pub open spec fn node_lookup(n: SpecNode, id: u32) -> Option<SpecNode>
    decreases n,
{
    if n.id == id {
        Some(n)
    } else {
        forest_lookup(n.children, id)
    }
}

/// The first node carrying `id` in pre-order over the forest.
pub open spec fn forest_lookup(s: Seq<SpecNode>, id: u32) -> Option<SpecNode>
    decreases s,
{
    if s.len() == 0 {
        None
    } else if node_lookup(s[0], id) is Some {
        node_lookup(s[0], id)
    } else {
        forest_lookup(s.drop_first(), id)
    }
}

/// The same tree with its child forest replaced.
pub open spec fn with_children(n: SpecNode, cs: Seq<SpecNode>) -> SpecNode {
    SpecNode {
        id: n.id,
        text: n.text,
        text_buffer: n.text_buffer,
        shape: n.shape,
        color: n.color,
        rotation_speed: n.rotation_speed,
        current_rotation: n.current_rotation,
        children: cs,
    }
}

/// The same tree with one more child appended last.
pub open spec fn with_extra_child(n: SpecNode, c: SpecNode) -> SpecNode {
    with_children(n, n.children.push(c))
}

/// Whether some root of the forest itself carries `id`.
pub open spec fn top_contains(s: Seq<SpecNode>, id: u32) -> bool {
    exists|i: int| 0 <= i < s.len() && s[i].id == id
}

/// Removes the first root carrying `id`, together with its whole subtree.
pub open spec fn top_delete(s: Seq<SpecNode>, id: u32) -> Seq<SpecNode>
    decreases s, 0int,
{
    if s.len() == 0 {
        s
    } else if s[0].id == id {
        s.drop_first()
    } else {
        seq![s[0]] + top_delete(s.drop_first(), id)
    }
}

/// Deletion below the roots: the first root whose subtree holds `id` has the
/// deletion applied inside its child forest.
pub open spec fn deep_delete(s: Seq<SpecNode>, id: u32) -> Seq<SpecNode>
    decreases s, 0int,
{
    if s.len() == 0 {
        s
    } else if id_in_forest(s[0].children, id) {
        seq![with_children(s[0], forest_delete(s[0].children, id))] + s.drop_first()
    } else {
        seq![s[0]] + deep_delete(s.drop_first(), id)
    }
}

/// Deletion as the editor performs it: all roots are scanned first; only when
/// none matches is the deletion pushed into the subtrees, in order.
pub open spec fn forest_delete(s: Seq<SpecNode>, id: u32) -> Seq<SpecNode>
    decreases s, 1int,
{
    if top_contains(s, id) {
        top_delete(s, id)
    } else {
        deep_delete(s, id)
    }
}

/// An id occurs in a forest exactly when some root carries it or some root's
/// subtree holds it.
pub proof fn lemma_id_in_forest_char(s: Seq<SpecNode>, id: u32)
    ensures
        id_in_forest(s, id) <==> (top_contains(s, id) || exists|i: int|
            0 <= i < s.len() && id_in_forest(#[trigger] s[i].children, id)),
    decreases s,
{
    if s.len() == 0 {
    } else {
        let rest = s.drop_first();
        crate::model::lemma_forest_ids_first(s);
        crate::model::lemma_node_ids_split(s[0]);
        lemma_id_in_forest_char(rest, id);
        assert forall|i: int| 0 <= i < rest.len() implies rest[i] == s[i + 1] by {}
        if id_in_forest(s, id) {
            if node_ids(s[0]).contains(id) {
                if s[0].id == id {
                    assert(top_contains(s, id));
                } else {
                    assert(id_in_forest(s[0].children, id));
                }
            } else {
                assert(forest_ids(rest).contains(id));
                if top_contains(rest, id) {
                    let i = choose|i: int| 0 <= i < rest.len() && rest[i].id == id;
                    assert(s[i + 1].id == id);
                } else {
                    let i = choose|i: int|
                        0 <= i < rest.len() && id_in_forest(#[trigger] rest[i].children, id);
                    assert(id_in_forest(s[i + 1].children, id));
                }
            }
        }
        if top_contains(s, id) {
            let i = choose|i: int| 0 <= i < s.len() && s[i].id == id;
            if i == 0 {
                assert(node_ids(s[0]).contains(id));
            } else {
                assert(rest[i - 1].id == id);
                assert(top_contains(rest, id));
                assert(id_in_forest(rest, id));
            }
            assert(id_in_forest(s, id));
        }
        if exists|i: int| 0 <= i < s.len() && id_in_forest(#[trigger] s[i].children, id) {
            let i = choose|i: int| 0 <= i < s.len() && id_in_forest(#[trigger] s[i].children, id);
            if i == 0 {
                assert(node_ids(s[0]).contains(id));
            } else {
                assert(id_in_forest(rest[i - 1].children, id));
                assert(id_in_forest(rest, id));
            }
            assert(id_in_forest(s, id));
        }
    }
}

/// Every id of a root's subtree is an id of the forest.
pub proof fn lemma_forest_ids_subtree(s: Seq<SpecNode>, i: int)
    requires
        0 <= i < s.len(),
    ensures
        forall|id: u32| #[trigger] node_ids(s[i]).contains(id) ==> forest_ids(s).contains(id),
    decreases s,
{
    crate::model::lemma_forest_ids_first(s);
    if i > 0 {
        lemma_forest_ids_subtree(s.drop_first(), i - 1);
        assert(s.drop_first()[i - 1] == s[i]);
    }
}

/// When the first matching root stands at `i`, top-level deletion removes
/// exactly the entry at `i`.
pub proof fn lemma_top_delete_at(s: Seq<SpecNode>, id: u32, i: int)
    requires
        0 <= i < s.len(),
        s[i].id == id,
        forall|j: int| 0 <= j < i ==> s[j].id != id,
    ensures
        top_delete(s, id) == s.remove(i),
    decreases s,
{
    if i == 0 {
        assert(top_delete(s, id) =~= s.remove(0));
    } else {
        lemma_top_delete_at(s.drop_first(), id, i - 1);
        assert(s.drop_first()[i - 1].id == id);
        assert(seq![s[0]] + s.drop_first().remove(i - 1) =~= s.remove(i));
    }
}

/// When no root matches and the first subtree holding the id stands at `i`,
/// deletion rewrites exactly the entry at `i`.
pub proof fn lemma_deep_delete_at(s: Seq<SpecNode>, id: u32, i: int)
    requires
        0 <= i < s.len(),
        id_in_forest(s[i].children, id),
        forall|j: int| 0 <= j < i ==> !id_in_forest(#[trigger] s[j].children, id),
    ensures
        deep_delete(s, id) == s.update(i, with_children(s[i], forest_delete(s[i].children, id))),
    decreases s,
{
    if i == 0 {
        assert(deep_delete(s, id) =~= s.update(
            0,
            with_children(s[0], forest_delete(s[0].children, id)),
        ));
    } else {
        lemma_deep_delete_at(s.drop_first(), id, i - 1);
        assert(forall|j: int| 0 <= j < s.drop_first().len() ==> s.drop_first()[j] == s[j + 1]);
        assert(seq![s[0]] + s.drop_first().update(
            i - 1,
            with_children(s[i], forest_delete(s[i].children, id)),
        ) =~= s.update(i, with_children(s[i], forest_delete(s[i].children, id))));
    }
}

/// When neither a root nor any subtree holds the id, deletion is a no-op.
pub proof fn lemma_deep_delete_none(s: Seq<SpecNode>, id: u32)
    requires
        forall|j: int| 0 <= j < s.len() ==> !id_in_forest(#[trigger] s[j].children, id),
    ensures
        deep_delete(s, id) == s,
    decreases s,
{
    if s.len() > 0 {
        assert(forall|j: int| 0 <= j < s.drop_first().len() ==> s.drop_first()[j] == s[j + 1]);
        lemma_deep_delete_none(s.drop_first(), id);
        assert(seq![s[0]] + s.drop_first() =~= s);
    }
}

/// A subtree's child forest carries strictly fewer ids than the whole
/// forest; this is the termination measure of the recursive walks.
pub proof fn lemma_subtree_ids_smaller(s: Seq<SpecNode>, k: int)
    requires
        0 <= k < s.len(),
    ensures
        forest_ids(s[k].children).len() < forest_ids(s).len(),
    decreases s,
{
    crate::model::lemma_forest_ids_first(s);
    if k == 0 {
    } else {
        lemma_subtree_ids_smaller(s.drop_first(), k - 1);
        assert(s.drop_first()[k - 1] == s[k]);
    }
}

/// Deleting an id that does not occur leaves the forest as it is.
pub proof fn lemma_delete_absent(s: Seq<SpecNode>, id: u32)
    requires
        !id_in_forest(s, id),
    ensures
        forest_delete(s, id) == s,
{
    lemma_id_in_forest_char(s, id);
    lemma_deep_delete_none(s, id);
}

/// Removes the first match for `id` — every root is scanned before any
/// subtree is entered — dropping its whole subtree with it. Returns whether
/// a node was removed, which is the case exactly when the id occurs.
pub fn find_and_delete_node(v: &mut Vec<SceneObject>, id: u32) -> (found: bool)
    ensures
        forest_view(final(v)@) == forest_delete(forest_view(old(v)@), id),
        found == id_in_forest(forest_view(old(v)@), id),
    decreases forest_ids(forest_view(old(v)@)).len(),
{
    let ghost s0 = forest_view(old(v)@);
    proof {
        crate::model::lemma_forest_view_index(old(v)@);
    }
    let n = v.len();
    let mut i: usize = 0;
    while i < n
        invariant
            v@ == old(v)@,
            n == v@.len(),
            i <= n,
            s0 == forest_view(v@),
            s0.len() == n,
            forall|j: int| 0 <= j < v@.len() ==> s0[j] == node_view(v@[j]),
            forall|j: int| 0 <= j < i ==> s0[j].id != id,
        decreases n - i,
    {
        if v[i].id == id {
            proof {
                assert(s0[i as int].id == id);
                lemma_top_delete_at(s0, id, i as int);
                lemma_forest_ids_subtree(s0, i as int);
                crate::model::lemma_node_ids_split(s0[i as int]);
                assert(node_ids(s0[i as int]).contains(id));
            }
            let _removed = v.remove(i);
            proof {
                crate::model::lemma_forest_view_index(v@);
                assert(forest_view(v@) =~= s0.remove(i as int));
                assert(top_contains(s0, id));
            }
            return true;
        }
        i += 1;
    }
    proof {
        assert(!top_contains(s0, id)) by {
            if top_contains(s0, id) {
                let j = choose|j: int| 0 <= j < s0.len() && s0[j].id == id;
                assert(s0[j].id != id);
            }
        }
    }
    let mut k: usize = 0;
    while k < n
        invariant
            n == v@.len(),
            s0.len() == n,
            s0 == forest_view(old(v)@),
            k <= n,
            forall|j: int| 0 <= j < v@.len() ==> node_view(v@[j]) == s0[j],
            forall|j: int| k <= j < v@.len() ==> v@[j] == old(v)@[j],
            forall|j: int| 0 <= j < k ==> !id_in_forest(#[trigger] s0[j].children, id),
            forall|j: int| 0 <= j < s0.len() ==> s0[j].id != id,
            !top_contains(s0, id),
        decreases n - k,
    {
        let mut o = v.remove(k);
        let ghost cv = forest_view(o.children@);
        proof {
            assert(cv == s0[k as int].children);
            lemma_subtree_ids_smaller(s0, k as int);
        }
        let f = find_and_delete_node(&mut o.children, id);
        v.insert(k, o);
        proof {
            assert(node_view(v@[k as int]) =~= with_children(
                s0[k as int],
                forest_delete(cv, id),
            ));
        }
        if f {
            proof {
                lemma_deep_delete_at(s0, id, k as int);
                crate::model::lemma_forest_view_index(v@);
                assert(forest_view(v@) =~= s0.update(
                    k as int,
                    with_children(s0[k as int], forest_delete(s0[k as int].children, id)),
                ));
                lemma_forest_ids_subtree(s0, k as int);
                crate::model::lemma_node_ids_split(s0[k as int]);
                assert(node_ids(s0[k as int]).contains(id));
                assert(id_in_forest(s0, id));
            }
            return true;
        }
        proof {
            lemma_delete_absent(cv, id);
            assert(node_view(v@[k as int]) =~= s0[k as int]);
        }
        k += 1;
    }
    proof {
        lemma_id_in_forest_char(s0, id);
        lemma_deep_delete_none(s0, id);
        crate::model::lemma_forest_view_index(v@);
        assert(forest_view(v@) =~= s0);
    }
    false
}

/// Appends `c` as the last child of the first pre-order node carrying `pid`;
/// the flag says whether such a parent was found.
pub open spec fn node_add_child(n: SpecNode, pid: u32, c: SpecNode) -> (SpecNode, bool)
    decreases n,
{
    if n.id == pid {
        (with_extra_child(n, c), true)
    } else {
        let (cs, f) = forest_add_child(n.children, pid, c);
        (with_children(n, cs), f)
    }
}

/// Child insertion over a forest, pre-order.
pub open spec fn forest_add_child(s: Seq<SpecNode>, pid: u32, c: SpecNode) -> (Seq<SpecNode>, bool)
    decreases s,
{
    if s.len() == 0 {
        (s, false)
    } else {
        let (n0, f0) = node_add_child(s[0], pid, c);
        if f0 {
            (seq![n0] + s.drop_first(), true)
        } else {
            let (rest, f) = forest_add_child(s.drop_first(), pid, c);
            (seq![s[0]] + rest, f)
        }
    }
}

/// Skipping trees in which the lookup fails does not change its result.
pub proof fn lemma_forest_lookup_skip(s: Seq<SpecNode>, id: u32, k: int)
    requires
        0 <= k <= s.len(),
        forall|j: int| 0 <= j < k ==> node_lookup(#[trigger] s[j], id) is None,
    ensures
        forest_lookup(s, id) == forest_lookup(s.skip(k), id),
    decreases k,
{
    if k > 0 {
        assert(node_lookup(s[0], id) is None);
        assert(forall|j: int| 0 <= j < s.drop_first().len() ==> s.drop_first()[j] == s[j + 1]);
        lemma_forest_lookup_skip(s.drop_first(), id, k - 1);
        assert(s.drop_first().skip(k - 1) =~= s.skip(k));
    } else {
        assert(s.skip(0) =~= s);
    }
}

/// Recursive lookup by id, the node before its children, returning a shared
/// borrow of the first pre-order match.
pub fn find_object_by_id(v: &Vec<SceneObject>, id: u32) -> (r: Option<&SceneObject>)
    ensures
        match r {
            Some(o) => forest_lookup(forest_view(v@), id) == Some(node_view(*o)),
            None => forest_lookup(forest_view(v@), id) is None,
        },
    decreases forest_ids(forest_view(v@)).len(),
{
    let ghost s = forest_view(v@);
    proof {
        crate::model::lemma_forest_view_index(v@);
    }
    let n = v.len();
    let mut i: usize = 0;
    while i < n
        invariant
            n == v@.len(),
            s == forest_view(v@),
            s.len() == n,
            i <= n,
            forall|j: int| 0 <= j < v@.len() ==> s[j] == node_view(v@[j]),
            forall|j: int| 0 <= j < i ==> node_lookup(#[trigger] s[j], id) is None,
        decreases n - i,
    {
        let o = &v[i];
        if o.id == id {
            proof {
                lemma_forest_lookup_skip(s, id, i as int);
                assert(s.skip(i as int)[0] == s[i as int]);
                assert(node_lookup(s[i as int], id) == Some(s[i as int]));
            }
            return Some(o);
        }
        proof {
            lemma_subtree_ids_smaller(s, i as int);
        }
        let r = find_object_by_id(&o.children, id);
        if r.is_some() {
            proof {
                lemma_forest_lookup_skip(s, id, i as int);
                assert(s.skip(i as int)[0] == s[i as int]);
            }
            return r;
        }
        proof {
            assert(node_lookup(s[i as int], id) is None);
        }
        i += 1;
    }
    proof {
        lemma_forest_lookup_skip(s, id, n as int);
        assert(s.skip(n as int).len() == 0);
    }
    None
}

/// Counts the nodes of one tree, saturating at `u64::MAX`.
pub fn count_subtree(o: &SceneObject) -> (c: u64)
    ensures
        c as int == node_ids(node_view(*o)).len() || (c == u64::MAX && node_ids(
            node_view(*o),
        ).len() >= u64::MAX),
    decreases node_ids(node_view(*o)).len(),
{
    let ghost nv = node_view(*o);
    proof {
        crate::model::lemma_forest_view_index(o.children@);
        assert(node_ids(nv) == seq![nv.id] + forest_ids(nv.children));
    }
    let n = o.children.len();
    let mut c: u64 = 0;
    let mut i: usize = 0;
    while i < n
        invariant
            nv == node_view(*o),
            n == o.children@.len(),
            n == nv.children.len(),
            node_ids(nv).len() == 1 + forest_ids(nv.children).len(),
            forall|j: int| 0 <= j < n ==> nv.children[j] == node_view(o.children@[j]),
            i <= n,
            c as int == forest_ids(nv.children.take(i as int)).len() || (c == u64::MAX
                && forest_ids(nv.children.take(i as int)).len() >= u64::MAX),
        decreases n - i,
    {
        proof {
            crate::layout::lemma_prefix_ids_len(nv.children, i as int);
            crate::model::lemma_subtree_ids_len(nv.children, i as int);
        }
        let sub = count_subtree(&o.children[i]);
        c = if sub > u64::MAX - c {
            u64::MAX
        } else {
            c + sub
        };
        i += 1;
    }
    proof {
        assert(nv.children.take(n as int) =~= nv.children);
    }
    if c == u64::MAX {
        u64::MAX
    } else {
        c + 1
    }
}

/// Counts the nodes of the whole forest, saturating at `u64::MAX`; useful
/// to check the layout engine's size bound before asking for a layout.
pub fn count_nodes(v: &Vec<SceneObject>) -> (c: u64)
    ensures
        c as int == forest_ids(forest_view(v@)).len() || (c == u64::MAX && forest_ids(
            forest_view(v@),
        ).len() >= u64::MAX),
{
    let ghost s = forest_view(v@);
    proof {
        crate::model::lemma_forest_view_index(v@);
    }
    let n = v.len();
    let mut c: u64 = 0;
    let mut i: usize = 0;
    while i < n
        invariant
            s == forest_view(v@),
            n == v@.len(),
            n == s.len(),
            forall|j: int| 0 <= j < n ==> s[j] == node_view(v@[j]),
            i <= n,
            c as int == forest_ids(s.take(i as int)).len() || (c == u64::MAX && forest_ids(
                s.take(i as int),
            ).len() >= u64::MAX),
        decreases n - i,
    {
        proof {
            crate::layout::lemma_prefix_ids_len(s, i as int);
            crate::model::lemma_subtree_ids_len(s, i as int);
        }
        let sub = count_subtree(&v[i]);
        c = if sub > u64::MAX - c {
            u64::MAX
        } else {
            c + sub
        };
        i += 1;
    }
    proof {
        assert(s.take(n as int) =~= s);
    }
    c
}

/// The node freshly created for every `AddChild` edit.
pub open spec fn default_child_view(id: u32) -> SpecNode {
    SpecNode {
        id,
        text: "New Node"@,
        text_buffer: "New Node"@,
        shape: ShapeKind::Square,
        color: Color { r: 255, g: 255, b: 255, a: 255 },
        rotation_speed: 20,
        current_rotation: 0,
        children: Seq::empty(),
    }
}

/// A tree in which insertion fails is returned as it was.
pub proof fn lemma_node_add_unchanged(n: SpecNode, pid: u32, c: SpecNode)
    requires
        !node_add_child(n, pid, c).1,
    ensures
        node_add_child(n, pid, c).0 == n,
    decreases n,
{
    lemma_forest_add_unchanged(n.children, pid, c);
    assert(with_children(n, n.children) =~= n);
}

/// A forest in which insertion fails is returned as it was.
pub proof fn lemma_forest_add_unchanged(s: Seq<SpecNode>, pid: u32, c: SpecNode)
    requires
        !forest_add_child(s, pid, c).1,
    ensures
        forest_add_child(s, pid, c).0 == s,
    decreases s,
{
    if s.len() > 0 {
        lemma_node_add_unchanged(s[0], pid, c);
        lemma_forest_add_unchanged(s.drop_first(), pid, c);
        assert(seq![s[0]] + s.drop_first() =~= s);
    }
}

/// When the first tree taking the insertion stands at `i`, the forest result
/// rewrites exactly the entry at `i`.
pub proof fn lemma_forest_add_at(s: Seq<SpecNode>, pid: u32, c: SpecNode, i: int)
    requires
        0 <= i < s.len(),
        node_add_child(s[i], pid, c).1,
        forall|j: int| 0 <= j < i ==> !(node_add_child(#[trigger] s[j], pid, c).1),
    ensures
        forest_add_child(s, pid, c) == (s.update(i, node_add_child(s[i], pid, c).0), true),
    decreases s,
{
    if i == 0 {
        assert(forest_add_child(s, pid, c).0 =~= s.update(0, node_add_child(s[0], pid, c).0));
    } else {
        assert(forall|j: int| 0 <= j < s.drop_first().len() ==> s.drop_first()[j] == s[j + 1]);
        lemma_forest_add_at(s.drop_first(), pid, c, i - 1);
        assert(seq![s[0]] + s.drop_first().update(i - 1, node_add_child(s[i], pid, c).0) =~= s
            .update(i, node_add_child(s[i], pid, c).0));
    }
}

/// When no tree takes the insertion, the forest is returned as it was.
pub proof fn lemma_forest_add_none(s: Seq<SpecNode>, pid: u32, c: SpecNode)
    requires
        forall|j: int| 0 <= j < s.len() ==> !(node_add_child(#[trigger] s[j], pid, c).1),
    ensures
        forest_add_child(s, pid, c) == (s, false),
    decreases s,
{
    if s.len() > 0 {
        assert(forall|j: int| 0 <= j < s.drop_first().len() ==> s.drop_first()[j] == s[j + 1]);
        lemma_forest_add_none(s.drop_first(), pid, c);
        assert(seq![s[0]] + s.drop_first() =~= s);
    }
}

/// Appends a freshly created default node — shape square, color white, name
/// "New Node" — as the last child of the first pre-order node carrying
/// `parent_id`. A vanished parent makes the call a no-op.
pub fn add_child_node(v: &mut Vec<SceneObject>, parent_id: u32, child_id: u32) -> (found: bool)
    ensures
        ({
            let (r, f) = forest_add_child(
                forest_view(old(v)@),
                parent_id,
                default_child_view(child_id),
            );
            forest_view(final(v)@) == r && found == f
        }),
    decreases forest_ids(forest_view(old(v)@)).len(),
{
    let ghost s0 = forest_view(old(v)@);
    let ghost c = default_child_view(child_id);
    proof {
        crate::model::lemma_forest_view_index(old(v)@);
    }
    let n = v.len();
    let mut k: usize = 0;
    while k < n
        invariant
            n == v@.len(),
            s0.len() == n,
            s0 == forest_view(old(v)@),
            c == default_child_view(child_id),
            k <= n,
            forall|j: int| 0 <= j < v@.len() ==> node_view(v@[j]) == s0[j],
            forall|j: int| k <= j < v@.len() ==> v@[j] == old(v)@[j],
            forall|j: int| 0 <= j < k ==> !(node_add_child(#[trigger] s0[j], parent_id, c).1),
        decreases n - k,
    {
        let mut o = v.remove(k);
        let ghost cv = forest_view(o.children@);
        proof {
            assert(cv == s0[k as int].children);
        }
        if o.id == parent_id {
            let child = SceneObject::new(
                child_id,
                "New Node",
                ShapeKind::Square,
                Color::rgb(255, 255, 255),
            );
            proof {
                assert(node_view(child) =~= c);
                crate::model::lemma_forest_view_index(o.children@);
            }
            o.children.push(child);
            v.insert(k, o);
            proof {
                crate::model::lemma_forest_view_index(v@[k as int].children@);
                assert(forest_view(v@[k as int].children@) =~= s0[k as int].children.push(c));
                assert(node_view(v@[k as int]) =~= with_extra_child(s0[k as int], c));
                assert(node_add_child(s0[k as int], parent_id, c) == (with_extra_child(
                    s0[k as int],
                    c,
                ), true));
                lemma_forest_add_at(s0, parent_id, c, k as int);
                crate::model::lemma_forest_view_index(v@);
                assert(forest_view(v@) =~= s0.update(
                    k as int,
                    node_add_child(s0[k as int], parent_id, c).0,
                ));
            }
            return true;
        }
        proof {
            lemma_subtree_ids_smaller(s0, k as int);
        }
        let f = add_child_node(&mut o.children, parent_id, child_id);
        v.insert(k, o);
        if f {
            proof {
                assert(node_view(v@[k as int]) =~= with_children(
                    s0[k as int],
                    forest_add_child(cv, parent_id, c).0,
                ));
                assert(node_add_child(s0[k as int], parent_id, c) == (with_children(
                    s0[k as int],
                    forest_add_child(cv, parent_id, c).0,
                ), true));
                lemma_forest_add_at(s0, parent_id, c, k as int);
                crate::model::lemma_forest_view_index(v@);
                assert(forest_view(v@) =~= s0.update(
                    k as int,
                    node_add_child(s0[k as int], parent_id, c).0,
                ));
            }
            return true;
        }
        proof {
            lemma_forest_add_unchanged(cv, parent_id, c);
            assert(node_view(v@[k as int]) =~= s0[k as int]);
            assert(!(node_add_child(s0[k as int], parent_id, c).1));
        }
        k += 1;
    }
    proof {
        lemma_forest_add_none(s0, parent_id, c);
        crate::model::lemma_forest_view_index(v@);
        assert(forest_view(v@) =~= s0);
    }
    false
}

/// The editable attributes of a node: everything the settings panel can
/// change. Identity, accumulated rotation and children are not among them.
pub struct NodeAttrs {
    pub text: String,
    pub text_buffer: String,
    pub shape: ShapeKind,
    pub color: Color,
    pub rotation_speed: i64,
}

/// The mathematical image of [`NodeAttrs`].
pub ghost struct SpecAttrs {
    pub text: Seq<char>,
    pub text_buffer: Seq<char>,
    pub shape: ShapeKind,
    pub color: Color,
    pub rotation_speed: int,
}

/// The view of an attribute record.
pub open spec fn attrs_view(a: NodeAttrs) -> SpecAttrs {
    SpecAttrs {
        text: a.text@,
        text_buffer: a.text_buffer@,
        shape: a.shape,
        color: a.color,
        rotation_speed: a.rotation_speed as int,
    }
}

/// The same tree with its editable attributes replaced.
pub open spec fn with_attrs(n: SpecNode, a: SpecAttrs) -> SpecNode {
    SpecNode {
        id: n.id,
        text: a.text,
        text_buffer: a.text_buffer,
        shape: a.shape,
        color: a.color,
        rotation_speed: a.rotation_speed,
        current_rotation: n.current_rotation,
        children: n.children,
    }
}

/// Replaces the attributes of the first pre-order node carrying `id`.
pub open spec fn node_set_attrs(n: SpecNode, id: u32, a: SpecAttrs) -> (SpecNode, bool)
    decreases n,
{
    if n.id == id {
        (with_attrs(n, a), true)
    } else {
        let (cs, f) = forest_set_attrs(n.children, id, a);
        (with_children(n, cs), f)
    }
}

/// Attribute replacement over a forest, pre-order.
pub open spec fn forest_set_attrs(s: Seq<SpecNode>, id: u32, a: SpecAttrs) -> (Seq<SpecNode>, bool)
    decreases s,
{
    if s.len() == 0 {
        (s, false)
    } else {
        let (n0, f0) = node_set_attrs(s[0], id, a);
        if f0 {
            (seq![n0] + s.drop_first(), true)
        } else {
            let (rest, f) = forest_set_attrs(s.drop_first(), id, a);
            (seq![s[0]] + rest, f)
        }
    }
}

/// A tree in which the attribute edit fails is returned as it was.
pub proof fn lemma_node_set_unchanged(n: SpecNode, id: u32, a: SpecAttrs)
    requires
        !node_set_attrs(n, id, a).1,
    ensures
        node_set_attrs(n, id, a).0 == n,
    decreases n,
{
    lemma_forest_set_unchanged(n.children, id, a);
    assert(with_children(n, n.children) =~= n);
}

/// A forest in which the attribute edit fails is returned as it was.
pub proof fn lemma_forest_set_unchanged(s: Seq<SpecNode>, id: u32, a: SpecAttrs)
    requires
        !forest_set_attrs(s, id, a).1,
    ensures
        forest_set_attrs(s, id, a).0 == s,
    decreases s,
{
    if s.len() > 0 {
        lemma_node_set_unchanged(s[0], id, a);
        lemma_forest_set_unchanged(s.drop_first(), id, a);
        assert(seq![s[0]] + s.drop_first() =~= s);
    }
}

/// When the first tree taking the edit stands at `i`, the forest result
/// rewrites exactly the entry at `i`.
pub proof fn lemma_forest_set_at(s: Seq<SpecNode>, id: u32, a: SpecAttrs, i: int)
    requires
        0 <= i < s.len(),
        node_set_attrs(s[i], id, a).1,
        forall|j: int| 0 <= j < i ==> !(node_set_attrs(#[trigger] s[j], id, a).1),
    ensures
        forest_set_attrs(s, id, a) == (s.update(i, node_set_attrs(s[i], id, a).0), true),
    decreases s,
{
    if i == 0 {
        assert(forest_set_attrs(s, id, a).0 =~= s.update(0, node_set_attrs(s[0], id, a).0));
    } else {
        assert(forall|j: int| 0 <= j < s.drop_first().len() ==> s.drop_first()[j] == s[j + 1]);
        lemma_forest_set_at(s.drop_first(), id, a, i - 1);
        assert(seq![s[0]] + s.drop_first().update(i - 1, node_set_attrs(s[i], id, a).0) =~= s
            .update(i, node_set_attrs(s[i], id, a).0));
    }
}

/// When no tree takes the edit, the forest is returned as it was.
pub proof fn lemma_forest_set_none(s: Seq<SpecNode>, id: u32, a: SpecAttrs)
    requires
        forall|j: int| 0 <= j < s.len() ==> !(node_set_attrs(#[trigger] s[j], id, a).1),
    ensures
        forest_set_attrs(s, id, a) == (s, false),
    decreases s,
{
    if s.len() > 0 {
        assert(forall|j: int| 0 <= j < s.drop_first().len() ==> s.drop_first()[j] == s[j + 1]);
        lemma_forest_set_none(s.drop_first(), id, a);
        assert(seq![s[0]] + s.drop_first() =~= s);
    }
}

/// Writes the given attribute record into the first pre-order node carrying
/// `id`, as the settings panel does when committing edits. A vanished node
/// makes the call a no-op.
pub fn set_node_attrs(v: &mut Vec<SceneObject>, id: u32, attrs: &NodeAttrs) -> (found: bool)
    ensures
        ({
            let (r, f) = forest_set_attrs(forest_view(old(v)@), id, attrs_view(*attrs));
            forest_view(final(v)@) == r && found == f
        }),
    decreases forest_ids(forest_view(old(v)@)).len(),
{
    let ghost s0 = forest_view(old(v)@);
    let ghost a = attrs_view(*attrs);
    proof {
        crate::model::lemma_forest_view_index(old(v)@);
    }
    let n = v.len();
    let mut k: usize = 0;
    while k < n
        invariant
            n == v@.len(),
            s0.len() == n,
            s0 == forest_view(old(v)@),
            a == attrs_view(*attrs),
            k <= n,
            forall|j: int| 0 <= j < v@.len() ==> node_view(v@[j]) == s0[j],
            forall|j: int| k <= j < v@.len() ==> v@[j] == old(v)@[j],
            forall|j: int| 0 <= j < k ==> !(node_set_attrs(#[trigger] s0[j], id, a).1),
        decreases n - k,
    {
        let mut o = v.remove(k);
        let ghost cv = forest_view(o.children@);
        proof {
            assert(cv == s0[k as int].children);
        }
        if o.id == id {
            o.text = attrs.text.clone();
            o.text_buffer = attrs.text_buffer.clone();
            o.shape = attrs.shape;
            o.color = attrs.color;
            o.rotation_speed = attrs.rotation_speed;
            v.insert(k, o);
            proof {
                assert(node_view(v@[k as int]) =~= with_attrs(s0[k as int], a));
                assert(node_set_attrs(s0[k as int], id, a) == (with_attrs(s0[k as int], a), true));
                lemma_forest_set_at(s0, id, a, k as int);
                crate::model::lemma_forest_view_index(v@);
                assert(forest_view(v@) =~= s0.update(
                    k as int,
                    node_set_attrs(s0[k as int], id, a).0,
                ));
            }
            return true;
        }
        proof {
            lemma_subtree_ids_smaller(s0, k as int);
        }
        let f = set_node_attrs(&mut o.children, id, attrs);
        v.insert(k, o);
        if f {
            proof {
                assert(node_view(v@[k as int]) =~= with_children(
                    s0[k as int],
                    forest_set_attrs(cv, id, a).0,
                ));
                assert(node_set_attrs(s0[k as int], id, a) == (with_children(
                    s0[k as int],
                    forest_set_attrs(cv, id, a).0,
                ), true));
                lemma_forest_set_at(s0, id, a, k as int);
                crate::model::lemma_forest_view_index(v@);
                assert(forest_view(v@) =~= s0.update(
                    k as int,
                    node_set_attrs(s0[k as int], id, a).0,
                ));
            }
            return true;
        }
        proof {
            lemma_forest_set_unchanged(cv, id, a);
            assert(node_view(v@[k as int]) =~= s0[k as int]);
            assert(!(node_set_attrs(s0[k as int], id, a).1));
        }
        k += 1;
    }
    proof {
        lemma_forest_set_none(s0, id, a);
        crate::model::lemma_forest_view_index(v@);
        assert(forest_view(v@) =~= s0);
    }
    false
}

} // verus!
