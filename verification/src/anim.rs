//! The animator: advances every node's accumulated rotation by its own
//! angular rate times the elapsed time, recursing through all descendants.

use vstd::prelude::*;
use crate::model::{
    clamp_i64, forest_view, node_ids, node_view, SceneObject, SpecNode,
};

verus! {

/// One animation step on one tree: the rotation grows by `speed * dt`
/// (saturating at the ends of the `i64` range), children advance alike.
pub open spec fn anim_node(n: SpecNode, dt: int) -> SpecNode
    decreases n,
{
    SpecNode {
        id: n.id,
        text: n.text,
        text_buffer: n.text_buffer,
        shape: n.shape,
        color: n.color,
        rotation_speed: n.rotation_speed,
        current_rotation: clamp_i64(n.current_rotation + n.rotation_speed * dt),
        children: anim_forest(n.children, dt),
    }
}

/// One animation step on a forest.
pub open spec fn anim_forest(s: Seq<SpecNode>, dt: int) -> Seq<SpecNode>
    decreases s,
{
    if s.len() == 0 {
        Seq::empty()
    } else {
        seq![anim_node(s[0], dt)] + anim_forest(s.drop_first(), dt)
    }
}

/// The animated forest is the element-wise animated tree.
pub proof fn lemma_anim_forest_index(s: Seq<SpecNode>, dt: int)
    ensures
        anim_forest(s, dt).len() == s.len(),
        forall|i: int| 0 <= i < s.len() ==> anim_forest(s, dt)[i] == anim_node(s[i], dt),
    decreases s,
{
    if s.len() > 0 {
        lemma_anim_forest_index(s.drop_first(), dt);
    }
}

/// Animation never touches a tree's ids.
pub proof fn lemma_node_anim_ids(n: SpecNode, dt: int)
    ensures
        node_ids(anim_node(n, dt)) == node_ids(n),
    decreases n,
{
    lemma_forest_anim_ids(n.children, dt);
}

/// Animation never touches a forest's ids.
pub proof fn lemma_forest_anim_ids(s: Seq<SpecNode>, dt: int)
    ensures
        crate::model::forest_ids(anim_forest(s, dt)) == crate::model::forest_ids(s),
    decreases s,
{
    if s.len() > 0 {
        crate::model::lemma_forest_ids_first(s);
        lemma_node_anim_ids(s[0], dt);
        lemma_forest_anim_ids(s.drop_first(), dt);
        let res = seq![anim_node(s[0], dt)] + anim_forest(s.drop_first(), dt);
        crate::model::lemma_forest_ids_first(res);
        assert(res[0] == anim_node(s[0], dt));
        assert(res.drop_first() =~= anim_forest(s.drop_first(), dt));
    }
}

/// Advances one tree by `dt` ticks, all descendants included.
pub fn animate(o: &mut SceneObject, dt: i64)
    ensures
        node_view(*final(o)) == anim_node(node_view(*old(o)), dt as int),
    decreases node_ids(node_view(*old(o))).len(),
{
    let ghost nv = node_view(*old(o));
    proof {
        crate::model::lemma_forest_view_index(old(o).children@);
        assert(node_ids(nv) == seq![nv.id] + crate::model::forest_ids(nv.children));
    }
    proof {
        let a = o.rotation_speed as int;
        let b = dt as int;
        assert((-0x4000_0000_0000_0000_0000_0000_0000_0000int) <= a * b
            <= 0x4000_0000_0000_0000_0000_0000_0000_0000int) by (nonlinear_arith)
            requires
                (-0x8000_0000_0000_0000int) <= a <= 0x8000_0000_0000_0000int,
                (-0x8000_0000_0000_0000int) <= b <= 0x8000_0000_0000_0000int,
        ;
    }
    let r: i128 = o.current_rotation as i128 + (o.rotation_speed as i128) * (dt as i128);
    o.current_rotation = if r > i64::MAX as i128 {
        i64::MAX
    } else if r < i64::MIN as i128 {
        i64::MIN
    } else {
        r as i64
    };
    let n = o.children.len();
    let mut i: usize = 0;
    while i < n
        invariant
            nv == node_view(*old(o)),
            node_ids(nv).len() == 1 + crate::model::forest_ids(nv.children).len(),
            n == o.children@.len(),
            n == nv.children.len(),
            i <= n,
            o.id == nv.id,
            o.text@ == nv.text,
            o.text_buffer@ == nv.text_buffer,
            o.shape == nv.shape,
            o.color == nv.color,
            o.rotation_speed as int == nv.rotation_speed,
            o.current_rotation as int == clamp_i64(nv.current_rotation + nv.rotation_speed * dt),
            forall|j: int| i <= j < n ==> o.children@[j] == old(o).children@[j],
            forall|j: int| 0 <= j < n ==> nv.children[j] == node_view(old(o).children@[j]),
            forall|j: int|
                0 <= j < i ==> node_view(o.children@[j]) == anim_node(
                    #[trigger] nv.children[j],
                    dt as int,
                ),
        decreases n - i,
    {
        let mut c = o.children.remove(i);
        proof {
            assert(node_view(c) == nv.children[i as int]);
            crate::model::lemma_subtree_ids_len(nv.children, i as int);
            assert(node_ids(node_view(c)).len() < node_ids(nv).len());
        }
        animate(&mut c, dt);
        o.children.insert(i, c);
        i += 1;
    }
    proof {
        lemma_anim_forest_index(nv.children, dt as int);
        crate::model::lemma_forest_view_index(o.children@);
        assert(forest_view(o.children@) =~= anim_forest(nv.children, dt as int));
        assert(node_view(*o) =~= anim_node(nv, dt as int));
    }
}

/// Advances the whole forest by `dt` ticks.
pub fn animate_forest(v: &mut Vec<SceneObject>, dt: i64)
    ensures
        forest_view(final(v)@) == anim_forest(forest_view(old(v)@), dt as int),
{
    let ghost s0 = forest_view(old(v)@);
    proof {
        crate::model::lemma_forest_view_index(old(v)@);
    }
    let n = v.len();
    let mut i: usize = 0;
    while i < n
        invariant
            n == v@.len(),
            s0.len() == n,
            i <= n,
            forall|j: int| i <= j < n ==> v@[j] == old(v)@[j],
            forall|j: int| 0 <= j < n ==> s0[j] == node_view(old(v)@[j]),
            forall|j: int|
                0 <= j < i ==> node_view(v@[j]) == anim_node(#[trigger] s0[j], dt as int),
        decreases n - i,
    {
        let mut o = v.remove(i);
        animate(&mut o, dt);
        v.insert(i, o);
        i += 1;
    }
    proof {
        lemma_anim_forest_index(s0, dt as int);
        crate::model::lemma_forest_view_index(v@);
        assert(forest_view(v@) =~= anim_forest(s0, dt as int));
    }
}

} // verus!
