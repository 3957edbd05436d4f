//! The layout engine: a depth-first, left-to-right tidy-tree placement.
//! Each node's horizontal position is set by its depth, each leaf sits at the
//! running vertical cursor, and each parent is centered against the combined
//! vertical extent of its children.

use vstd::prelude::*;
use std::collections::HashMap;
use crate::model::{
    forest_ids, forest_view, node_ids, node_view, SceneObject, SpecNode,
};

verus! {

broadcast use vstd::std_specs::hash::group_hash_axioms;

/// Horizontal world-space position of the roots.
pub const X_ORIGIN: i64 = 200;

/// Vertical world-space cursor at which the first root is laid out.
pub const Y_ORIGIN: i64 = 100;

/// Horizontal distance between a node and its children.
pub const X_SPACING: i64 = 250;

/// Minimum vertical extent reserved for any subtree.
pub const ROW_HEIGHT: i64 = 120;

/// Largest number of nodes the layout engine accepts; keeps every coordinate
/// comfortably inside `i64`.
pub const MAX_LAYOUT_NODES: u64 = 0x4000_0000;

/// Every coordinate the layout produces stays within this magnitude.
pub const LAYOUT_LIMIT: i64 = 0x1000_0000_0000;

/// A world-space anchor position.
#[derive(Debug, Clone, Copy, PartialEq, Eq, Structural)]
pub struct Pos {
    pub x: i64,
    pub y: i64,
}

/// The vertical extent a tree consumes: the extent of its children, but at
/// least one row.
pub open spec fn node_height(n: SpecNode) -> int
    decreases n,
{
    let th = forest_height(n.children);
    if th > ROW_HEIGHT as int {
        th
    } else {
        ROW_HEIGHT as int
    }
}

/// The vertical extent a forest consumes: its trees stacked.
pub open spec fn forest_height(s: Seq<SpecNode>) -> int
    decreases s,
{
    if s.len() == 0 {
        0
    } else {
        node_height(s[0]) + forest_height(s.drop_first())
    }
}

/// The anchor of a tree laid out at depth-position `x` with its subtree
/// starting at vertical cursor `y`: a leaf sits at the cursor itself, a
/// parent at the midpoint of its children's combined extent.
pub open spec fn node_pos(n: SpecNode, x: int, y: int) -> Pos {
    if n.children.len() == 0 {
        Pos { x: x as i64, y: y as i64 }
    } else {
        Pos {
            x: x as i64,
            y: (y + forest_height(n.children) / 2 - (ROW_HEIGHT as int) / 2) as i64,
        }
    }
}

/// The id-to-anchor map of one tree.
pub open spec fn node_layout(n: SpecNode, x: int, y: int) -> Map<u32, Pos>
    decreases n,
{
    forest_layout(n.children, x + X_SPACING as int, y).insert(n.id, node_pos(n, x, y))
}

/// The id-to-anchor map of a forest: trees stacked vertically, later
/// entries overriding earlier ones where ids collide.
pub open spec fn forest_layout(s: Seq<SpecNode>, x: int, y: int) -> Map<u32, Pos>
    decreases s,
{
    if s.len() == 0 {
        Map::empty()
    } else {
        node_layout(s[0], x, y).union_prefer_right(
            forest_layout(s.drop_first(), x, y + node_height(s[0])),
        )
    }
}

/// Heights are bounded below by one row and above by one row per node.
pub proof fn lemma_node_height_bounds(n: SpecNode)
    ensures
        ROW_HEIGHT as int <= node_height(n) <= ROW_HEIGHT as int * node_ids(n).len(),
    decreases n, 1int,
{
    lemma_forest_height_bounds(n.children);
    crate::model::lemma_forest_ids_first(seq![n]);
    assert(node_ids(n).len() == 1 + forest_ids(n.children).len()) by {
        assert(node_ids(n) == seq![n.id] + forest_ids(n.children));
    }
}

/// A forest's height is nonnegative and at most one row per node.
pub proof fn lemma_forest_height_bounds(s: Seq<SpecNode>)
    ensures
        0 <= forest_height(s) <= ROW_HEIGHT as int * forest_ids(s).len(),
    decreases s, 0int,
{
    if s.len() > 0 {
        lemma_node_height_bounds(s[0]);
        lemma_forest_height_bounds(s.drop_first());
        crate::model::lemma_forest_ids_first(s);
        assert(forest_ids(s).len() == node_ids(s[0]).len() + forest_ids(s.drop_first()).len());
    }
}

/// Stacked forests lay out as the two halves, the second below the first.
pub proof fn lemma_forest_layout_concat(a: Seq<SpecNode>, b: Seq<SpecNode>, x: int, y: int)
    ensures
        forest_height(a + b) == forest_height(a) + forest_height(b),
        forest_layout(a + b, x, y) == forest_layout(a, x, y).union_prefer_right(
            forest_layout(b, x, y + forest_height(a)),
        ),
    decreases a,
{
    if a.len() == 0 {
        assert(a + b =~= b);
        assert(forest_layout(a, x, y).union_prefer_right(forest_layout(b, x, y)) =~= forest_layout(
            b,
            x,
            y,
        ));
    } else {
        lemma_forest_layout_concat(a.drop_first(), b, x, y + node_height(a[0]));
        assert((a + b).drop_first() =~= a.drop_first() + b);
        assert((a + b)[0] == a[0]);
        assert(node_layout(a[0], x, y).union_prefer_right(
            forest_layout(a.drop_first(), x, y + node_height(a[0])).union_prefer_right(
                forest_layout(b, x, y + node_height(a[0]) + forest_height(a.drop_first())),
            ),
        ) =~= node_layout(a[0], x, y).union_prefer_right(
            forest_layout(a.drop_first(), x, y + node_height(a[0])),
        ).union_prefer_right(forest_layout(b, x, y + forest_height(a))));
    }
}

/// The layout map covers exactly the ids of the forest.
pub proof fn lemma_node_layout_covers(n: SpecNode, x: int, y: int)
    ensures
        forall|id: u32| #[trigger] node_layout(n, x, y).contains_key(id) <==> node_ids(
            n,
        ).contains(id),
    decreases n, 1int,
{
    lemma_forest_layout_covers(n.children, x + X_SPACING as int, y);
    crate::model::lemma_node_ids_split(n);
    assert forall|id: u32| #[trigger] node_layout(n, x, y).contains_key(id) <==> node_ids(
        n,
    ).contains(id) by {
        assert(forest_layout(n.children, x + X_SPACING as int, y).contains_key(id) <==> forest_ids(
            n.children,
        ).contains(id));
        assert(node_layout(n, x, y).contains_key(id) <==> (id == n.id || forest_layout(
            n.children,
            x + X_SPACING as int,
            y,
        ).contains_key(id)));
    }
}

/// The layout map covers exactly the ids of the forest.
pub proof fn lemma_forest_layout_covers(s: Seq<SpecNode>, x: int, y: int)
    ensures
        forall|id: u32| #[trigger] forest_layout(s, x, y).contains_key(id) <==> forest_ids(
            s,
        ).contains(id),
    decreases s, 0int,
{
    if s.len() > 0 {
        lemma_node_layout_covers(s[0], x, y);
        lemma_forest_layout_covers(s.drop_first(), x, y + node_height(s[0]));
        crate::model::lemma_forest_ids_first(s);
        assert forall|id: u32| #[trigger] forest_layout(s, x, y).contains_key(id) <==> forest_ids(
            s,
        ).contains(id) by {
            assert(node_layout(s[0], x, y).contains_key(id) <==> node_ids(s[0]).contains(id));
            assert(forest_layout(s.drop_first(), x, y + node_height(s[0])).contains_key(id)
                <==> forest_ids(s.drop_first()).contains(id));
            assert(forest_layout(s, x, y).contains_key(id) <==> (node_layout(
                s[0],
                x,
                y,
            ).contains_key(id) || forest_layout(
                s.drop_first(),
                x,
                y + node_height(s[0]),
            ).contains_key(id)));
        }
    }
}

/// A childless node's vertical position is exactly the running cursor that
/// was current when the node was visited.
pub proof fn lemma_leaf_at_cursor(n: SpecNode, x: int, y: int)
    requires
        n.children.len() == 0,
    ensures
        node_layout(n, x, y)[n.id] == (Pos { x: x as i64, y: y as i64 }),
{
}

/// A parent sits at the vertical midpoint of its children's combined extent,
/// offset by half a row so that the anchor is centered on its own row.
pub proof fn lemma_parent_centered(n: SpecNode, x: int, y: int)
    requires
        n.children.len() > 0,
    ensures
        node_layout(n, x, y)[n.id] == (Pos {
            x: x as i64,
            y: (y + forest_height(n.children) / 2 - (ROW_HEIGHT as int) / 2) as i64,
        }),
{
}

/// Extending a laid-out prefix by one tree stacks that tree below it.
pub proof fn lemma_forest_layout_snoc(s: Seq<SpecNode>, i: int, x: int, y: int)
    requires
        0 <= i < s.len(),
    ensures
        forest_height(s.take(i + 1)) == forest_height(s.take(i)) + node_height(s[i]),
        forest_layout(s.take(i + 1), x, y) == forest_layout(s.take(i), x, y).union_prefer_right(
            node_layout(s[i], x, y + forest_height(s.take(i))),
        ),
{
    lemma_forest_layout_concat(s.take(i), seq![s[i]], x, y);
    assert(s.take(i) + seq![s[i]] =~= s.take(i + 1));
    let y2 = y + forest_height(s.take(i));
    let t = seq![s[i]];
    assert(t.len() == 1);
    assert(t[0] == s[i]);
    assert(t.drop_first() =~= Seq::<SpecNode>::empty());
    assert(forest_layout(t.drop_first(), x, y2 + node_height(t[0])) == Map::<u32, Pos>::empty());
    assert(forest_layout(t, x, y2) == node_layout(s[i], x, y2).union_prefer_right(
        Map::<u32, Pos>::empty(),
    ));
    assert(node_layout(s[i], x, y2).union_prefer_right(Map::<u32, Pos>::empty()) =~= node_layout(
        s[i],
        x,
        y2,
    ));
    assert(forest_height(t.drop_first()) == 0);
    assert(forest_height(t) == node_height(s[i]));
}

/// The ids of a prefix and of the next tree all fit inside the forest's ids.
pub proof fn lemma_prefix_ids_len(s: Seq<SpecNode>, i: int)
    requires
        0 <= i < s.len(),
    ensures
        forest_ids(s.take(i + 1)).len() == forest_ids(s.take(i)).len() + node_ids(s[i]).len(),
        forest_ids(s.take(i)).len() + node_ids(s[i]).len() <= forest_ids(s).len(),
{
    crate::model::lemma_forest_ids_concat(s.take(i), seq![s[i]]);
    assert(s.take(i) + seq![s[i]] =~= s.take(i + 1));
    assert(seq![s[i]].drop_first() =~= Seq::<SpecNode>::empty());
    assert(forest_ids(seq![s[i]]) == node_ids(s[i]) + forest_ids(Seq::empty()));
    assert(node_ids(s[i]) + Seq::<u32>::empty() =~= node_ids(s[i]));
    crate::model::lemma_forest_ids_concat(s.take(i + 1), s.skip(i + 1));
    assert(s.take(i + 1) + s.skip(i + 1) =~= s);
}

/// Lays out one tree: children first, depth-first in order, then the node
/// itself, writing every anchor into `m` and returning the subtree's total
/// vertical extent.
pub fn layout_node(o: &SceneObject, x: i64, y: i64, m: &mut HashMap<u32, Pos>) -> (h: i64)
    requires
        0 <= x,
        x + X_SPACING as int * (node_ids(node_view(*o)).len() as int) <= LAYOUT_LIMIT as int,
        0 <= y,
        y + ROW_HEIGHT as int * (node_ids(node_view(*o)).len() as int) <= LAYOUT_LIMIT as int,
    ensures
        final(m)@ == old(m)@.union_prefer_right(node_layout(node_view(*o), x as int, y as int)),
        h as int == node_height(node_view(*o)),
    decreases node_ids(node_view(*o)).len(),
{
    let ghost nv = node_view(*o);
    let ghost m0 = old(m)@;
    proof {
        crate::model::lemma_forest_view_index(o.children@);
        assert(node_ids(nv) == seq![nv.id] + forest_ids(nv.children));
        assert(node_ids(nv).len() == 1 + forest_ids(nv.children).len());
    }
    let n = o.children.len();
    let mut th: i64 = 0;
    let mut cy: i64 = y;
    let mut i: usize = 0;
    while i < n
        invariant
            nv == node_view(*o),
            n == o.children@.len(),
            n == nv.children.len(),
            forall|j: int| 0 <= j < n ==> nv.children[j] == node_view(o.children@[j]),
            i <= n,
            0 <= x,
            x + X_SPACING as int * (node_ids(nv).len() as int) <= LAYOUT_LIMIT as int,
            0 <= y,
            y + ROW_HEIGHT as int * (node_ids(nv).len() as int) <= LAYOUT_LIMIT as int,
            node_ids(nv).len() == 1 + forest_ids(nv.children).len(),
            th as int == forest_height(nv.children.take(i as int)),
            0 <= th,
            th as int <= ROW_HEIGHT as int * (forest_ids(nv.children.take(i as int)).len() as int),
            forest_ids(nv.children.take(i as int)).len() <= forest_ids(nv.children).len(),
            cy as int == y + th,
            m@ == m0.union_prefer_right(
                forest_layout(nv.children.take(i as int), x + X_SPACING as int, y as int),
            ),
        decreases n - i,
    {
        let ghost cw = nv.children;
        proof {
            lemma_prefix_ids_len(cw, i as int);
            crate::model::lemma_forest_ids_concat(cw.take(i as int), cw.skip(i as int));
            assert(cw.take(i as int) + cw.skip(i as int) =~= cw);
            crate::model::lemma_subtree_ids_len(cw.skip(i as int), 0);
            assert(cw.skip(i as int)[0] == cw[i as int]);
            lemma_forest_height_bounds(cw.take(i as int));
        }
        let ch = layout_node(&o.children[i], x + X_SPACING, cy, m);
        proof {
            lemma_forest_layout_snoc(cw, i as int, x + X_SPACING as int, y as int);
            lemma_forest_height_bounds(cw.take(i as int + 1));
            lemma_node_height_bounds(cw[i as int]);
            assert(m@ =~= m0.union_prefer_right(
                forest_layout(cw.take(i as int + 1), x + X_SPACING as int, y as int),
            ));
        }
        th = th + ch;
        cy = y + th;
        i += 1;
    }
    proof {
        assert(nv.children.take(n as int) =~= nv.children);
    }
    let p = if n > 0 {
        let half = ((th as u64) / 2) as i64;
        proof {
            assert(half as int == forest_height(nv.children) / 2);
        }
        Pos { x, y: y + half - 60 }
    } else {
        Pos { x, y }
    };
    proof {
        assert(ROW_HEIGHT as int / 2 == 60);
        assert(p == node_pos(nv, x as int, y as int));
    }
    m.insert(o.id, p);
    proof {
        assert(m@ =~= m0.union_prefer_right(node_layout(nv, x as int, y as int)));
    }
    if th > ROW_HEIGHT {
        th
    } else {
        ROW_HEIGHT
    }
}

/// Lays out the whole forest: roots stacked from the vertical origin, every
/// node's anchor keyed by its id. The map is rebuilt from nothing on every
/// call.
pub fn layout_forest(v: &Vec<SceneObject>) -> (m: HashMap<u32, Pos>)
    requires
        forest_ids(forest_view(v@)).len() <= MAX_LAYOUT_NODES,
    ensures
        m@ == forest_layout(forest_view(v@), X_ORIGIN as int, Y_ORIGIN as int),
{
    let ghost s = forest_view(v@);
    proof {
        crate::model::lemma_forest_view_index(v@);
    }
    let mut m: HashMap<u32, Pos> = HashMap::new();
    let n = v.len();
    let mut cy: i64 = Y_ORIGIN;
    let mut i: usize = 0;
    while i < n
        invariant
            s == forest_view(v@),
            n == v@.len(),
            n == s.len(),
            forall|j: int| 0 <= j < n ==> s[j] == node_view(v@[j]),
            forest_ids(s).len() <= MAX_LAYOUT_NODES,
            i <= n,
            cy as int == Y_ORIGIN + forest_height(s.take(i as int)),
            Y_ORIGIN <= cy,
            cy as int <= Y_ORIGIN + ROW_HEIGHT as int * (forest_ids(s.take(i as int)).len() as int),
            forest_ids(s.take(i as int)).len() <= forest_ids(s).len(),
            m@ == Map::<u32, Pos>::empty().union_prefer_right(
                forest_layout(s.take(i as int), X_ORIGIN as int, Y_ORIGIN as int),
            ),
        decreases n - i,
    {
        proof {
            lemma_prefix_ids_len(s, i as int);
            crate::model::lemma_forest_ids_concat(s.take(i as int), s.skip(i as int));
            assert(s.take(i as int) + s.skip(i as int) =~= s);
            crate::model::lemma_subtree_ids_len(s.skip(i as int), 0);
            assert(s.skip(i as int)[0] == s[i as int]);
            lemma_forest_height_bounds(s.take(i as int));
        }
        let h = layout_node(&v[i], X_ORIGIN, cy, &mut m);
        proof {
            lemma_forest_layout_snoc(s, i as int, X_ORIGIN as int, Y_ORIGIN as int);
            lemma_forest_height_bounds(s.take(i as int + 1));
            lemma_node_height_bounds(s[i as int]);
            assert(m@ =~= Map::<u32, Pos>::empty().union_prefer_right(
                forest_layout(s.take(i as int + 1), X_ORIGIN as int, Y_ORIGIN as int),
            ));
        }
        cy = cy + h;
        i += 1;
    }
    proof {
        assert(s.take(n as int) =~= s);
        assert(Map::<u32, Pos>::empty().union_prefer_right(
            forest_layout(s, X_ORIGIN as int, Y_ORIGIN as int),
        ) =~= forest_layout(s, X_ORIGIN as int, Y_ORIGIN as int));
    }
    m
}

/// Laying out the same forest shape twice gives the same map; the placement
/// is a pure function of the forest.
pub proof fn lemma_layout_deterministic(
    a: Seq<SpecNode>,
    b: Seq<SpecNode>,
    x: int,
    y: int,
    m1: Map<u32, Pos>,
    m2: Map<u32, Pos>,
)
    requires
        a == b,
        m1 == forest_layout(a, x, y),
        m2 == forest_layout(b, x, y),
    ensures
        m1 == m2,
{
}

} // verus!
