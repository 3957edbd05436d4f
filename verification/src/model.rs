//! The scene-tree data model: nodes, their attributes, and the ghost-level
//! view of a forest used by every contract in the crate.

use vstd::prelude::*;

verus! {

/// Target repaint cadence of the frame driver.
pub const FRAMES_PER_SECOND: u32 = 60;

/// Time is measured in ticks of 1/120 second, so one 60 Hz frame is
/// exactly two ticks.
pub const TICKS_PER_SECOND: i64 = 120;

/// Fixed per-frame time step, in ticks.
pub const FRAME_TICKS: i64 = 2;

/// `current_rotation` is stored in units of 1/120 degree: advancing a node
/// by `rotation_speed` (degrees per second) over `dt` ticks adds exactly
/// `rotation_speed * dt` stored units.
pub const ANGLE_UNITS_PER_DEGREE: i64 = 120;

/// The drawable shape of a scene node.
#[derive(Debug, Clone, Copy, PartialEq, Eq, Structural)]
pub enum ShapeKind {
    Square,
    Circle,
    Triangle,
}

/// An RGBA color with 8-bit channels.
#[derive(Debug, Clone, Copy, PartialEq, Eq, Structural)]
pub struct Color {
    pub r: u8,
    pub g: u8,
    pub b: u8,
    pub a: u8,
}

impl Color {
    /// An opaque color from red, green and blue channels.
    pub fn rgb(r: u8, g: u8, b: u8) -> (c: Color)
        ensures
            c == (Color { r, g, b, a: 255u8 }),
    {
        Color { r, g, b, a: 255 }
    }

    /// A color from all four channels.
    pub fn rgba(r: u8, g: u8, b: u8, a: u8) -> (c: Color)
        ensures
            c == (Color { r, g, b, a }),
    {
        Color { r, g, b, a }
    }
}

/// One node of the scene tree. A node owns its children exclusively, so the
/// whole structure is a strict tree.
#[derive(Debug)]
pub struct SceneObject {
    pub id: u32,
    pub text: String,
    pub text_buffer: String,
    pub shape: ShapeKind,
    pub color: Color,
    pub rotation_speed: i64,
    pub current_rotation: i64,
    pub children: Vec<SceneObject>,
}

/// The mathematical image of a [`SceneObject`]: the same tree with sequences
/// in place of vectors and unbounded integers in place of machine integers.
#[verifier::ext_equal]
pub ghost struct SpecNode {
    pub id: u32,
    pub text: Seq<char>,
    pub text_buffer: Seq<char>,
    pub shape: ShapeKind,
    pub color: Color,
    pub rotation_speed: int,
    pub current_rotation: int,
    pub children: Seq<SpecNode>,
}

/// The view of a single node.
pub open spec fn node_view(o: SceneObject) -> SpecNode
    decreases o,
{
    SpecNode {
        id: o.id,
        text: o.text@,
        text_buffer: o.text_buffer@,
        shape: o.shape,
        color: o.color,
        rotation_speed: o.rotation_speed as int,
        current_rotation: o.current_rotation as int,
        children: forest_view(o.children@),
    }
}

/// The view of a sequence of sibling nodes.
pub open spec fn forest_view(s: Seq<SceneObject>) -> Seq<SpecNode>
    decreases s,
{
    if s.len() == 0 {
        Seq::empty()
    } else {
        seq![node_view(s[0])] + forest_view(s.drop_first())
    }
}

/// The forest view is the element-wise node view.
pub proof fn lemma_forest_view_index(s: Seq<SceneObject>)
    ensures
        forest_view(s).len() == s.len(),
        forall|i: int| 0 <= i < s.len() ==> forest_view(s)[i] == node_view(s[i]),
    decreases s,
{
    if s.len() > 0 {
        lemma_forest_view_index(s.drop_first());
    }
}

/// All node ids of a tree, in depth-first pre-order (the node before its
/// children).
pub open spec fn node_ids(n: SpecNode) -> Seq<u32>
    decreases n,
{
    seq![n.id] + forest_ids(n.children)
}

/// All node ids of a forest, in depth-first pre-order.
pub open spec fn forest_ids(s: Seq<SpecNode>) -> Seq<u32>
    decreases s,
{
    if s.len() == 0 {
        Seq::empty()
    } else {
        node_ids(s[0]) + forest_ids(s.drop_first())
    }
}

/// Whether some node of the forest carries this id.
pub open spec fn id_in_forest(s: Seq<SpecNode>, id: u32) -> bool {
    forest_ids(s).contains(id)
}

/// The forest invariant: every node id occurs exactly once.
pub open spec fn wf_forest(s: Seq<SpecNode>) -> bool {
    forest_ids(s).no_duplicates()
}

/// Every id of the forest is at most `bound`; ids handed out by the shared
/// counter keep this invariant, which makes `bound + 1` always fresh.
pub open spec fn ids_bounded(s: Seq<SpecNode>, bound: u32) -> bool {
    forall|id: u32| forest_ids(s).contains(id) ==> id <= bound
}

/// A bound strictly above every id in the forest is not itself in the forest.
pub proof fn lemma_fresh_id(s: Seq<SpecNode>, bound: u32, fresh: u32)
    requires
        ids_bounded(s, bound),
        bound < fresh,
    ensures
        !id_in_forest(s, fresh),
{
}

/// Splits the pre-order id sequence of a non-empty forest at its first tree.
pub proof fn lemma_forest_ids_first(s: Seq<SpecNode>)
    requires
        s.len() > 0,
    ensures
        forest_ids(s) == node_ids(s[0]) + forest_ids(s.drop_first()),
        forall|id: u32| #[trigger] forest_ids(s).contains(id) <==> node_ids(s[0]).contains(id)
            || forest_ids(s.drop_first()).contains(id),
{
    broadcast use vstd::seq_lib::lemma_seq_concat_contains_all_elements;

}

/// A tree's id sequence holds its own id and, besides it, exactly the ids of
/// its children's forest.
pub proof fn lemma_node_ids_split(n: SpecNode)
    ensures
        forall|id: u32| #[trigger] node_ids(n).contains(id) <==> id == n.id || forest_ids(
            n.children,
        ).contains(id),
{
    broadcast use vstd::seq_lib::lemma_seq_concat_contains_all_elements;

    assert(seq![n.id].contains(n.id)) by {
        assert(seq![n.id][0] == n.id);
    }
    assert forall|id: u32| seq![n.id].contains(id) implies id == n.id by {
        let i = choose|i: int| 0 <= i < seq![n.id].len() && seq![n.id][i] == id;
        assert(i == 0);
    }
}

/// Id sequences of concatenated forests concatenate.
pub proof fn lemma_forest_ids_concat(a: Seq<SpecNode>, b: Seq<SpecNode>)
    ensures
        forest_ids(a + b) == forest_ids(a) + forest_ids(b),
    decreases a,
{
    if a.len() == 0 {
        assert(a + b =~= b);
        assert(forest_ids(a) + forest_ids(b) =~= forest_ids(b));
    } else {
        lemma_forest_ids_concat(a.drop_first(), b);
        assert((a + b).drop_first() =~= a.drop_first() + b);
        assert((a + b)[0] == a[0]);
        assert(node_ids(a[0]) + (forest_ids(a.drop_first()) + forest_ids(b)) =~= (node_ids(a[0])
            + forest_ids(a.drop_first())) + forest_ids(b));
    }
}

/// A root's own id sequence is no longer than the forest's.
pub proof fn lemma_subtree_ids_len(s: Seq<SpecNode>, k: int)
    requires
        0 <= k < s.len(),
    ensures
        node_ids(s[k]).len() <= forest_ids(s).len(),
    decreases s,
{
    lemma_forest_ids_first(s);
    if k > 0 {
        lemma_subtree_ids_len(s.drop_first(), k - 1);
        assert(s.drop_first()[k - 1] == s[k]);
    }
}

/// No-duplication of a concatenation splits into both halves plus
/// disjointness.
pub proof fn lemma_no_dup_concat<T>(a: Seq<T>, b: Seq<T>)
    ensures
        (a + b).no_duplicates() <==> (a.no_duplicates() && b.no_duplicates() && forall|x: T|
            !(#[trigger] a.contains(x) && b.contains(x))),
{
    broadcast use vstd::seq_lib::lemma_seq_concat_contains_all_elements;

    if (a + b).no_duplicates() {
        assert forall|i: int, j: int|
            0 <= i < a.len() && 0 <= j < a.len() && i != j implies a[i] != a[j] by {
            assert((a + b)[i] == a[i]);
            assert((a + b)[j] == a[j]);
        }
        assert forall|i: int, j: int|
            0 <= i < b.len() && 0 <= j < b.len() && i != j implies b[i] != b[j] by {
            assert((a + b)[a.len() + i] == b[i]);
            assert((a + b)[a.len() + j] == b[j]);
        }
        assert forall|x: T| !(#[trigger] a.contains(x) && b.contains(x)) by {
            if a.contains(x) && b.contains(x) {
                let i = choose|i: int| 0 <= i < a.len() && a[i] == x;
                let j = choose|j: int| 0 <= j < b.len() && b[j] == x;
                assert((a + b)[i] == x);
                assert((a + b)[a.len() + j] == x);
            }
        }
    }
    if a.no_duplicates() && b.no_duplicates() && (forall|x: T|
        !(#[trigger] a.contains(x) && b.contains(x))) {
        assert forall|i: int, j: int|
            0 <= i < (a + b).len() && 0 <= j < (a + b).len() && i != j implies (a + b)[i] != (a
            + b)[j] by {
            if i < a.len() && j < a.len() {
            } else if i >= a.len() && j >= a.len() {
            } else if i < a.len() && j >= a.len() {
                assert(a.contains(a[i])) by {
                    assert(a[i] == a[i]);
                }
                if (a + b)[i] == (a + b)[j] {
                    assert(b.contains(b[j - a.len()])) by {
                        assert(b[j - a.len()] == b[j - a.len()]);
                    }
                }
            } else {
                assert(a.contains(a[j])) by {
                    assert(a[j] == a[j]);
                }
                if (a + b)[i] == (a + b)[j] {
                    assert(b.contains(b[i - a.len()])) by {
                        assert(b[i - a.len()] == b[i - a.len()]);
                    }
                }
            }
        }
    }
}

/// Saturating reduction of an unbounded integer into the `i64` range.
pub open spec fn clamp_i64(x: int) -> int {
    if x > i64::MAX {
        i64::MAX as int
    } else if x < i64::MIN {
        i64::MIN as int
    } else {
        x
    }
}

/// Clamping of an unbounded integer into an arbitrary closed range.
pub open spec fn clamp_int(x: int, lo: int, hi: int) -> int {
    if x < lo {
        lo
    } else if x > hi {
        hi
    } else {
        x
    }
}

impl SceneObject {
    /// A fresh childless node with the default rotation speed.
    pub fn new(id: u32, name: &str, shape: ShapeKind, color: Color) -> (o: SceneObject)
        ensures
            node_view(o) == (SpecNode {
                id,
                text: name@,
                text_buffer: name@,
                shape,
                color,
                rotation_speed: 20,
                current_rotation: 0,
                children: Seq::<SpecNode>::empty(),
            }),
    {
        let o = SceneObject {
            id,
            text: name.to_owned(),
            text_buffer: name.to_owned(),
            shape,
            color,
            rotation_speed: 20,
            current_rotation: 0,
            children: Vec::new(),
        };
        proof {
            assert(node_view(o) =~= SpecNode {
                id,
                text: name@,
                text_buffer: name@,
                shape,
                color,
                rotation_speed: 20,
                current_rotation: 0,
                children: Seq::<SpecNode>::empty(),
            });
        }
        o
    }
}

} // verus!
