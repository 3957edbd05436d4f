//! The edit-request queue: structural edits issued from UI callbacks are
//! recorded as requests and applied once per frame, in enqueue order, so the
//! forest is never mutated while it is being traversed.

use vstd::prelude::*;
use std::collections::HashMap;
use crate::anim::{anim_forest, animate_forest, lemma_forest_anim_ids};
use crate::camera::{cam_wf, spec_apply_scroll, spec_pointer_step, spec_screen_to_world, Camera};
use crate::hit::{forest_hit, hit_test_forest};
use crate::layout::{forest_layout, layout_forest, Pos, MAX_LAYOUT_NODES, X_ORIGIN, Y_ORIGIN};
use crate::laws::{lemma_delete_exact, lemma_forest_add_exact, lemma_forest_set_ids};
use crate::model::{
    clamp_i64, forest_ids, forest_view, id_in_forest, ids_bounded, lemma_fresh_id, node_ids,
    node_view, wf_forest, Color, SceneObject, ShapeKind, SpecNode, FRAME_TICKS,
};
use crate::ops::{
    add_child_node, attrs_view, default_child_view, find_and_delete_node, forest_add_child,
    forest_delete, forest_set_attrs, lemma_delete_absent, lemma_forest_add_unchanged,
    node_add_child, set_node_attrs, NodeAttrs,
};

verus! {

/// A deferred structural edit.
#[derive(Debug, Clone, Copy, PartialEq, Eq, Structural)]
pub enum EditorRequest {
    AddChild { parent_id: u32 },
    DeleteNode { node_id: u32 },
}

/// How many requests of a sequence are child insertions; each of those may
/// advance the id counter by one.
pub open spec fn count_adds(rs: Seq<EditorRequest>) -> int
    decreases rs.len(),
{
    if rs.len() == 0 {
        0
    } else {
        (if rs[0] is AddChild {
            1int
        } else {
            0int
        }) + count_adds(rs.drop_first())
    }
}

/// What one request does to the forest and the shared id counter. An
/// insertion under a vanished parent, or a deletion of a vanished node, does
/// nothing; the counter advances only when a node is actually created.
pub open spec fn spec_apply_request(s: Seq<SpecNode>, next_id: u32, r: EditorRequest) -> (
    Seq<SpecNode>,
    u32,
) {
    match r {
        EditorRequest::AddChild { parent_id } => {
            if id_in_forest(s, parent_id) {
                let nid = (next_id + 1) as u32;
                (forest_add_child(s, parent_id, default_child_view(nid)).0, nid)
            } else {
                (s, next_id)
            }
        },
        EditorRequest::DeleteNode { node_id } => (forest_delete(s, node_id), next_id),
    }
}

/// Draining the queue: requests applied one after the other, in enqueue
/// order. An empty queue leaves forest and counter untouched.
pub open spec fn spec_drain(s: Seq<SpecNode>, next_id: u32, rs: Seq<EditorRequest>) -> (
    Seq<SpecNode>,
    u32,
)
    decreases rs.len(),
{
    if rs.len() == 0 {
        (s, next_id)
    } else {
        let (s1, n1) = spec_apply_request(s, next_id, rs[0]);
        spec_drain(s1, n1, rs.drop_first())
    }
}

/// Draining an empty queue is the identity on the forest and the counter.
pub proof fn lemma_drain_empty(s: Seq<SpecNode>, next_id: u32)
    ensures
        spec_drain(s, next_id, Seq::empty()) == (s, next_id),
{
}

/// Draining a queue with one more request drains the prefix, then applies
/// the last request.
pub proof fn lemma_drain_snoc(s: Seq<SpecNode>, next_id: u32, a: Seq<EditorRequest>, r: EditorRequest)
    ensures
        spec_drain(s, next_id, a.push(r)) == spec_apply_request(
            spec_drain(s, next_id, a).0,
            spec_drain(s, next_id, a).1,
            r,
        ),
    decreases a.len(),
{
    if a.len() == 0 {
        assert(a.push(r)[0] == r);
        assert(a.push(r).drop_first() =~= Seq::<EditorRequest>::empty());
        let p = spec_apply_request(s, next_id, r);
        assert(spec_drain(s, next_id, a.push(r)) == spec_drain(p.0, p.1, a.push(r).drop_first()));
        assert(spec_drain(p.0, p.1, a.push(r).drop_first()) == (p.0, p.1));
        assert(spec_drain(s, next_id, a) == (s, next_id));
        assert(p == (p.0, p.1));
    } else {
        assert(a.push(r)[0] == a[0]);
        let q = spec_apply_request(s, next_id, a[0]);
        lemma_drain_snoc(q.0, q.1, a.drop_first(), r);
        assert(a.push(r).drop_first() =~= a.drop_first().push(r));
        assert(spec_drain(s, next_id, a.push(r)) == spec_drain(q.0, q.1, a.push(r).drop_first()));
        assert(spec_drain(s, next_id, a) == spec_drain(q.0, q.1, a.drop_first()));
    }
}

/// One request's worth of adds splits off the count of the rest.
pub proof fn lemma_count_adds_skip(rs: Seq<EditorRequest>, i: int)
    requires
        0 <= i < rs.len(),
    ensures
        count_adds(rs.skip(i)) == (if rs[i] is AddChild {
            1int
        } else {
            0int
        }) + count_adds(rs.skip(i + 1)),
        count_adds(rs.skip(i + 1)) >= 0,
        count_adds(rs.skip(i)) >= 0,
    decreases rs.len() - i,
{
    assert(rs.skip(i)[0] == rs[i]);
    assert(rs.skip(i).drop_first() =~= rs.skip(i + 1));
    if i + 1 < rs.len() {
        lemma_count_adds_skip(rs, i + 1);
    } else {
        assert(rs.skip(i + 1).len() == 0);
    }
}

/// A tree takes an insertion exactly when it holds the parent id.
pub proof fn lemma_node_add_found(n: SpecNode, pid: u32, c: SpecNode)
    ensures
        node_add_child(n, pid, c).1 == node_ids(n).contains(pid),
    decreases n,
{
    crate::model::lemma_node_ids_split(n);
    lemma_forest_add_found(n.children, pid, c);
}

/// A forest takes an insertion exactly when it holds the parent id.
pub proof fn lemma_forest_add_found(s: Seq<SpecNode>, pid: u32, c: SpecNode)
    ensures
        forest_add_child(s, pid, c).1 == id_in_forest(s, pid),
    decreases s,
{
    if s.len() == 0 {
    } else {
        lemma_node_add_found(s[0], pid, c);
        lemma_forest_add_found(s.drop_first(), pid, c);
        crate::model::lemma_forest_ids_first(s);
    }
}

/// Drains the whole queue against the forest, in enqueue order, leaving the
/// queue empty. `AddChild` draws a fresh id from the shared counter only
/// when its parent still exists; `DeleteNode` removes the first match.
pub fn process_requests(
    v: &mut Vec<SceneObject>,
    reqs: &mut Vec<EditorRequest>,
    next_id: &mut u32,
)
    requires
        *old(next_id) as int + count_adds(old(reqs)@) <= u32::MAX as int,
    ensures
        ({
            let (s2, n2) = spec_drain(forest_view(old(v)@), *old(next_id), old(reqs)@);
            forest_view(final(v)@) == s2 && *final(next_id) == n2
        }),
        final(reqs)@.len() == 0,
{
    let ghost s0 = forest_view(old(v)@);
    let ghost n0 = *old(next_id);
    let ghost rs = old(reqs)@;
    let n = reqs.len();
    let mut i: usize = 0;
    proof {
        if n > 0 {
            lemma_count_adds_skip(rs, 0);
            assert(rs.skip(0) =~= rs);
        }
    }
    while i < n
        invariant
            reqs@ == rs,
            n == rs.len(),
            i <= n,
            s0 == forest_view(old(v)@),
            n0 == *old(next_id),
            (forest_view(v@), *next_id) == spec_drain(s0, n0, rs.take(i as int)),
            *next_id as int + count_adds(rs.skip(i as int)) <= u32::MAX as int,
            count_adds(rs.skip(i as int)) >= 0,
        decreases n - i,
    {
        let r = reqs[i];
        let ghost s_cur = forest_view(v@);
        let ghost n_cur = *next_id;
        proof {
            lemma_count_adds_skip(rs, i as int);
            lemma_drain_snoc(s0, n0, rs.take(i as int), r);
            assert(rs.take(i as int).push(r) =~= rs.take(i as int + 1));
        }
        match r {
            EditorRequest::AddChild { parent_id } => {
                let candidate = *next_id + 1;
                let found = add_child_node(v, parent_id, candidate);
                proof {
                    lemma_forest_add_found(s_cur, parent_id, default_child_view(candidate));
                }
                if found {
                    *next_id = candidate;
                } else {
                    proof {
                        lemma_forest_add_unchanged(
                            s_cur,
                            parent_id,
                            default_child_view(candidate),
                        );
                    }
                }
            },
            EditorRequest::DeleteNode { node_id } => {
                let _ = find_and_delete_node(v, node_id);
            },
        }
        proof {
            assert((forest_view(v@), *next_id) == spec_apply_request(s_cur, n_cur, r));
        }
        i += 1;
    }
    proof {
        assert(rs.take(n as int) =~= rs);
    }
    reqs.clear();
}

/// A queue never owes a negative number of ids.
pub proof fn lemma_count_adds_nonneg(rs: Seq<EditorRequest>)
    ensures
        count_adds(rs) >= 0,
    decreases rs.len(),
{
    if rs.len() > 0 {
        lemma_count_adds_nonneg(rs.drop_first());
    }
}

/// One applied request keeps the forest well formed and its ids bounded by
/// the (possibly advanced) counter.
pub proof fn lemma_apply_request_wf(s: Seq<SpecNode>, next_id: u32, r: EditorRequest)
    requires
        wf_forest(s),
        ids_bounded(s, next_id),
        r is AddChild ==> next_id < u32::MAX,
    ensures
        ({
            let (s1, n1) = spec_apply_request(s, next_id, r);
            &&& wf_forest(s1)
            &&& ids_bounded(s1, n1)
            &&& next_id <= n1
            &&& n1 as int <= next_id as int + (if r is AddChild {
                1int
            } else {
                0int
            })
        }),
{
    match r {
        EditorRequest::AddChild { parent_id } => {
            if id_in_forest(s, parent_id) {
                let nid = (next_id + 1) as u32;
                let c = default_child_view(nid);
                lemma_fresh_id(s, next_id, nid);
                assert(node_ids(c) == seq![nid] + forest_ids(Seq::empty()));
                assert(node_ids(c) =~= seq![nid]);
                assert forall|x: u32| #[trigger] node_ids(c).contains(x) implies x == nid by {
                    let j = choose|j: int| 0 <= j < 1 && node_ids(c)[j] == x;
                }
                assert(node_ids(c).contains(nid)) by {
                    assert(node_ids(c)[0] == nid);
                }
                assert(node_ids(c).no_duplicates());
                lemma_forest_add_exact(s, parent_id, c);
                let s1 = forest_add_child(s, parent_id, c).0;
                assert forall|x: u32| #[trigger] forest_ids(s1).contains(x) implies x
                    <= nid by {
                    assert(id_in_forest(s1, x));
                    if id_in_forest(s, x) {
                        assert(forest_ids(s).contains(x));
                    } else {
                        assert(node_ids(c).contains(x));
                    }
                }
            }
        },
        EditorRequest::DeleteNode { node_id } => {
            if id_in_forest(s, node_id) {
                lemma_delete_exact(s, node_id);
                let s1 = forest_delete(s, node_id);
                assert forall|x: u32| #[trigger] forest_ids(s1).contains(x) implies x
                    <= next_id by {
                    assert(id_in_forest(s1, x));
                    assert(id_in_forest(s, x));
                    assert(forest_ids(s).contains(x));
                }
            } else {
                lemma_delete_absent(s, node_id);
            }
        },
    }
}

/// A drained queue keeps the forest well formed; the counter only grows,
/// and by at most one per insertion request.
pub proof fn lemma_drain_wf(s: Seq<SpecNode>, next_id: u32, rs: Seq<EditorRequest>)
    requires
        wf_forest(s),
        ids_bounded(s, next_id),
        next_id as int + count_adds(rs) <= u32::MAX as int,
    ensures
        ({
            let (s2, n2) = spec_drain(s, next_id, rs);
            &&& wf_forest(s2)
            &&& ids_bounded(s2, n2)
            &&& next_id <= n2
            &&& n2 as int <= next_id as int + count_adds(rs)
        }),
    decreases rs.len(),
{
    if rs.len() > 0 {
        lemma_count_adds_nonneg(rs.drop_first());
        lemma_apply_request_wf(s, next_id, rs[0]);
        let (s1, n1) = spec_apply_request(s, next_id, rs[0]);
        lemma_drain_wf(s1, n1, rs.drop_first());
    }
}

/// The id handed to an applied `AddChild` is the counter advanced exactly
/// once, and it has never named a node of the forest before — also after
/// any earlier deletions, since the counter never goes backwards.
pub proof fn lemma_add_child_fresh_id(s: Seq<SpecNode>, next_id: u32, parent_id: u32)
    requires
        wf_forest(s),
        ids_bounded(s, next_id),
        next_id < u32::MAX,
        id_in_forest(s, parent_id),
    ensures
        ({
            let (s1, n1) = spec_apply_request(
                s,
                next_id,
                EditorRequest::AddChild { parent_id },
            );
            &&& n1 == next_id + 1
            &&& !id_in_forest(s, n1)
            &&& id_in_forest(s1, n1)
            &&& wf_forest(s1)
        }),
{
    let nid = (next_id + 1) as u32;
    let c = default_child_view(nid);
    lemma_fresh_id(s, next_id, nid);
    lemma_apply_request_wf(s, next_id, EditorRequest::AddChild { parent_id });
    assert(node_ids(c).contains(nid)) by {
        assert(node_ids(c) == seq![nid] + forest_ids(Seq::empty()));
        assert(node_ids(c)[0] == nid);
    }
    assert(node_ids(c).no_duplicates()) by {
        assert(node_ids(c) =~= seq![nid]);
    }
    assert forall|x: u32| #[trigger] node_ids(c).contains(x) implies x == nid by {
        assert(node_ids(c) =~= seq![nid]);
        let j = choose|j: int| 0 <= j < 1 && node_ids(c)[j] == x;
    }
    lemma_forest_add_exact(s, parent_id, c);
    lemma_forest_add_found(s, parent_id, c);
}

/// The per-frame input the hosting toolkit hands to the controller.
pub struct FrameInput {
    /// Scroll input already scaled to zoom thousandths.
    pub scroll_delta_milli: i64,
    /// Whether the secondary pointer button is held.
    pub secondary_down: bool,
    /// The pointer position in screen space, when it is over the canvas.
    pub pointer: Option<(i64, i64)>,
    /// A completed primary click at a screen position, if one happened.
    pub click: Option<(i64, i64)>,
    /// The screen-space point that world coordinates are centered on.
    pub offset_x: i64,
    pub offset_y: i64,
}

/// The top-level controller: it exclusively owns the forest, the camera,
/// the shared id counter and the edit queue, and runs the per-frame
/// sequence input → animate → layout → hit-test → edits.
pub struct AppState {
    pub time_ticks: i64,
    pub scene_objects: Vec<SceneObject>,
    pub camera: Camera,
    pub active_settings_id: Option<u32>,
    pub requests: Vec<EditorRequest>,
    pub next_id: u32,
}

/// The controller invariant: node ids are unique, none exceeds the shared
/// counter, and the camera zoom sits in its clamped range.
pub open spec fn app_wf(a: AppState) -> bool {
    &&& wf_forest(forest_view(a.scene_objects@))
    &&& ids_bounded(forest_view(a.scene_objects@), a.next_id)
    &&& cam_wf(a.camera)
}

/// One childless node of the sample scene, with the default rotation speed
/// and no accumulated rotation.
pub open spec fn sample_leaf(id: u32, name: Seq<char>, shape: ShapeKind, color: Color) -> SpecNode {
    SpecNode {
        id,
        text: name,
        text_buffer: name,
        shape,
        color,
        rotation_speed: 20,
        current_rotation: 0,
        children: Seq::empty(),
    }
}

/// The scene the application starts with: a red square "Root" owning the
/// blue circle "Data" — whose children are the yellow square "Mesh" and the
/// orange triangle "Texture" — and the green triangle "Render", whose one
/// child is the purple circle "Shader".
pub open spec fn sample_forest() -> Seq<SpecNode> {
    seq![
        SpecNode {
            id: 1u32,
            text: "Root"@,
            text_buffer: "Root"@,
            shape: ShapeKind::Square,
            color: Color { r: 255, g: 0, b: 0, a: 255 },
            rotation_speed: 20,
            current_rotation: 0,
            children: seq![
                SpecNode {
                    id: 2u32,
                    text: "Data"@,
                    text_buffer: "Data"@,
                    shape: ShapeKind::Circle,
                    color: Color { r: 0, g: 0, b: 255, a: 255 },
                    rotation_speed: 20,
                    current_rotation: 0,
                    children: seq![
                        sample_leaf(
                            4,
                            "Mesh"@,
                            ShapeKind::Square,
                            Color { r: 255, g: 255, b: 0, a: 255 },
                        ),
                        sample_leaf(
                            5,
                            "Texture"@,
                            ShapeKind::Triangle,
                            Color { r: 255, g: 128, b: 0, a: 255 },
                        ),
                    ],
                },
                SpecNode {
                    id: 3u32,
                    text: "Render"@,
                    text_buffer: "Render"@,
                    shape: ShapeKind::Triangle,
                    color: Color { r: 0, g: 255, b: 0, a: 255 },
                    rotation_speed: 20,
                    current_rotation: 0,
                    children: seq![
                        sample_leaf(
                            6,
                            "Shader"@,
                            ShapeKind::Circle,
                            Color { r: 128, g: 0, b: 255, a: 255 },
                        ),
                    ],
                },
            ],
        },
    ]
}

impl AppState {
    /// A fresh controller holding the sample scene: a root with two
    /// branches, six nodes in all, ids 1 through 6 already drawn from the
    /// counter.
    pub fn new() -> (s: AppState)
        ensures
            app_wf(s),
            s.next_id == 6,
            forest_view(s.scene_objects@) == sample_forest(),
            forest_ids(forest_view(s.scene_objects@)) == seq![1u32, 2u32, 4u32, 5u32, 3u32, 6u32],
            s.requests@.len() == 0,
            s.active_settings_id is None,
            s.time_ticks == 0,
            s.camera == (Camera {
                target_x: 400,
                target_y: 450,
                zoom_milli: 1000,
                dragging: false,
                last_x: 0,
                last_y: 0,
            }),
    {
        let mut s = AppState {
            time_ticks: 0,
            scene_objects: Vec::new(),
            camera: Camera::new(),
            active_settings_id: None,
            requests: Vec::new(),
            next_id: 0,
        };
        let mut root = SceneObject::new(s.new_id(), "Root", ShapeKind::Square, Color::rgb(255, 0, 0));
        let mut a = SceneObject::new(s.new_id(), "Data", ShapeKind::Circle, Color::rgb(0, 0, 255));
        let mut b = SceneObject::new(
            s.new_id(),
            "Render",
            ShapeKind::Triangle,
            Color::rgb(0, 255, 0),
        );
        a.children.push(
            SceneObject::new(s.new_id(), "Mesh", ShapeKind::Square, Color::rgb(255, 255, 0)),
        );
        a.children.push(
            SceneObject::new(s.new_id(), "Texture", ShapeKind::Triangle, Color::rgb(255, 128, 0)),
        );
        b.children.push(
            SceneObject::new(s.new_id(), "Shader", ShapeKind::Circle, Color::rgb(128, 0, 255)),
        );
        proof {
            crate::model::lemma_forest_view_index(a.children@);
            crate::model::lemma_forest_view_index(b.children@);
            let af = forest_view(a.children@);
            assert(af.len() == 2);
            assert(node_ids(af[0]) =~= seq![4u32]);
            assert(node_ids(af[1]) =~= seq![5u32]);
            crate::model::lemma_forest_ids_first(af);
            assert(af.drop_first() =~= seq![af[1]]);
            crate::model::lemma_forest_ids_first(seq![af[1]]);
            assert(seq![af[1]].drop_first() =~= Seq::<SpecNode>::empty());
            assert(forest_ids(af) =~= seq![4u32, 5u32]);
            let bf = forest_view(b.children@);
            assert(bf.len() == 1);
            assert(node_ids(bf[0]) =~= seq![6u32]);
            crate::model::lemma_forest_ids_first(bf);
            assert(bf.drop_first() =~= Seq::<SpecNode>::empty());
            assert(forest_ids(bf) =~= seq![6u32]);
            assert(node_ids(node_view(a)) =~= seq![2u32, 4u32, 5u32]);
            assert(node_ids(node_view(b)) =~= seq![3u32, 6u32]);
            let sdata = sample_forest()[0].children[0];
            let srender = sample_forest()[0].children[1];
            assert(af[0] == sdata.children[0]);
            assert(af[1] == sdata.children[1]);
            assert(af =~= sdata.children);
            assert(node_view(a) =~= sdata);
            assert(bf[0] == srender.children[0]);
            assert(bf =~= srender.children);
            assert(node_view(b) =~= srender);
        }
        root.children.push(a);
        root.children.push(b);
        proof {
            crate::model::lemma_forest_view_index(root.children@);
            let rf = forest_view(root.children@);
            assert(rf.len() == 2);
            crate::model::lemma_forest_ids_first(rf);
            assert(rf.drop_first() =~= seq![rf[1]]);
            crate::model::lemma_forest_ids_first(seq![rf[1]]);
            assert(seq![rf[1]].drop_first() =~= Seq::<SpecNode>::empty());
            assert(forest_ids(rf) =~= seq![2u32, 4u32, 5u32, 3u32, 6u32]);
            assert(node_ids(node_view(root)) =~= seq![1u32, 2u32, 4u32, 5u32, 3u32, 6u32]);
            let sroot = sample_forest()[0];
            assert(rf[0] == sroot.children[0]);
            assert(rf[1] == sroot.children[1]);
            assert(rf =~= sroot.children);
            assert(node_view(root) =~= sroot);
        }
        s.scene_objects.push(root);
        proof {
            crate::model::lemma_forest_view_index(s.scene_objects@);
            let sf = forest_view(s.scene_objects@);
            assert(sf.len() == 1);
            crate::model::lemma_forest_ids_first(sf);
            assert(sf.drop_first() =~= Seq::<SpecNode>::empty());
            assert(forest_ids(sf) =~= seq![1u32, 2u32, 4u32, 5u32, 3u32, 6u32]);
            assert(sf[0] == sample_forest()[0]);
            assert(sf =~= sample_forest());
            assert(forest_ids(sf).no_duplicates());
            assert forall|id: u32| #[trigger] forest_ids(sf).contains(id) implies id <= 6 by {
                let j = choose|j: int| 0 <= j < forest_ids(sf).len() && forest_ids(sf)[j] == id;
            }
        }
        s
    }

    /// Runs the first half of a frame: camera input, animation, layout and
    /// click resolution. The returned layout map covers exactly the nodes
    /// of the (freshly animated) forest for this frame's draw pass.
    pub fn begin_frame(&mut self, input: &FrameInput) -> (m: HashMap<u32, Pos>)
        requires
            app_wf(*old(self)),
            forest_ids(forest_view(old(self).scene_objects@)).len() <= MAX_LAYOUT_NODES,
        ensures
            final(self).camera == spec_pointer_step(
                spec_apply_scroll(old(self).camera, input.scroll_delta_milli),
                input.secondary_down,
                input.pointer,
            ),
            forest_view(final(self).scene_objects@) == anim_forest(
                forest_view(old(self).scene_objects@),
                FRAME_TICKS as int,
            ),
            m@ == forest_layout(
                forest_view(final(self).scene_objects@),
                X_ORIGIN as int,
                Y_ORIGIN as int,
            ),
            final(self).active_settings_id == (match input.click {
                Some(c) => forest_hit(
                    forest_view(final(self).scene_objects@),
                    spec_screen_to_world(
                        final(self).camera,
                        c.0,
                        c.1,
                        input.offset_x,
                        input.offset_y,
                    ),
                    m@,
                ),
                None => old(self).active_settings_id,
            }),
            final(self).requests == old(self).requests,
            final(self).next_id == old(self).next_id,
            final(self).time_ticks as int == clamp_i64(old(self).time_ticks + FRAME_TICKS),
            app_wf(*final(self)),
    {
        let t: i128 = self.time_ticks as i128 + FRAME_TICKS as i128;
        self.time_ticks = if t > i64::MAX as i128 {
            i64::MAX
        } else if t < i64::MIN as i128 {
            i64::MIN
        } else {
            t as i64
        };
        self.camera.apply_scroll(input.scroll_delta_milli);
        self.camera.pointer_step(input.secondary_down, input.pointer);
        animate_forest(&mut self.scene_objects, FRAME_TICKS);
        proof {
            lemma_forest_anim_ids(forest_view(old(self).scene_objects@), FRAME_TICKS as int);
        }
        let m = layout_forest(&self.scene_objects);
        if let Some(c) = input.click {
            let w = self.camera.screen_to_world(c.0, c.1, input.offset_x, input.offset_y);
            self.active_settings_id = hit_test_forest(&self.scene_objects, w, &m);
        }
        m
    }

    /// Draws a fresh id from the shared counter: the single source of node
    /// identity, never recomputed from the tree's contents.
    pub fn new_id(&mut self) -> (id: u32)
        requires
            old(self).next_id < u32::MAX,
        ensures
            *final(self) == (AppState { next_id: (old(self).next_id + 1) as u32, ..*old(self) }),
            id == old(self).next_id + 1,
    {
        self.next_id = self.next_id + 1;
        self.next_id
    }

    /// Records a deferred child insertion under `parent_id`.
    pub fn queue_add_child(&mut self, parent_id: u32)
        ensures
            *final(self) == (AppState {
                requests: final(self).requests,
                ..*old(self)
            }),
            final(self).requests@ == old(self).requests@.push(
                EditorRequest::AddChild { parent_id },
            ),
    {
        self.requests.push(EditorRequest::AddChild { parent_id });
    }

    /// Records a deferred deletion of `node_id` and drops the active
    /// selection, which may be about to vanish.
    pub fn queue_delete(&mut self, node_id: u32)
        ensures
            *final(self) == (AppState {
                requests: final(self).requests,
                active_settings_id: None,
                ..*old(self)
            }),
            final(self).requests@ == old(self).requests@.push(
                EditorRequest::DeleteNode { node_id },
            ),
    {
        self.requests.push(EditorRequest::DeleteNode { node_id });
        self.active_settings_id = None;
    }

    /// Writes edited attributes into the node carrying `id`, as the
    /// settings panel does; a vanished node makes this a no-op.
    pub fn apply_node_edit(&mut self, id: u32, attrs: &NodeAttrs) -> (found: bool)
        requires
            app_wf(*old(self)),
        ensures
            ({
                let (r, f) = forest_set_attrs(
                    forest_view(old(self).scene_objects@),
                    id,
                    attrs_view(*attrs),
                );
                forest_view(final(self).scene_objects@) == r && found == f
            }),
            *final(self) == (AppState { scene_objects: final(self).scene_objects, ..*old(self) }),
            app_wf(*final(self)),
    {
        let found = set_node_attrs(&mut self.scene_objects, id, attrs);
        proof {
            lemma_forest_set_ids(forest_view(old(self).scene_objects@), id, attrs_view(*attrs));
        }
        found
    }

    /// Drains the edit queue against the forest, once per frame, after all
    /// UI interaction: requests apply in enqueue order and the queue is
    /// left empty.
    pub fn end_frame(&mut self)
        requires
            app_wf(*old(self)),
            old(self).next_id as int + count_adds(old(self).requests@) <= u32::MAX as int,
        ensures
            ({
                let (s2, n2) = spec_drain(
                    forest_view(old(self).scene_objects@),
                    old(self).next_id,
                    old(self).requests@,
                );
                forest_view(final(self).scene_objects@) == s2 && final(self).next_id == n2
            }),
            final(self).requests@.len() == 0,
            final(self).camera == old(self).camera,
            final(self).active_settings_id == old(self).active_settings_id,
            final(self).time_ticks == old(self).time_ticks,
            app_wf(*final(self)),
    {
        proof {
            lemma_drain_wf(
                forest_view(self.scene_objects@),
                self.next_id,
                self.requests@,
            );
        }
        process_requests(&mut self.scene_objects, &mut self.requests, &mut self.next_id);
    }
}

} // verus!
