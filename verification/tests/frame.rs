use scene_tree::anim::{animate, animate_forest};
use scene_tree::camera::Camera;
use scene_tree::editor::{AppState, FrameInput};
use scene_tree::hit::hit_test_forest;
use scene_tree::layout::{layout_forest, Pos};
use scene_tree::model::{Color, SceneObject, ShapeKind, ANGLE_UNITS_PER_DEGREE, TICKS_PER_SECOND};

fn leaf(id: u32, name: &str) -> SceneObject {
    SceneObject::new(id, name, ShapeKind::Square, Color::rgb(255, 255, 255))
}

fn count_ids(v: &Vec<SceneObject>, out: &mut Vec<u32>) {
    for o in v {
        out.push(o.id);
        count_ids(&o.children, out);
    }
}

#[test]
fn layout_covers_every_id_once() {
    let s = AppState::new();
    let m = layout_forest(&s.scene_objects);
    let mut ids = Vec::new();
    count_ids(&s.scene_objects, &mut ids);
    assert_eq!(m.len(), ids.len());
    for id in ids {
        assert!(m.get(&id).is_some());
    }
    assert!(m.get(&42).is_none());
}

#[test]
fn layout_is_deterministic() {
    let s = AppState::new();
    let m1 = layout_forest(&s.scene_objects);
    let m2 = layout_forest(&s.scene_objects);
    assert_eq!(m1.len(), m2.len());
    for (id, pos) in &m1 {
        assert_eq!(m2.get(id), Some(pos));
    }
}

#[test]
fn childless_root_sits_at_the_cursor_origin() {
    let v = vec![leaf(1, "Only")];
    let m = layout_forest(&v);
    assert_eq!(m.get(&1), Some(&Pos { x: 200, y: 100 }));
}

#[test]
fn sibling_leaves_stack_row_by_row() {
    let v = vec![leaf(1, "A"), leaf(2, "B"), leaf(3, "C")];
    let m = layout_forest(&v);
    assert_eq!(m.get(&1), Some(&Pos { x: 200, y: 100 }));
    assert_eq!(m.get(&2), Some(&Pos { x: 200, y: 220 }));
    assert_eq!(m.get(&3), Some(&Pos { x: 200, y: 340 }));
}

#[test]
fn parent_is_centered_over_its_children() {
    let mut root = leaf(1, "Root");
    root.children.push(leaf(2, "A"));
    root.children.push(leaf(3, "B"));
    let v = vec![root];
    let m = layout_forest(&v);
    // Children occupy rows at y = 100 and y = 220, a combined extent of
    // 240; the parent sits at 100 + 240/2 - 60 = 160, centered against it.
    assert_eq!(m.get(&2), Some(&Pos { x: 450, y: 100 }));
    assert_eq!(m.get(&3), Some(&Pos { x: 450, y: 220 }));
    assert_eq!(m.get(&1), Some(&Pos { x: 200, y: 160 }));
}

#[test]
fn hit_at_anchor_returns_the_node() {
    let v = vec![leaf(1, "A"), leaf(2, "B")];
    let m = layout_forest(&v);
    assert_eq!(hit_test_forest(&v, Pos { x: 200, y: 100 }, &m), Some(1));
    assert_eq!(hit_test_forest(&v, Pos { x: 200, y: 220 }, &m), Some(2));
    // Just inside the radius still hits; the radius itself does not.
    assert_eq!(hit_test_forest(&v, Pos { x: 219, y: 100 }, &m), Some(1));
    assert_eq!(hit_test_forest(&v, Pos { x: 220, y: 100 }, &m), None);
    assert_eq!(hit_test_forest(&v, Pos { x: 0, y: 0 }, &m), None);
}

#[test]
fn hit_prefers_preorder_parent_over_child() {
    let mut root = leaf(1, "Root");
    root.children.push(leaf(2, "A"));
    let v = vec![root];
    let mut m = layout_forest(&v);
    // Force both anchors onto the same point: the pre-order first node wins.
    let shared = Pos { x: 300, y: 300 };
    m.insert(1, shared);
    m.insert(2, shared);
    assert_eq!(hit_test_forest(&v, shared, &m), Some(1));
}

#[test]
fn rotation_advances_by_speed_times_dt() {
    // 90 degrees per second over half a second comes to 45 degrees.
    let mut o = leaf(1, "Spinner");
    o.rotation_speed = 90;
    o.current_rotation = 0;
    let half_second = TICKS_PER_SECOND / 2;
    animate(&mut o, half_second);
    assert_eq!(o.current_rotation, 45 * ANGLE_UNITS_PER_DEGREE);
}

#[test]
fn animation_recurses_into_all_descendants() {
    let mut root = leaf(1, "Root");
    let mut mid = leaf(2, "Mid");
    let mut deep = leaf(3, "Deep");
    deep.rotation_speed = -60;
    mid.children.push(deep);
    mid.rotation_speed = 30;
    root.children.push(mid);
    root.rotation_speed = 0;
    let mut v = vec![root];
    animate_forest(&mut v, TICKS_PER_SECOND);
    assert_eq!(v[0].current_rotation, 0);
    assert_eq!(v[0].children[0].current_rotation, 30 * ANGLE_UNITS_PER_DEGREE);
    assert_eq!(v[0].children[0].children[0].current_rotation, -60 * ANGLE_UNITS_PER_DEGREE);
}

#[test]
fn zoom_stays_clamped_through_any_scroll_sequence() {
    let mut c = Camera::new();
    assert_eq!(c.zoom_milli, 1000);
    c.apply_scroll(5000);
    assert_eq!(c.zoom_milli, 2000);
    c.apply_scroll(300);
    assert_eq!(c.zoom_milli, 2000);
    c.apply_scroll(-100000);
    assert_eq!(c.zoom_milli, 100);
    c.apply_scroll(-1);
    assert_eq!(c.zoom_milli, 100);
    c.apply_scroll(50);
    assert_eq!(c.zoom_milli, 150);
    for delta in [i64::MAX, i64::MIN, 12345, -54321] {
        c.apply_scroll(delta);
        assert!((100..=2000).contains(&c.zoom_milli));
    }
}

#[test]
fn pan_moves_target_against_pointer_motion() {
    let mut c = Camera::new();
    assert!(!c.dragging);
    // Pressing the secondary button captures the pointer.
    c.pointer_step(true, Some((10, 20)));
    assert!(c.dragging);
    // Moving by (+30, -40) at zoom 1.0 shifts the target by (-30, +40).
    c.pointer_step(true, Some((40, -20)));
    assert_eq!(c.target_x, 400 - 30);
    assert_eq!(c.target_y, 450 + 40);
    // Releasing the button ends the drag.
    c.pointer_step(false, Some((40, -20)));
    assert!(!c.dragging);
    // Without the button held, motion does not pan.
    c.pointer_step(false, Some((1000, 1000)));
    assert_eq!(c.target_x, 370);
    assert_eq!(c.target_y, 490);
}

#[test]
fn pan_scales_with_inverse_zoom() {
    let mut c = Camera::new();
    c.apply_scroll(-500);
    assert_eq!(c.zoom_milli, 500);
    c.pointer_step(true, Some((0, 0)));
    c.pointer_step(true, Some((100, 0)));
    // A 100-pixel drag at zoom 0.5 pans the world by 200.
    assert_eq!(c.target_x, 400 - 200);
}

#[test]
fn clicking_a_node_selects_it() {
    let mut s = AppState::new();
    // The root owns subtrees of extents 240 and 120, so it is centered at
    // world (200, 100 + 360/2 - 60) = (200, 220). With the default camera
    // (target 400/450, zoom 1.0) and a zero offset, the screen point that
    // lands there is (200 - 400, 220 - 450).
    let input = FrameInput {
        scroll_delta_milli: 0,
        secondary_down: false,
        pointer: None,
        click: Some((-200, -230)),
        offset_x: 0,
        offset_y: 0,
    };
    let layout = s.begin_frame(&input);
    assert_eq!(layout.get(&1), Some(&scene_tree::layout::Pos { x: 200, y: 220 }));
    assert_eq!(s.active_settings_id, Some(1));
    // A click into empty space clears the selection.
    let miss = FrameInput { click: Some((5000, 5000)), ..input };
    s.begin_frame(&miss);
    assert_eq!(s.active_settings_id, None);
}

#[test]
fn frame_applies_scroll_to_the_camera() {
    let mut s = AppState::new();
    let input = FrameInput {
        scroll_delta_milli: -500,
        secondary_down: false,
        pointer: None,
        click: None,
        offset_x: 0,
        offset_y: 0,
    };
    s.begin_frame(&input);
    assert_eq!(s.camera.zoom_milli, 500);
}

#[test]
fn screen_to_world_inverts_the_camera() {
    let c = Camera::new();
    // At zoom 1.0, world = screen - offset + target.
    let w = c.screen_to_world(500, 600, 400, 300);
    assert_eq!(w, Pos { x: 500 - 400 + 400, y: 600 - 300 + 450 });
}
