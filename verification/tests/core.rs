use scene_tree::editor::{AppState, EditorRequest, FrameInput};
use scene_tree::model::{Color, SceneObject, ShapeKind};
use scene_tree::ops::{
    add_child_node, count_nodes, find_and_delete_node, find_object_by_id, set_node_attrs,
    NodeAttrs,
};

fn leaf(id: u32, name: &str) -> SceneObject {
    SceneObject::new(id, name, ShapeKind::Square, Color::rgb(255, 255, 255))
}

fn sample() -> AppState {
    AppState::new()
}

#[test]
fn new_node_defaults() {
    let o = leaf(7, "Seven");
    assert_eq!(o.id, 7);
    assert_eq!(o.text, "Seven");
    assert_eq!(o.text_buffer, "Seven");
    assert_eq!(o.shape, ShapeKind::Square);
    assert_eq!(o.color, Color { r: 255, g: 255, b: 255, a: 255 });
    assert_eq!(o.rotation_speed, 20);
    assert_eq!(o.current_rotation, 0);
    assert!(o.children.is_empty());
}

#[test]
fn sample_tree_shape() {
    let s = sample();
    assert_eq!(s.next_id, 6);
    assert_eq!(s.scene_objects.len(), 1);
    let root = &s.scene_objects[0];
    assert_eq!(root.id, 1);
    assert_eq!(root.text, "Root");
    assert_eq!(root.shape, ShapeKind::Square);
    assert_eq!(root.color, Color { r: 255, g: 0, b: 0, a: 255 });
    assert_eq!(root.children.len(), 2);
    let data = &root.children[0];
    assert_eq!(data.id, 2);
    assert_eq!(data.text, "Data");
    assert_eq!(data.shape, ShapeKind::Circle);
    assert_eq!(data.color, Color { r: 0, g: 0, b: 255, a: 255 });
    assert_eq!(data.children.len(), 2);
    let mesh = &data.children[0];
    assert_eq!(mesh.id, 4);
    assert_eq!(mesh.text, "Mesh");
    assert_eq!(mesh.shape, ShapeKind::Square);
    assert_eq!(mesh.color, Color { r: 255, g: 255, b: 0, a: 255 });
    assert!(mesh.children.is_empty());
    let texture = &data.children[1];
    assert_eq!(texture.id, 5);
    assert_eq!(texture.text, "Texture");
    assert_eq!(texture.shape, ShapeKind::Triangle);
    assert_eq!(texture.color, Color { r: 255, g: 128, b: 0, a: 255 });
    assert!(texture.children.is_empty());
    let render = &root.children[1];
    assert_eq!(render.id, 3);
    assert_eq!(render.text, "Render");
    assert_eq!(render.shape, ShapeKind::Triangle);
    assert_eq!(render.color, Color { r: 0, g: 255, b: 0, a: 255 });
    assert_eq!(render.children.len(), 1);
    let shader = &render.children[0];
    assert_eq!(shader.id, 6);
    assert_eq!(shader.text, "Shader");
    assert_eq!(shader.shape, ShapeKind::Circle);
    assert_eq!(shader.color, Color { r: 128, g: 0, b: 255, a: 255 });
    assert!(shader.children.is_empty());
    for node in [root, data, mesh, texture, render, shader] {
        assert_eq!(node.rotation_speed, 20);
        assert_eq!(node.current_rotation, 0);
        assert_eq!(node.text_buffer, node.text);
    }
}

#[test]
fn count_walks_the_whole_forest() {
    let s = sample();
    assert_eq!(count_nodes(&s.scene_objects), 6);
    let mut two = vec![leaf(1, "A"), leaf(2, "B")];
    assert_eq!(count_nodes(&two), 2);
    two[0].children.push(leaf(3, "C"));
    assert_eq!(count_nodes(&two), 3);
    assert_eq!(count_nodes(&Vec::new()), 0);
}

#[test]
fn lookup_finds_each_node() {
    let s = sample();
    for id in 1..=6u32 {
        let found = find_object_by_id(&s.scene_objects, id);
        assert!(found.is_some());
        assert_eq!(found.unwrap().id, id);
    }
    assert!(find_object_by_id(&s.scene_objects, 99).is_none());
}

#[test]
fn delete_removes_node_and_descendants() {
    let mut s = sample();
    // Node 2 owns nodes 4 and 5; deleting it discards them too.
    let found = find_and_delete_node(&mut s.scene_objects, 2);
    assert!(found);
    for id in [2u32, 4, 5] {
        assert!(find_object_by_id(&s.scene_objects, id).is_none());
    }
    for id in [1u32, 3, 6] {
        assert!(find_object_by_id(&s.scene_objects, id).is_some());
    }
}

#[test]
fn delete_missing_id_is_noop() {
    let mut s = sample();
    let found = find_and_delete_node(&mut s.scene_objects, 42);
    assert!(!found);
    for id in 1..=6u32 {
        assert!(find_object_by_id(&s.scene_objects, id).is_some());
    }
}

#[test]
fn add_child_appends_under_parent() {
    let mut s = sample();
    let added = add_child_node(&mut s.scene_objects, 3, 7);
    assert!(added);
    let parent = find_object_by_id(&s.scene_objects, 3).unwrap();
    assert_eq!(parent.children.last().unwrap().id, 7);
    assert_eq!(parent.children.last().unwrap().text, "New Node");
    // A vanished parent makes the call a no-op.
    let mut s2 = sample();
    assert!(!add_child_node(&mut s2.scene_objects, 42, 7));
    assert!(find_object_by_id(&s2.scene_objects, 7).is_none());
}

#[test]
fn counter_advances_once_per_applied_add() {
    let mut s = sample();
    assert_eq!(s.next_id, 6);
    s.queue_add_child(1);
    s.queue_delete(3);
    s.queue_add_child(1);
    s.end_frame();
    // Two applied adds: fresh ids 7 then 8, the delete in between changing
    // nothing about the counter.
    assert_eq!(s.next_id, 8);
    assert!(find_object_by_id(&s.scene_objects, 7).is_some());
    assert!(find_object_by_id(&s.scene_objects, 8).is_some());
    assert!(find_object_by_id(&s.scene_objects, 3).is_none());
    assert!(s.requests.is_empty());
}

#[test]
fn draining_empty_queue_changes_nothing() {
    let mut s = sample();
    assert!(s.requests.is_empty());
    let before: Vec<u32> = (1..=6).collect();
    s.end_frame();
    assert_eq!(s.next_id, 6);
    for id in before {
        assert!(find_object_by_id(&s.scene_objects, id).is_some());
    }
    assert!(s.requests.is_empty());
}

#[test]
fn same_frame_add_then_delete_is_order_significant() {
    // AddChild under 3, then DeleteNode 3: the child appears and vanishes
    // with its parent.
    let mut s = sample();
    s.queue_add_child(3);
    s.queue_delete(3);
    s.end_frame();
    assert!(find_object_by_id(&s.scene_objects, 3).is_none());
    assert!(find_object_by_id(&s.scene_objects, 7).is_none());
    assert_eq!(s.next_id, 7);
    // DeleteNode 3 first, then AddChild under 3: the add is a no-op and the
    // counter does not move for it.
    let mut s2 = sample();
    s2.queue_delete(3);
    s2.queue_add_child(3);
    s2.end_frame();
    assert!(find_object_by_id(&s2.scene_objects, 3).is_none());
    assert_eq!(s2.next_id, 6);
}

#[test]
fn queue_delete_clears_selection() {
    let mut s = sample();
    s.active_settings_id = Some(3);
    s.queue_delete(3);
    assert_eq!(s.active_settings_id, None);
    assert_eq!(s.requests.len(), 1);
    assert!(matches!(s.requests[0], EditorRequest::DeleteNode { node_id: 3 }));
}

#[test]
fn attribute_edit_reaches_only_its_node() {
    let mut s = sample();
    let attrs = NodeAttrs {
        text: String::from("Material"),
        text_buffer: String::from("Material draft"),
        shape: ShapeKind::Circle,
        color: Color::rgba(1, 2, 3, 4),
        rotation_speed: -90,
    };
    assert!(set_node_attrs(&mut s.scene_objects, 5, &attrs));
    let edited = find_object_by_id(&s.scene_objects, 5).unwrap();
    assert_eq!(edited.text, "Material");
    assert_eq!(edited.text_buffer, "Material draft");
    assert_eq!(edited.shape, ShapeKind::Circle);
    assert_eq!(edited.color, Color { r: 1, g: 2, b: 3, a: 4 });
    assert_eq!(edited.rotation_speed, -90);
    let untouched = find_object_by_id(&s.scene_objects, 4).unwrap();
    assert_eq!(untouched.text, "Mesh");
    // A vanished node makes the edit a no-op.
    assert!(!set_node_attrs(&mut s.scene_objects, 42, &attrs));
}

#[test]
fn apply_node_edit_on_controller() {
    let mut s = sample();
    let attrs = NodeAttrs {
        text: String::from("Renamed"),
        text_buffer: String::from("Renamed"),
        shape: ShapeKind::Triangle,
        color: Color::rgb(9, 9, 9),
        rotation_speed: 45,
    };
    assert!(s.apply_node_edit(6, &attrs));
    assert_eq!(find_object_by_id(&s.scene_objects, 6).unwrap().text, "Renamed");
}

#[test]
fn frame_input_defaults_leave_selection() {
    let mut s = sample();
    s.active_settings_id = Some(4);
    let input = FrameInput {
        scroll_delta_milli: 0,
        secondary_down: false,
        pointer: None,
        click: None,
        offset_x: 0,
        offset_y: 0,
    };
    let _layout = s.begin_frame(&input);
    assert_eq!(s.active_settings_id, Some(4));
    assert_eq!(s.next_id, 6);
}
