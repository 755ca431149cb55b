use aweb::camera::{Camera, PAN_STEP, ZOOM_MAX_MILLIS, ZOOM_MIN_MILLIS, ZOOM_UNIT_MILLIS};
use aweb::graph::Graph;
use aweb::state::{canvas_message, AppState, CanvasEvent, Message};

#[test]
fn adjusted_position_is_identity_at_origin() {
    let cam = Camera::new();
    assert_eq!(cam.zoom_millis, ZOOM_UNIT_MILLIS);
    assert_eq!(cam.adjusted_pos(5, 5), (5, 5));
}

#[test]
fn pan_left_shifts_world_right() {
    let mut cam = Camera::new();
    cam.pan_left();
    assert_eq!(cam.adjusted_pos(5, 5), (5 + PAN_STEP, 5));
}

#[test]
fn pan_axes_are_asymmetric() {
    let mut cam = Camera::new();
    cam.pan_up();
    // The transform adds the camera offset on the y axis.
    assert_eq!(cam.adjusted_pos(5, 5), (5, 5 + PAN_STEP));
    let mut cam2 = Camera::new();
    cam2.pan_right();
    assert_eq!(cam2.adjusted_pos(5, 5), (5 - PAN_STEP, 5));
}

#[test]
fn zoom_stays_positive_and_clamped() {
    let mut cam = Camera::new();
    cam.zoom_by(-1_000_000);
    assert_eq!(cam.zoom_millis, ZOOM_MIN_MILLIS);
    assert!(cam.zoom_millis > 0);
    cam.zoom_by(1_000_000);
    assert_eq!(cam.zoom_millis, ZOOM_MAX_MILLIS);
    cam.zoom_by(-500);
    assert_eq!(cam.zoom_millis, ZOOM_MAX_MILLIS - 500);
}

#[test]
fn marker_radius_scales_with_zoom() {
    let mut cam = Camera::new();
    assert_eq!(cam.marker_radius_millis(), 10 * ZOOM_UNIT_MILLIS);
    cam.zoom_by(1_000);
    assert_eq!(cam.marker_radius_millis(), 20_000);
}

#[test]
fn submitting_a_node_sorts_and_refilters() {
    let mut state = AppState::new(Graph::new());
    state.update(Message::NodeInputChanged("banana".to_string()));
    state.update(Message::NodeInputSubmit);
    state.update(Message::NodeInputChanged("apple".to_string()));
    state.update(Message::NodeInputSubmit);
    assert_eq!(state.node_input, "");
    let names: Vec<&str> = state.graph.nodes.iter().map(|n| n.name.as_str()).collect();
    assert_eq!(names, vec!["apple", "banana"]);
    assert_eq!(state.filtered_nodes, vec!["apple", "banana"]);
}

#[test]
fn submitting_an_empty_name_changes_nothing() {
    let mut state = AppState::new(Graph::new());
    state.update(Message::NodeInputSubmit);
    assert!(state.graph.nodes.is_empty());
    assert!(state.filtered_nodes.is_empty());
}

#[test]
fn search_change_refilters_both_lists() {
    let mut state = AppState::new(Graph::new());
    for name in ["amor", "amoris", "rosa"] {
        state.update(Message::NodeInputChanged(name.to_string()));
        state.update(Message::NodeInputSubmit);
    }
    state.update(Message::SearchInputChanged("amo".to_string()));
    assert_eq!(state.filtered_nodes, vec!["amor", "amoris"]);
    state.update(Message::SearchInputChanged("xyz".to_string()));
    assert!(state.filtered_nodes.is_empty());
    state.update(Message::SearchInputChanged("".to_string()));
    assert_eq!(state.filtered_nodes, vec!["amor", "amoris", "rosa"]);
}

#[test]
fn save_request_leaves_state_unchanged() {
    let mut state = AppState::new(Graph::new());
    state.update(Message::NodeInputChanged("foo".to_string()));
    state.update(Message::NodeInputSubmit);
    let before: Vec<String> = state.filtered_nodes.clone();
    state.update(Message::SaveButtonPressed);
    assert_eq!(state.filtered_nodes, before);
    assert_eq!(state.graph.nodes.len(), 1);
}

#[test]
fn canvas_events_off_canvas_are_ignored() {
    let (captured, msg) = canvas_message(false, CanvasEvent::KeyUp);
    assert!(!captured);
    assert!(msg.is_none());
}

#[test]
fn canvas_arrows_and_scroll_become_camera_messages() {
    assert!(matches!(canvas_message(true, CanvasEvent::KeyUp), (true, Some(Message::CameraUp))));
    assert!(matches!(
        canvas_message(true, CanvasEvent::KeyLeft),
        (true, Some(Message::CameraLeft))
    ));
    assert!(matches!(
        canvas_message(true, CanvasEvent::KeyRight),
        (true, Some(Message::CameraRight))
    ));
    assert!(matches!(
        canvas_message(true, CanvasEvent::KeyDown),
        (true, Some(Message::CameraDown))
    ));
    assert!(matches!(
        canvas_message(true, CanvasEvent::Scroll(250)),
        (true, Some(Message::CameraZoom(250)))
    ));
    assert!(matches!(canvas_message(true, CanvasEvent::OtherKey), (true, None)));
    assert!(matches!(canvas_message(true, CanvasEvent::OtherMouse), (true, None)));
    assert!(matches!(canvas_message(true, CanvasEvent::Other), (false, None)));
}

#[test]
fn camera_messages_drive_the_camera() {
    let mut state = AppState::new(Graph::new());
    state.update(Message::CameraLeft);
    state.update(Message::CameraUp);
    state.update(Message::CameraZoom(500));
    assert_eq!(state.camera.x, -PAN_STEP);
    assert_eq!(state.camera.y, PAN_STEP);
    assert_eq!(state.camera.zoom_millis, ZOOM_UNIT_MILLIS + 500);
    state.update(Message::CameraRight);
    state.update(Message::CameraDown);
    assert_eq!(state.camera.x, 0);
    assert_eq!(state.camera.y, 0);
}
