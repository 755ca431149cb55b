//! The application state: the graph, the two filtered view lists, the two
//! text inputs, and the camera, with one update step per user message.

use vstd::prelude::*;

verus! {

use crate::camera::Camera;
use crate::filter::{filter_edges, filter_nodes, filtered_edge_rows, filtered_node_names};
use crate::graph::{add_node_post, sorted_by_name, Graph, NodeVal};

/// Every user action the interaction layer can feed into the state. The
/// caller performs the file write when it sees `SaveButtonPressed`; the
/// camera messages come from arrow keys and from scrolling over the
/// canvas, with the scroll delta in thousandths of the zoom factor.
#[derive(Clone, Debug)]
pub enum Message {
    NodeInputChanged(String),
    NodeInputSubmit,
    SaveButtonPressed,
    SearchInputChanged(String),
    CameraUp,
    CameraLeft,
    CameraRight,
    CameraDown,
    CameraZoom(i64),
}

pub struct AppState {
    pub graph: Graph,
    pub filtered_nodes: Vec<String>,
    pub filtered_edges: Vec<(String, String, String)>,
    pub node_input: String,
    pub search_input: String,
    pub camera: Camera,
}

impl AppState {
    /// Well-formed state: node names unique, camera within its bounds, and
    /// the two filtered lists exactly the filter's output for the current
    /// graph and query.
    pub open spec fn wf(self) -> bool {
        &&& self.graph.wf()
        &&& self.camera.wf()
        &&& self.filtered_nodes.deep_view() == filtered_node_names(
            self.graph.nodes@,
            self.search_input@,
        )
        &&& self.filtered_edges.deep_view() == filtered_edge_rows(
            self.graph.edges@,
            self.search_input@,
        )
    }

    /// Builds the state around a loaded (or fresh) graph: sorts the nodes,
    /// clears both inputs, resets the camera, and computes the filtered
    /// views for the empty query.
    pub fn new(graph: Graph) -> (r: AppState)
        requires
            graph.wf(),
        ensures
            r.wf(),
            sorted_by_name(r.graph.nodes@),
            r.graph.nodes@.to_multiset() == graph.nodes@.to_multiset(),
            r.graph.edges == graph.edges,
            r.node_input@.len() == 0,
            r.search_input@.len() == 0,
            r.camera.x == 0,
            r.camera.y == 0,
            r.camera.zoom_millis == crate::camera::ZOOM_UNIT_MILLIS,
    {
        let mut graph = graph;
        graph.sort();
        let filtered_nodes = filter_nodes(&graph, "");
        let filtered_edges = filter_edges(&graph, "");
        let state = AppState {
            graph,
            filtered_nodes,
            filtered_edges,
            node_input: String::new(),
            search_input: String::new(),
            camera: Camera::new(),
        };
        proof {
            reveal_strlit("");
            assert(""@ =~= state.search_input@);
        }
        state
    }

    /// Recomputes both filtered lists from the current graph and query.
    fn refilter(&mut self)
        ensures
            final (self).graph == old(self).graph,
            final (self).node_input == old(self).node_input,
            final (self).search_input == old(self).search_input,
            final (self).camera == old(self).camera,
            final (self).filtered_nodes.deep_view() == filtered_node_names(
                old(self).graph.nodes@,
                old(self).search_input@,
            ),
            final (self).filtered_edges.deep_view() == filtered_edge_rows(
                old(self).graph.edges@,
                old(self).search_input@,
            ),
    {
        self.filtered_nodes = filter_nodes(&self.graph, self.search_input.as_str());
        self.filtered_edges = filter_edges(&self.graph, self.search_input.as_str());
    }

    /// One step of the interaction loop. Typing updates the input fields;
    /// submitting a non-empty name adds (or overwrites) that node, clears
    /// the field, re-sorts and re-filters; a query change re-filters; a
    /// save request changes nothing here, as the caller does the writing;
    /// the camera messages pan and zoom within the camera's bounds.
    pub fn update(&mut self, message: Message)
        requires
            old(self).wf(),
        ensures
            final (self).wf(),
            match message {
                Message::NodeInputChanged(s) => {
                    &&& final (self).node_input == s
                    &&& final (self).graph == old(self).graph
                    &&& final (self).search_input == old(self).search_input
                    &&& final (self).filtered_nodes == old(self).filtered_nodes
                    &&& final (self).filtered_edges == old(self).filtered_edges
                    &&& final (self).camera == old(self).camera
                },
                Message::NodeInputSubmit => {
                    &&& old(self).node_input@.len() == 0 ==> *final (self) == *old(self)
                    &&& old(self).node_input@.len() > 0 ==> {
                        &&& exists|mid: Seq<crate::graph::Node>|
                            add_node_post(
                                old(self).graph.nodes@,
                                mid,
                                old(self).node_input@,
                                NodeVal::Empty,
                            ) && final (self).graph.nodes@.to_multiset() == mid.to_multiset()
                        &&& sorted_by_name(final (self).graph.nodes@)
                        &&& final (self).graph.edges == old(self).graph.edges
                        &&& final (self).node_input@.len() == 0
                        &&& final (self).search_input == old(self).search_input
                        &&& final (self).camera == old(self).camera
                    }
                },
                Message::SaveButtonPressed => *final (self) == *old(self),
                Message::SearchInputChanged(s) => {
                    &&& final (self).search_input == s
                    &&& final (self).graph == old(self).graph
                    &&& final (self).node_input == old(self).node_input
                    &&& final (self).camera == old(self).camera
                },
                Message::CameraUp => camera_only_change(*old(self), *final (self))
                    && final (self).camera.y == crate::camera::clamp_spec(
                    old(self).camera.y + crate::camera::PAN_STEP,
                    -crate::camera::POS_LIMIT as int,
                    crate::camera::POS_LIMIT as int,
                ) && final (self).camera.x == old(self).camera.x && final (self).camera.zoom_millis
                    == old(self).camera.zoom_millis,
                Message::CameraDown => camera_only_change(*old(self), *final (self))
                    && final (self).camera.y == crate::camera::clamp_spec(
                    old(self).camera.y - crate::camera::PAN_STEP,
                    -crate::camera::POS_LIMIT as int,
                    crate::camera::POS_LIMIT as int,
                ) && final (self).camera.x == old(self).camera.x && final (self).camera.zoom_millis
                    == old(self).camera.zoom_millis,
                Message::CameraLeft => camera_only_change(*old(self), *final (self))
                    && final (self).camera.x == crate::camera::clamp_spec(
                    old(self).camera.x - crate::camera::PAN_STEP,
                    -crate::camera::POS_LIMIT as int,
                    crate::camera::POS_LIMIT as int,
                ) && final (self).camera.y == old(self).camera.y && final (self).camera.zoom_millis
                    == old(self).camera.zoom_millis,
                Message::CameraRight => camera_only_change(*old(self), *final (self))
                    && final (self).camera.x == crate::camera::clamp_spec(
                    old(self).camera.x + crate::camera::PAN_STEP,
                    -crate::camera::POS_LIMIT as int,
                    crate::camera::POS_LIMIT as int,
                ) && final (self).camera.y == old(self).camera.y && final (self).camera.zoom_millis
                    == old(self).camera.zoom_millis,
                Message::CameraZoom(d) => camera_only_change(*old(self), *final (self))
                    && final (self).camera.zoom_millis == crate::camera::clamp_spec(
                    old(self).camera.zoom_millis + d,
                    crate::camera::ZOOM_MIN_MILLIS as int,
                    crate::camera::ZOOM_MAX_MILLIS as int,
                ) && final (self).camera.x == old(self).camera.x && final (self).camera.y == old(
                    self
                ).camera.y,
            },
    {
        match message {
            Message::NodeInputChanged(s) => {
                self.node_input = s;
            },
            Message::NodeInputSubmit => {
                if self.node_input.as_str().unicode_len() > 0 {
                    let _ = self.graph.add_node(self.node_input.as_str(), NodeVal::Empty);
                    let ghost mid = self.graph.nodes@;
                    self.node_input = String::new();
                    self.graph.sort();
                    self.refilter();
                    proof {
                        assert(add_node_post(
                            old(self).graph.nodes@,
                            mid,
                            old(self).node_input@,
                            NodeVal::Empty,
                        ));
                    }
                }
            },
            Message::SaveButtonPressed => {},
            Message::SearchInputChanged(s) => {
                self.search_input = s;
                self.refilter();
            },
            Message::CameraUp => {
                self.camera.pan_up();
            },
            Message::CameraDown => {
                self.camera.pan_down();
            },
            Message::CameraLeft => {
                self.camera.pan_left();
            },
            Message::CameraRight => {
                self.camera.pan_right();
            },
            Message::CameraZoom(d) => {
                self.camera.zoom_by(d);
            },
        }
    }
}

/// A discrete input event over the canvas, as the toolkit reports it: an
/// arrow key press, any other key press, a wheel scroll with its vertical
/// delta already scaled to thousandths of the zoom factor, any other
/// mouse event, or anything else.
#[derive(Clone, Copy, Debug)]
pub enum CanvasEvent {
    KeyUp,
    KeyLeft,
    KeyRight,
    KeyDown,
    OtherKey,
    Scroll(i64),
    OtherMouse,
    Other,
}

/// Maps a canvas input event to the message it becomes and says whether
/// the event is captured: events with the cursor off the canvas are
/// ignored, keyboard and mouse events over it are captured, the arrows
/// pan and a scroll zooms, and everything else carries no message.
pub fn canvas_message(cursor_in_bounds: bool, event: CanvasEvent) -> (r: (bool, Option<Message>))
    ensures
        !cursor_in_bounds ==> r == (false, Option::<Message>::None),
        cursor_in_bounds ==> r == match event {
            CanvasEvent::KeyUp => (true, Some(Message::CameraUp)),
            CanvasEvent::KeyLeft => (true, Some(Message::CameraLeft)),
            CanvasEvent::KeyRight => (true, Some(Message::CameraRight)),
            CanvasEvent::KeyDown => (true, Some(Message::CameraDown)),
            CanvasEvent::OtherKey => (true, Option::<Message>::None),
            CanvasEvent::Scroll(d) => (true, Some(Message::CameraZoom(d))),
            CanvasEvent::OtherMouse => (true, Option::<Message>::None),
            CanvasEvent::Other => (false, Option::<Message>::None),
        },
{
    if !cursor_in_bounds {
        return (false, None);
    }
    match event {
        CanvasEvent::KeyUp => (true, Some(Message::CameraUp)),
        CanvasEvent::KeyLeft => (true, Some(Message::CameraLeft)),
        CanvasEvent::KeyRight => (true, Some(Message::CameraRight)),
        CanvasEvent::KeyDown => (true, Some(Message::CameraDown)),
        CanvasEvent::OtherKey => (true, None),
        CanvasEvent::Scroll(d) => (true, Some(Message::CameraZoom(d))),
        CanvasEvent::OtherMouse => (true, None),
        CanvasEvent::Other => (false, None),
    }
}

/// Everything but the camera is untouched.
pub open spec fn camera_only_change(pre: AppState, post: AppState) -> bool {
    &&& post.graph == pre.graph
    &&& post.filtered_nodes == pre.filtered_nodes
    &&& post.filtered_edges == pre.filtered_edges
    &&& post.node_input == pre.node_input
    &&& post.search_input == pre.search_input
}

} // verus!
