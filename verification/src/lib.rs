pub mod camera;
pub mod filter;
pub mod graph;
pub mod state;
