//! A scene-tree visualizer core: a forest of animated, colored shapes with
//! recursive layout, hit-testing, camera pan/zoom, and a deferred edit queue.
//!
//! Everything here is plain data and integer arithmetic; the hosting GUI
//! toolkit supplies input events and a draw surface around this library.

pub mod anim;
pub mod camera;
pub mod editor;
pub mod hit;
pub mod laws;
pub mod layout;
pub mod model;
pub mod ops;
