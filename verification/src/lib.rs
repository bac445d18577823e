//! The decisions behind drawing a user interface: which nodes of the interface are drawn, into
//! which rectangles they are cut, in what order they are drawn and how they are grouped into
//! batches of vertices.
pub mod batch;
pub mod batch_laws;
pub mod camera;
pub mod count;
pub mod edges;
pub mod entity;
pub mod extract;
pub mod extract_laws;
pub mod geometry;
pub mod graph;
pub mod image;
pub mod nodes;
pub mod phase;
pub mod quad;
pub mod queue;
pub mod scalar;
pub mod text;
pub mod thickness;
