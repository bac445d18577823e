//! The list of what is to be drawn to a camera, in the order of drawing.
use crate::entity::Entity;
use crate::scalar::Scalar;
use std::ops::Range;
use vstd::prelude::*;

verus! {

/// What decides on the variant of the pipeline that draws a node.
#[derive(Clone, Copy, PartialEq, Eq, Structural, Debug)]
pub struct UiPipelineKey {
    pub hdr: bool,
}

/// What a node is sorted by: by `stack`, and where that is the same, by `index`.
#[derive(Clone, Copy, PartialEq, Eq, Structural, Debug)]
pub struct SortKey {
    /// The place of the node in the order of drawing, as a number.
    pub stack: Scalar,
    /// The index of the entity of the node.
    pub index: u32,
}

/// A node in the list of a camera.
#[derive(Debug)]
pub struct TransparentUi {
    pub sort_key: SortKey,
    pub entity: Entity,
    pub pipeline: UiPipelineKey,
    pub draw_function: u32,
    /// As many nodes as are drawn together with this one, which is the first of them; nothing for
    /// a node that is not the first.
    pub batch_range: Range<u32>,
    pub dynamic_offset: Option<u32>,
}

/// The list of a camera.
#[derive(Debug)]
pub struct ViewPhase {
    pub camera: Entity,
    pub hdr: bool,
    pub items: Vec<TransparentUi>,
}

} // verus!
