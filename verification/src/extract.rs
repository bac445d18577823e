//! Finding out which nodes of an interface are to be drawn, and as what.
//!
//! What a node is drawn at is computed elsewhere: the rows that come in hold numbers that were
//! computed from the layout, and what comes out is given its transform and its size afterwards.
use crate::edges::{BorderCorners, OutlineRects};
use crate::entity::Entity;
use crate::geometry::{Color, Mat4, Rect, Vec2};
use crate::image::ImageId;
use crate::nodes::{
    lemma_with_all_concat, lemma_with_all_push, with_all, ExtractedUiNode, ExtractedUiNodes,
};
use crate::scalar::Scalar;
use vstd::prelude::*;

verus! {

/// The camera that a node is drawn to: its own, or else the default one. There is a default camera
/// only where it is not ambiguous.
pub open spec fn spec_target_camera(camera: Option<Entity>, default: Option<Entity>) -> Option<
    Entity,
> {
    match camera {
        Some(camera) => Some(camera),
        None => default,
    }
}

/// The camera that a node is drawn to, if there is one.
pub fn target_camera(camera: Option<Entity>, default: Option<Entity>) -> (r: Option<Entity>)
    ensures
        r == spec_target_camera(camera, default),
{
    match camera {
        Some(camera) => Some(camera),
        None => default,
    }
}

/// What all rectangles of a border or an outline have in common.
#[derive(Clone, Copy, PartialEq, Eq, Structural, Debug)]
pub struct EdgeStyle {
    pub stack_index: u32,
    pub color: Color,
    pub clip: Option<Rect>,
    pub camera: Entity,
}

/// A rectangle of a border or an outline, around the center of its node.
#[derive(Clone, Copy, PartialEq, Eq, Structural, Debug)]
pub struct EdgePlan {
    /// The row of the node.
    pub row: usize,
    pub edge: Rect,
    pub style: EdgeStyle,
}

/// The rectangles that have an inside, in order.
pub open spec fn drawn_edges(edges: Seq<Rect>) -> Seq<Rect> {
    edges.filter(|edge: Rect| edge.has_area())
}

/// The rectangles of a node that are drawn.
pub open spec fn edge_plans(row: int, edges: Seq<Rect>, style: EdgeStyle) -> Seq<EdgePlan> {
    drawn_edges(edges).map_values(|edge: Rect| EdgePlan { row: row as usize, edge, style })
}

/// Adds those of four rectangles that have an inside.
fn push_edges(plans: &mut Vec<EdgePlan>, row: usize, edges: [Rect; 4], style: EdgeStyle)
    ensures
        final(plans)@ == old(plans)@ + edge_plans(row as int, edges@, style),
{
    let ghost before = plans@;
    proof {
        reveal(Seq::filter);
        assert(before + edge_plans(row as int, edges@.take(0), style) =~= before);
    }
    for k in 0..4
        invariant
            edges@.len() == 4,
            plans@ == before + edge_plans(row as int, edges@.take(k as int), style),
    {
        let edge = edges[k];
        proof {
            reveal(Seq::filter);
            assert(edges@.take(k + 1).drop_last() =~= edges@.take(k as int));
            assert(edges@.take(k + 1).last() == edge);
        }
        if edge.is_drawn() {
            plans.push(EdgePlan { row, edge, style });
        }
        assert(plans@ =~= before + edge_plans(row as int, edges@.take(k + 1), style));
    }
    assert(edges@.take(4) =~= edges@);
}

/// A node that may have a border.
#[derive(Clone, Copy, PartialEq, Eq, Structural, Debug)]
pub struct BorderRow {
    pub stack_index: u32,
    pub size: Vec2,
    pub corners: BorderCorners,
    pub color: Color,
    pub visible: bool,
    pub clip: Option<Rect>,
    pub camera: Option<Entity>,
}

impl BorderRow {
    /// The camera that the border is drawn to. An invisible or transparent border, and that of a
    /// node without an area, is not drawn.
    pub open spec fn spec_drawn_to(self, default: Option<Entity>) -> Option<Entity> {
        if !self.visible || self.color.spec_is_fully_transparent() || self.size.x.less_or_same(
            Scalar::spec_zero(),
        ) || self.size.y.less_or_same(Scalar::spec_zero()) {
            None
        } else {
            spec_target_camera(self.camera, default)
        }
    }

    /// The camera that the border is drawn to, if it is drawn.
    pub fn drawn_to(&self, default: Option<Entity>) -> (r: Option<Entity>)
        ensures
            r == self.spec_drawn_to(default),
    {
        let zero = Scalar::zero();
        if !self.visible || self.color.is_fully_transparent() || self.size.x.le(zero)
            || self.size.y.le(zero) {
            None
        } else {
            target_camera(self.camera, default)
        }
    }

    /// The rectangles of the border that are drawn.
    pub open spec fn plans(self, row: int, default: Option<Entity>) -> Seq<EdgePlan> {
        match self.spec_drawn_to(default) {
            Some(camera) => edge_plans(
                row,
                self.corners.spec_edges(),
                EdgeStyle {
                    stack_index: self.stack_index,
                    color: self.color,
                    clip: self.clip,
                    camera,
                },
            ),
            None => Seq::empty(),
        }
    }
}

/// The rectangles of the borders of some nodes.
pub open spec fn border_plans(rows: Seq<BorderRow>, default: Option<Entity>) -> Seq<EdgePlan>
    decreases rows.len(),
{
    if rows.len() == 0 {
        Seq::empty()
    } else {
        border_plans(rows.drop_last(), default) + rows.last().plans(rows.len() - 1, default)
    }
}

/// The rectangles of the borders that are drawn.
pub fn extract_uinode_borders(rows: &Vec<BorderRow>, default_camera: Option<Entity>) -> (r: Vec<
    EdgePlan,
>)
    ensures
        r@ == border_plans(rows@, default_camera),
{
    let mut plans: Vec<EdgePlan> = Vec::new();
    for k in 0..rows.len()
        invariant
            plans@ == border_plans(rows@.take(k as int), default_camera),
    {
        let row = rows[k];
        proof {
            assert(rows@.take(k + 1).drop_last() =~= rows@.take(k as int));
            assert(rows@.take(k + 1).last() == row);
        }
        match row.drawn_to(default_camera) {
            Some(camera) => {
                let style = EdgeStyle {
                    stack_index: row.stack_index,
                    color: row.color,
                    clip: row.clip,
                    camera,
                };
                push_edges(&mut plans, k, row.corners.edges(), style);
            },
            None => {},
        }
        assert(plans@ =~= border_plans(rows@.take(k + 1), default_camera));
    }
    assert(rows@.take(rows@.len() as int) =~= rows@);
    plans
}

/// A node that may have an outline.
#[derive(Clone, Copy, PartialEq, Eq, Structural, Debug)]
pub struct OutlineRow {
    pub stack_index: u32,
    pub width: Scalar,
    /// Where the outline lies, if it is drawn. What it runs around is of no negative size.
    pub rects: Option<OutlineRects>,
    pub color: Color,
    pub visible: bool,
    pub clip: Option<Rect>,
    pub camera: Option<Entity>,
}

impl OutlineRow {
    /// The camera that the outline is drawn to. An invisible or transparent outline, and one
    /// without a width, is not drawn.
    pub open spec fn spec_drawn_to(self, default: Option<Entity>) -> Option<Entity> {
        if !self.visible || self.color.spec_is_fully_transparent() || self.width.same(
            Scalar::spec_zero(),
        ) {
            None
        } else {
            spec_target_camera(self.camera, default)
        }
    }

    /// The camera that the outline is drawn to, if it is drawn.
    pub fn drawn_to(&self, default: Option<Entity>) -> (r: Option<Entity>)
        ensures
            r == self.spec_drawn_to(default),
    {
        if !self.visible || self.color.is_fully_transparent() || self.width.num_eq(
            Scalar::zero(),
        ) {
            None
        } else {
            target_camera(self.camera, default)
        }
    }

    /// The rectangles of the outline that are drawn.
    pub open spec fn plans(self, row: int, default: Option<Entity>) -> Seq<EdgePlan> {
        match self.spec_drawn_to(default) {
            Some(camera) => edge_plans(
                row,
                self.rects->0.spec_edges(),
                EdgeStyle {
                    stack_index: self.stack_index,
                    color: self.color,
                    clip: self.clip,
                    camera,
                },
            ),
            None => Seq::empty(),
        }
    }
}

/// The rectangles of the outlines of some nodes.
pub open spec fn outline_plans(rows: Seq<OutlineRow>, default: Option<Entity>) -> Seq<EdgePlan>
    decreases rows.len(),
{
    if rows.len() == 0 {
        Seq::empty()
    } else {
        outline_plans(rows.drop_last(), default) + rows.last().plans(rows.len() - 1, default)
    }
}

/// The rectangles of the outlines that are drawn.
pub fn extract_uinode_outlines(rows: &Vec<OutlineRow>, default_camera: Option<Entity>) -> (r: Vec<
    EdgePlan,
>)
    requires
        forall|k: int|
            0 <= k < rows@.len() && (#[trigger] rows@[k]).spec_drawn_to(default_camera) is Some
                ==> rows@[k].rects is Some && rows@[k].rects->0.inner.is_ordered(),
    ensures
        r@ == outline_plans(rows@, default_camera),
{
    let mut plans: Vec<EdgePlan> = Vec::new();
    for k in 0..rows.len()
        invariant
            forall|k: int|
                0 <= k < rows@.len() && (#[trigger] rows@[k]).spec_drawn_to(default_camera) is Some
                    ==> rows@[k].rects is Some,
            plans@ == outline_plans(rows@.take(k as int), default_camera),
    {
        let row = rows[k];
        proof {
            assert(rows@.take(k + 1).drop_last() =~= rows@.take(k as int));
            assert(rows@.take(k + 1).last() == row);
        }
        match (row.drawn_to(default_camera), row.rects) {
            (Some(camera), Some(rects)) => {
                let style = EdgeStyle {
                    stack_index: row.stack_index,
                    color: row.color,
                    clip: row.clip,
                    camera,
                };
                push_edges(&mut plans, k, rects.edges(), style);
            },
            _ => {},
        }
        assert(plans@ =~= outline_plans(rows@.take(k + 1), default_camera));
    }
    assert(rows@.take(rows@.len() as int) =~= rows@);
    plans
}

/// Where a rectangle of a border or an outline is drawn.
#[derive(Clone, Copy, PartialEq, Eq, Structural, Debug)]
pub struct EdgePlacement {
    /// The entity that is made for the rectangle.
    pub entity: Entity,
    /// To the center of the rectangle.
    pub transform: Mat4,
    pub size: Vec2,
}

/// A rectangle of a border or an outline: a plain area of its color.
pub open spec fn spec_edge_node(plan: EdgePlan, placement: EdgePlacement) -> ExtractedUiNode {
    ExtractedUiNode {
        stack_index: plan.style.stack_index,
        transform: placement.transform,
        color: plan.style.color,
        rect: Rect { min: Vec2::spec_zero(), max: placement.size },
        image: ImageId::spec_none(),
        atlas_size: None,
        clip: plan.style.clip,
        flip_x: false,
        flip_y: false,
        camera_entity: plan.style.camera,
    }
}

/// The rectangles of borders or outlines, each under its entity.
pub open spec fn edge_entries(plans: Seq<EdgePlan>, placements: Seq<EdgePlacement>) -> Seq<
    (Entity, ExtractedUiNode),
> {
    Seq::new(
        plans.len(),
        |k: int| (placements[k].entity, spec_edge_node(plans[k], placements[k])),
    )
}

/// Adds the rectangles of borders or outlines to the nodes that are to be drawn.
pub fn place_edges(
    extracted_uinodes: &mut ExtractedUiNodes,
    plans: &Vec<EdgePlan>,
    placements: &Vec<EdgePlacement>,
)
    requires
        plans@.len() == placements@.len(),
    ensures
        final(extracted_uinodes)@ == with_all(
            old(extracted_uinodes)@,
            edge_entries(plans@, placements@),
        ),
{
    let ghost before = extracted_uinodes@;
    let ghost entries = edge_entries(plans@, placements@);
    for k in 0..plans.len()
        invariant
            plans@.len() == placements@.len(),
            entries == edge_entries(plans@, placements@),
            extracted_uinodes@ == with_all(before, entries.take(k as int)),
    {
        let plan = plans[k];
        let placement = placements[k];
        let node = ExtractedUiNode {
            stack_index: plan.style.stack_index,
            transform: placement.transform,
            color: plan.style.color,
            rect: Rect { min: Vec2::zero(), max: placement.size },
            image: ImageId::none(),
            atlas_size: None,
            clip: plan.style.clip,
            flip_x: false,
            flip_y: false,
            camera_entity: plan.style.camera,
        };
        proof {
            assert(entries.take(k + 1) =~= entries.take(k as int).push((placement.entity, node)));
            lemma_with_all_push(before, entries.take(k as int), placement.entity, node);
        }
        extracted_uinodes.insert(placement.entity, node);
    }
    assert(entries.take(entries.len() as int) =~= entries);
}

/// The image that a node shows.
#[derive(Clone, Copy, PartialEq, Eq, Structural, Debug)]
pub struct UiImage {
    pub texture: ImageId,
    pub flip_x: bool,
    pub flip_y: bool,
}

/// The part of an atlas that a node shows.
#[derive(Clone, Copy, PartialEq, Eq, Structural, Debug)]
pub enum AtlasFrame {
    /// The layout of the atlas is not there.
    MissingLayout,
    /// A part of an atlas, and its size, in the scale of the node.
    Frame { rect: Rect, size: Vec2 },
}

/// A node with a background.
#[derive(Debug)]
pub struct UiNodeRow {
    pub entity: Entity,
    pub stack_index: u32,
    pub size: Vec2,
    pub transform: Mat4,
    pub color: Color,
    pub image: Option<UiImage>,
    pub visible: bool,
    pub clip: Option<Rect>,
    pub atlas: Option<AtlasFrame>,
    pub camera: Option<Entity>,
    /// The pieces that the image is cut into, each with the entity that is made for it.
    pub slices: Option<Vec<(Entity, ExtractedUiNode)>>,
}

impl UiNodeRow {
    /// The camera that the node is drawn to. An invisible or transparent node is not drawn.
    pub open spec fn spec_drawn_to(self, default: Option<Entity>) -> Option<Entity> {
        if !self.visible || self.color.spec_is_fully_transparent() {
            None
        } else {
            spec_target_camera(self.camera, default)
        }
    }

    /// The camera that the node is drawn to, if it is drawn.
    pub fn drawn_to(&self, default: Option<Entity>) -> (r: Option<Entity>)
        ensures
            r == self.spec_drawn_to(default),
    {
        if !self.visible || self.color.is_fully_transparent() {
            None
        } else {
            target_camera(self.camera, default)
        }
    }

    /// The node as it is drawn in one piece.
    pub open spec fn whole_node(self, camera: Entity) -> ExtractedUiNode {
        ExtractedUiNode {
            stack_index: self.stack_index,
            transform: self.transform,
            color: self.color,
            rect: match self.atlas {
                Some(AtlasFrame::Frame { rect, .. }) => rect,
                _ => Rect { min: Vec2::spec_zero(), max: self.size },
            },
            image: match self.image {
                Some(image) => image.texture,
                None => ImageId::spec_none(),
            },
            atlas_size: match self.atlas {
                Some(AtlasFrame::Frame { size, .. }) => Some(size),
                _ => None,
            },
            clip: self.clip,
            flip_x: self.image is Some && self.image->0.flip_x,
            flip_y: self.image is Some && self.image->0.flip_y,
            camera_entity: camera,
        }
    }

    /// What is drawn of the node. The pieces of an image take the place of the node. A node whose
    /// atlas is missing is not drawn.
    pub open spec fn entries(self, default: Option<Entity>) -> Seq<(Entity, ExtractedUiNode)> {
        match self.spec_drawn_to(default) {
            None => Seq::empty(),
            Some(camera) => {
                if self.image is Some && self.slices is Some {
                    self.slices->0@
                } else if self.atlas == Some(AtlasFrame::MissingLayout) {
                    Seq::empty()
                } else {
                    seq![(self.entity, self.whole_node(camera))]
                }
            },
        }
    }
}

/// What is drawn of some nodes.
pub open spec fn node_entries(rows: Seq<UiNodeRow>, default: Option<Entity>) -> Seq<
    (Entity, ExtractedUiNode),
>
    decreases rows.len(),
{
    if rows.len() == 0 {
        Seq::empty()
    } else {
        node_entries(rows.drop_last(), default) + rows.last().entries(default)
    }
}

/// Adds the nodes with a background to those that are to be drawn.
pub fn extract_uinodes(
    extracted_uinodes: &mut ExtractedUiNodes,
    rows: &Vec<UiNodeRow>,
    default_camera: Option<Entity>,
)
    ensures
        final(extracted_uinodes)@ == with_all(
            old(extracted_uinodes)@,
            node_entries(rows@, default_camera),
        ),
{
    let ghost before = extracted_uinodes@;
    for k in 0..rows.len()
        invariant
            extracted_uinodes@ == with_all(
                before,
                node_entries(rows@.take(k as int), default_camera),
            ),
    {
        let row = &rows[k];
        let ghost earlier = extracted_uinodes@;
        proof {
            assert(rows@.take(k + 1).drop_last() =~= rows@.take(k as int));
            assert(rows@.take(k + 1).last() == rows@[k as int]);
            lemma_with_all_concat(
                before,
                node_entries(rows@.take(k as int), default_camera),
                row.entries(default_camera),
            );
        }
        if let Some(camera) = row.drawn_to(default_camera) {
            let mut sliced = false;
            if row.image.is_some() {
                if let Some(slices) = &row.slices {
                    extracted_uinodes.insert_all(slices);
                    sliced = true;
                }
            }
            if !sliced {
                let (image, flip_x, flip_y) = match row.image {
                    Some(image) => (image.texture, image.flip_x, image.flip_y),
                    None => (ImageId::none(), false, false),
                };
                let shown: Option<(Rect, Option<Vec2>)> = match row.atlas {
                    Some(AtlasFrame::MissingLayout) => None,
                    Some(AtlasFrame::Frame { rect, size }) => Some((rect, Some(size))),
                    None => Some((Rect { min: Vec2::zero(), max: row.size }, None)),
                };
                if let Some((rect, atlas_size)) = shown {
                    let node = ExtractedUiNode {
                        stack_index: row.stack_index,
                        transform: row.transform,
                        color: row.color,
                        rect,
                        image,
                        atlas_size,
                        clip: row.clip,
                        flip_x,
                        flip_y,
                        camera_entity: camera,
                    };
                    proof {
                        let none = Seq::<(Entity, ExtractedUiNode)>::empty();
                        assert(row.entries(default_camera) =~= none.push((row.entity, node)));
                        lemma_with_all_push(earlier, none, row.entity, node);
                    }
                    extracted_uinodes.insert(row.entity, node);
                }
            }
        }
    }
    assert(rows@.take(rows@.len() as int) =~= rows@);
}

} // verus!
