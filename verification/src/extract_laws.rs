//! What holds of the nodes that are found to be drawn.
use crate::entity::Entity;
use crate::extract::{
    border_plans, drawn_edges, edge_entries, edge_plans, node_entries, outline_plans, AtlasFrame,
    BorderRow, EdgePlacement, EdgePlan, EdgeStyle, OutlineRow, UiNodeRow,
};
use crate::geometry::{law_area, Color, Rect};
use crate::nodes::ExtractedUiNode;
use crate::quad::is_plain;
use crate::scalar::Scalar;
use crate::text::{text_entries, Glyph, TextRow};
use vstd::prelude::*;

verus! {

/// A node without a camera of its own is ignored where there is no default camera: neither its
/// border nor its outline, neither its background nor its text is drawn.
pub proof fn law_node_without_camera_is_ignored(
    border: BorderRow,
    outline: OutlineRow,
    background: UiNodeRow,
    text: TextRow,
    row: int,
)
    requires
        border.camera is None,
        outline.camera is None,
        background.camera is None,
        text.camera is None,
    ensures
        border.plans(row, None) == Seq::<EdgePlan>::empty(),
        outline.plans(row, None) == Seq::<EdgePlan>::empty(),
        background.entries(None) == Seq::<(Entity, ExtractedUiNode)>::empty(),
        text.entries(None) == Seq::<(Entity, ExtractedUiNode)>::empty(),
{
}

/// Nothing of an invisible node is drawn.
pub proof fn law_invisible_node_is_not_drawn(
    border: BorderRow,
    outline: OutlineRow,
    background: UiNodeRow,
    text: TextRow,
    row: int,
    default: Option<Entity>,
)
    requires
        !border.visible,
        !outline.visible,
        !background.visible,
        !text.visible,
    ensures
        border.plans(row, default) == Seq::<EdgePlan>::empty(),
        outline.plans(row, default) == Seq::<EdgePlan>::empty(),
        background.entries(default) == Seq::<(Entity, ExtractedUiNode)>::empty(),
        text.entries(default) == Seq::<(Entity, ExtractedUiNode)>::empty(),
{
}

/// No border, outline or background is drawn in a color that cannot be seen.
pub proof fn law_transparent_color_is_not_drawn(
    border: BorderRow,
    outline: OutlineRow,
    background: UiNodeRow,
    row: int,
    default: Option<Entity>,
)
    requires
        border.color.spec_is_fully_transparent(),
        outline.color.spec_is_fully_transparent(),
        background.color.spec_is_fully_transparent(),
    ensures
        border.plans(row, default) == Seq::<EdgePlan>::empty(),
        outline.plans(row, default) == Seq::<EdgePlan>::empty(),
        background.entries(default) == Seq::<(Entity, ExtractedUiNode)>::empty(),
{
}

/// A node with a camera of its own is drawn to it, whatever the default camera is.
pub proof fn law_own_camera_goes_first(
    border: BorderRow,
    outline: OutlineRow,
    background: UiNodeRow,
    text: TextRow,
    default: Option<Entity>,
    other: Option<Entity>,
)
    requires
        border.camera is Some,
        outline.camera is Some,
        background.camera is Some,
        text.camera is Some,
    ensures
        border.spec_drawn_to(default) == border.spec_drawn_to(other),
        outline.spec_drawn_to(default) == outline.spec_drawn_to(other),
        background.spec_drawn_to(default) == background.spec_drawn_to(other),
        text.spec_drawn_to(default) == text.spec_drawn_to(other),
        border.spec_drawn_to(default) is Some ==> border.spec_drawn_to(default) == border.camera,
        outline.spec_drawn_to(default) is Some ==> outline.spec_drawn_to(default)
            == outline.camera,
        background.spec_drawn_to(default) is Some ==> background.spec_drawn_to(default)
            == background.camera,
        text.spec_drawn_to(default) is Some ==> text.spec_drawn_to(default) == text.camera,
{
}

/// What is drawn of some nodes and of others is what is drawn of all of them.
pub proof fn law_backgrounds_do_not_depend_on_others(
    first: Seq<UiNodeRow>,
    second: Seq<UiNodeRow>,
    default: Option<Entity>,
)
    ensures
        node_entries(first + second, default) == node_entries(first, default) + node_entries(
            second,
            default,
        ),
    decreases second.len(),
{
    if second.len() == 0 {
        assert(first + second =~= first);
        assert(node_entries(first, default) + node_entries(second, default) =~= node_entries(
            first,
            default,
        ));
    } else {
        assert((first + second).drop_last() =~= first + second.drop_last());
        assert((first + second).last() == second.last());
        law_backgrounds_do_not_depend_on_others(first, second.drop_last(), default);
        assert(node_entries(first + second, default) =~= node_entries(first, default)
            + node_entries(second, default));
    }
}

/// What is drawn of some texts and of others is what is drawn of all of them.
pub proof fn law_texts_do_not_depend_on_others(
    first: Seq<TextRow>,
    second: Seq<TextRow>,
    default: Option<Entity>,
)
    ensures
        text_entries(first + second, default) == text_entries(first, default) + text_entries(
            second,
            default,
        ),
    decreases second.len(),
{
    if second.len() == 0 {
        assert(first + second =~= first);
        assert(text_entries(first, default) + text_entries(second, default) =~= text_entries(
            first,
            default,
        ));
    } else {
        assert((first + second).drop_last() =~= first + second.drop_last());
        assert((first + second).last() == second.last());
        law_texts_do_not_depend_on_others(first, second.drop_last(), default);
        assert(text_entries(first + second, default) =~= text_entries(first, default)
            + text_entries(second, default));
    }
}

/// The drawn rectangles of a node are its rectangles that have an inside.
proof fn lemma_edge_plans(row: int, edges: Seq<Rect>, style: EdgeStyle)
    ensures
        forall|i: int|
            #![trigger edge_plans(row, edges, style)[i]]
            0 <= i < edge_plans(row, edges, style).len() ==> {
                let plan = edge_plans(row, edges, style)[i];
                &&& plan.row == row as usize
                &&& plan.style == style
                &&& plan.edge.has_area()
                &&& edges.contains(plan.edge)
            },
        forall|e: int|
            #![trigger edges[e]]
            0 <= e < edges.len() && edges[e].has_area() ==> edge_plans(
                row,
                edges,
                style,
            ).contains(EdgePlan { row: row as usize, edge: edges[e], style }),
{
    let pred = |edge: Rect| edge.has_area();
    let drawn = drawn_edges(edges);
    let plans = edge_plans(row, edges, style);
    assert forall|i: int| #![trigger plans[i]] 0 <= i < plans.len() implies {
        &&& plans[i].row == row as usize
        &&& plans[i].style == style
        &&& plans[i].edge.has_area()
        &&& edges.contains(plans[i].edge)
    } by {
        assert(plans[i].edge == drawn[i]);
        edges.lemma_filter_pred(pred, i);
        assert(drawn.contains(drawn[i]));
        edges.lemma_filter_contains_rev(pred, drawn[i]);
    }
    assert forall|e: int|
        #![trigger edges[e]]
        0 <= e < edges.len() && edges[e].has_area() implies plans.contains(
        EdgePlan { row: row as usize, edge: edges[e], style },
    ) by {
        edges.lemma_filter_contains(pred, e);
        let i = choose|i: int| 0 <= i < drawn.len() && drawn[i] == edges[e];
        assert(plans[i] == EdgePlan { row: row as usize, edge: edges[e], style });
    }
}

/// Each drawn rectangle is one of the borders of a node that is drawn, and has an inside.
pub proof fn law_drawn_borders_are_borders(
    rows: Seq<BorderRow>,
    default: Option<Entity>,
    i: int,
)
    requires
        rows.len() <= usize::MAX,
        0 <= i < border_plans(rows, default).len(),
    ensures
        ({
            let plan = border_plans(rows, default)[i];
            let row = rows[plan.row as int];
            &&& plan.row < rows.len()
            &&& plan.edge.has_area()
            &&& row.corners.spec_edges().contains(plan.edge)
            &&& row.spec_drawn_to(default) == Some(plan.style.camera)
            &&& plan.style.stack_index == row.stack_index
            &&& plan.style.color == row.color
            &&& plan.style.clip == row.clip
        }),
    decreases rows.len(),
{
    if rows.len() > 0 {
        let before = border_plans(rows.drop_last(), default);
        if i < before.len() {
            law_drawn_borders_are_borders(rows.drop_last(), default, i);
        } else {
            let last = rows.last();
            if let Some(camera) = last.spec_drawn_to(default) {
                lemma_edge_plans(
                    rows.len() - 1,
                    last.corners.spec_edges(),
                    EdgeStyle {
                        stack_index: last.stack_index,
                        color: last.color,
                        clip: last.clip,
                        camera,
                    },
                );
            }
            assert(border_plans(rows, default)[i] == last.plans(rows.len() - 1, default)[i
                - before.len()]);
        }
    }
}

/// Each border of a node that is drawn is drawn, if it has an inside.
pub proof fn law_borders_are_drawn(
    rows: Seq<BorderRow>,
    default: Option<Entity>,
    row: int,
    edge: int,
)
    requires
        rows.len() <= usize::MAX,
        0 <= row < rows.len(),
        rows[row].spec_drawn_to(default) is Some,
        0 <= edge < 4,
        rows[row].corners.spec_edges()[edge].has_area(),
    ensures
        exists|i: int|
            #![trigger border_plans(rows, default)[i]]
            0 <= i < border_plans(rows, default).len() && border_plans(rows, default)[i].row == row
                && border_plans(rows, default)[i].edge == rows[row].corners.spec_edges()[edge],
    decreases rows.len(),
{
    let before = border_plans(rows.drop_last(), default);
    let plans = border_plans(rows, default);
    if row < rows.len() - 1 {
        law_borders_are_drawn(rows.drop_last(), default, row, edge);
        let i = choose|i: int|
            #![trigger before[i]]
            0 <= i < before.len() && before[i].row == row && before[i].edge
                == rows[row].corners.spec_edges()[edge];
        assert(plans[i] == before[i]);
    } else {
        let last = rows.last();
        let style = EdgeStyle {
            stack_index: last.stack_index,
            color: last.color,
            clip: last.clip,
            camera: last.spec_drawn_to(default)->0,
        };
        let edges = last.corners.spec_edges();
        lemma_edge_plans(row, edges, style);
        let own = edge_plans(row, edges, style);
        let plan = EdgePlan { row: row as usize, edge: edges[edge], style };
        let j = choose|j: int| 0 <= j < own.len() && own[j] == plan;
        assert(plans[before.len() + j] == plan);
    }
}

/// Each drawn rectangle is one of the edges of an outline that is drawn, and has an inside.
pub proof fn law_drawn_outlines_are_outlines(
    rows: Seq<OutlineRow>,
    default: Option<Entity>,
    i: int,
)
    requires
        rows.len() <= usize::MAX,
        0 <= i < outline_plans(rows, default).len(),
    ensures
        ({
            let plan = outline_plans(rows, default)[i];
            let row = rows[plan.row as int];
            &&& plan.row < rows.len()
            &&& plan.edge.has_area()
            &&& row.rects->0.spec_edges().contains(plan.edge)
            &&& row.spec_drawn_to(default) == Some(plan.style.camera)
            &&& plan.style.stack_index == row.stack_index
            &&& plan.style.color == row.color
            &&& plan.style.clip == row.clip
        }),
    decreases rows.len(),
{
    if rows.len() > 0 {
        let before = outline_plans(rows.drop_last(), default);
        if i < before.len() {
            law_drawn_outlines_are_outlines(rows.drop_last(), default, i);
        } else {
            let last = rows.last();
            if let Some(camera) = last.spec_drawn_to(default) {
                lemma_edge_plans(
                    rows.len() - 1,
                    last.rects->0.spec_edges(),
                    EdgeStyle {
                        stack_index: last.stack_index,
                        color: last.color,
                        clip: last.clip,
                        camera,
                    },
                );
            }
            assert(outline_plans(rows, default)[i] == last.plans(rows.len() - 1, default)[i
                - before.len()]);
        }
    }
}

/// Each edge of an outline that is drawn is drawn, if it has an inside.
pub proof fn law_outlines_are_drawn(
    rows: Seq<OutlineRow>,
    default: Option<Entity>,
    row: int,
    edge: int,
)
    requires
        rows.len() <= usize::MAX,
        0 <= row < rows.len(),
        rows[row].spec_drawn_to(default) is Some,
        0 <= edge < 4,
        rows[row].rects->0.spec_edges()[edge].has_area(),
    ensures
        exists|i: int|
            #![trigger outline_plans(rows, default)[i]]
            0 <= i < outline_plans(rows, default).len() && outline_plans(rows, default)[i].row
                == row && outline_plans(rows, default)[i].edge
                == rows[row].rects->0.spec_edges()[edge],
    decreases rows.len(),
{
    let before = outline_plans(rows.drop_last(), default);
    let plans = outline_plans(rows, default);
    if row < rows.len() - 1 {
        law_outlines_are_drawn(rows.drop_last(), default, row, edge);
        let i = choose|i: int|
            #![trigger before[i]]
            0 <= i < before.len() && before[i].row == row && before[i].edge
                == rows[row].rects->0.spec_edges()[edge];
        assert(plans[i] == before[i]);
    } else {
        let last = rows.last();
        let style = EdgeStyle {
            stack_index: last.stack_index,
            color: last.color,
            clip: last.clip,
            camera: last.spec_drawn_to(default)->0,
        };
        let edges = last.rects->0.spec_edges();
        lemma_edge_plans(row, edges, style);
        let own = edge_plans(row, edges, style);
        let plan = EdgePlan { row: row as usize, edge: edges[edge], style };
        let j = choose|j: int| 0 <= j < own.len() && own[j] == plan;
        assert(plans[before.len() + j] == plan);
    }
}

/// Whether a camera is the one that a node is drawn to: its own, or the default one if it has none.
pub open spec fn is_target(own: Option<Entity>, default: Option<Entity>, camera: Entity) -> bool {
    own == Some(camera) || own is None && default == Some(camera)
}

/// Whether something of a color can be seen.
pub open spec fn can_be_seen(color: Color) -> bool {
    color.a.is_nan() || color.a.value() != 0
}

/// Whether a length is more than nothing, or not a number.
pub open spec fn is_not_short(length: Scalar) -> bool {
    length.is_nan() || length.value() > 0
}

/// Whether a length is not nothing.
pub open spec fn is_not_zero(length: Scalar) -> bool {
    length.is_nan() || length.value() != 0
}

/// Whether a border is to be drawn to a camera.
pub open spec fn shows_border(row: BorderRow, default: Option<Entity>, camera: Entity) -> bool {
    &&& row.visible && can_be_seen(row.color)
    &&& is_not_short(row.size.x) && is_not_short(row.size.y)
    &&& is_target(row.camera, default, camera)
}

/// Whether an outline is to be drawn to a camera.
pub open spec fn shows_outline(row: OutlineRow, default: Option<Entity>, camera: Entity) -> bool {
    &&& row.visible && can_be_seen(row.color) && is_not_zero(row.width)
    &&& is_target(row.camera, default, camera)
}

/// Whether a background is to be drawn to a camera.
pub open spec fn shows_background(row: UiNodeRow, default: Option<Entity>, camera: Entity) -> bool {
    &&& row.visible && can_be_seen(row.color)
    &&& is_target(row.camera, default, camera)
}

/// Whether a text is to be drawn to a camera.
pub open spec fn shows_text(row: TextRow, default: Option<Entity>, camera: Entity) -> bool {
    &&& row.visible && is_not_zero(row.size.x) && is_not_zero(row.size.y)
    &&& is_target(row.camera, default, camera)
}

/// A border is drawn to a camera if and only if it is visible and can be seen, its node has an
/// area, and the camera is its own, or the default one if it has none.
pub proof fn law_which_borders_are_drawn(row: BorderRow, default: Option<Entity>, camera: Entity)
    ensures
        row.spec_drawn_to(default) == Some(camera) <==> shows_border(row, default, camera),
{
}

/// An outline is drawn to a camera if and only if it is visible and can be seen, has a width, and
/// the camera is its own, or the default one if it has none.
pub proof fn law_which_outlines_are_drawn(row: OutlineRow, default: Option<Entity>, camera: Entity)
    ensures
        row.spec_drawn_to(default) == Some(camera) <==> shows_outline(row, default, camera),
{
}

/// A background is drawn to a camera if and only if it is visible and can be seen, and the camera
/// is its own, or the default one if it has none.
pub proof fn law_which_backgrounds_are_drawn(
    row: UiNodeRow,
    default: Option<Entity>,
    camera: Entity,
)
    ensures
        row.spec_drawn_to(default) == Some(camera) <==> shows_background(row, default, camera),
{
}

/// A text is drawn to a camera if and only if it is visible and of some size, and the camera is its
/// own, or the default one if it has none.
pub proof fn law_which_texts_are_drawn(row: TextRow, default: Option<Entity>, camera: Entity)
    ensures
        row.spec_drawn_to(default) == Some(camera) <==> shows_text(row, default, camera),
{
}

/// Whether a node is a background, drawn in one piece: in its place, color and clip, to its camera,
/// with the whole of its image flipped as the image is, or with a part of an atlas.
pub open spec fn is_background(node: ExtractedUiNode, row: UiNodeRow, camera: Entity) -> bool {
    &&& node.stack_index == row.stack_index
    &&& node.transform == row.transform
    &&& node.color == row.color
    &&& node.clip == row.clip
    &&& node.camera_entity == camera
    &&& row.image matches Some(image) ==> {
        &&& node.image == image.texture
        &&& node.flip_x == image.flip_x
        &&& node.flip_y == image.flip_y
    }
    &&& row.image is None ==> is_plain(node) && !node.flip_x && !node.flip_y
    &&& row.atlas matches Some(AtlasFrame::Frame { rect, size }) ==> {
        &&& node.rect == rect
        &&& node.atlas_size == Some(size)
    }
    &&& row.atlas is None ==> {
        &&& node.rect.min.x.bits == 0 && node.rect.min.y.bits == 0
        &&& node.rect.max == row.size
        &&& node.atlas_size is None
    }
}

/// A background that is drawn in one piece is extracted once, under its own entity. Where it has an
/// image that is cut into pieces, those are extracted in its place, in order. Nothing is extracted
/// of a node whose atlas is missing.
pub proof fn law_background_is_extracted(
    row: UiNodeRow,
    default: Option<Entity>,
    camera: Entity,
)
    requires
        shows_background(row, default, camera),
    ensures
        ({
            let entries = node_entries(seq![row], default);
            let is_sliced = row.image is Some && row.slices is Some;
            &&& is_sliced ==> entries == row.slices->0@
            &&& !is_sliced && row.atlas == Some(AtlasFrame::MissingLayout) ==> entries.len() == 0
            &&& !is_sliced && row.atlas != Some(AtlasFrame::MissingLayout) ==> {
                &&& entries.len() == 1
                &&& entries[0].0 == row.entity
                &&& is_background(entries[0].1, row, camera)
            }
        }),
{
    law_which_backgrounds_are_drawn(row, default, camera);
    lemma_entries_of_one_background(row, default);
}

/// Nothing is extracted of a background that is not to be drawn to any camera.
pub proof fn law_other_background_is_not_extracted(row: UiNodeRow, default: Option<Entity>)
    requires
        forall|camera: Entity| !#[trigger] shows_background(row, default, camera),
    ensures
        node_entries(seq![row], default).len() == 0,
        node_entries(Seq::empty(), default).len() == 0,
{
    lemma_entries_of_one_background(row, default);
    if let Some(camera) = row.spec_drawn_to(default) {
        law_which_backgrounds_are_drawn(row, default, camera);
        assert(shows_background(row, default, camera));
    }
}

/// What is drawn of one node.
proof fn lemma_entries_of_one_background(row: UiNodeRow, default: Option<Entity>)
    ensures
        node_entries(seq![row], default) == row.entries(default),
{
    assert(seq![row].drop_last() =~= Seq::<UiNodeRow>::empty());
    assert(node_entries(Seq::<UiNodeRow>::empty(), default) =~= Seq::empty());
    assert(node_entries(seq![row], default) =~= row.entries(default));
}

/// Whether a node is a glyph of a text: at its place, from its atlas, in the color of its section,
/// or white if it is part of none, and in the place, clip and camera of the text.
pub open spec fn is_glyph(
    node: ExtractedUiNode,
    row: TextRow,
    glyph: Glyph,
    camera: Entity,
) -> bool {
    let one = Scalar { bits: 0x3f80_0000 };
    &&& node.stack_index == row.stack_index
    &&& node.clip == row.clip
    &&& node.camera_entity == camera
    &&& node.transform == glyph.transform
    &&& node.rect == glyph.rect
    &&& node.image == glyph.image
    &&& node.atlas_size == Some(glyph.atlas_size)
    &&& !node.flip_x && !node.flip_y
    &&& glyph.section < row.sections@.len() ==> node.color == row.sections@[glyph.section as int]
    &&& glyph.section == usize::MAX ==> node.color == (Color { r: one, g: one, b: one, a: one })
}

/// The glyphs of a text that is drawn are extracted, each once, in order and under its own entity.
pub proof fn law_glyphs_are_extracted(
    row: TextRow,
    default: Option<Entity>,
    camera: Entity,
    g: int,
)
    requires
        shows_text(row, default, camera),
        row.sections@.len() <= usize::MAX,
        0 <= g < row.glyphs@.len(),
    ensures
        ({
            let entries = text_entries(seq![row], default);
            &&& entries.len() == row.glyphs@.len()
            &&& entries[g].0 == row.glyphs@[g].entity
            &&& is_glyph(entries[g].1, row, row.glyphs@[g], camera)
        }),
{
    law_which_texts_are_drawn(row, default, camera);
    lemma_entries_of_one_text(row, default);
}

/// Nothing is extracted of a text that is not to be drawn to any camera, nor of one without glyphs.
pub proof fn law_other_text_is_not_extracted(row: TextRow, default: Option<Entity>)
    requires
        (forall|camera: Entity| !#[trigger] shows_text(row, default, camera)) || row.glyphs@.len()
            == 0,
    ensures
        text_entries(seq![row], default).len() == 0,
        text_entries(Seq::empty(), default).len() == 0,
{
    lemma_entries_of_one_text(row, default);
    if let Some(camera) = row.spec_drawn_to(default) {
        law_which_texts_are_drawn(row, default, camera);
        assert(shows_text(row, default, camera));
    }
}

/// What is drawn of one text.
proof fn lemma_entries_of_one_text(row: TextRow, default: Option<Entity>)
    ensures
        text_entries(seq![row], default) == row.entries(default),
{
    assert(seq![row].drop_last() =~= Seq::<TextRow>::empty());
    assert(text_entries(Seq::<TextRow>::empty(), default) =~= Seq::empty());
    assert(text_entries(seq![row], default) =~= row.entries(default));
}

/// One for a rectangle that has an inside.
pub open spec fn one_if_drawn(edge: Rect) -> nat {
    let is_whole = !edge.min.has_nan() && !edge.max.has_nan();
    if is_whole && edge.min.x.value() < edge.max.x.value() && edge.min.y.value()
        < edge.max.y.value() {
        1
    } else {
        0
    }
}

/// How many of four rectangles have an inside.
pub open spec fn drawn_of_four(edges: Seq<Rect>) -> nat {
    one_if_drawn(edges[0]) + one_if_drawn(edges[1]) + one_if_drawn(edges[2]) + one_if_drawn(
        edges[3],
    )
}

/// As many rectangles are drawn of four as have an inside.
proof fn lemma_drawn_of_four(row: int, edges: Seq<Rect>, style: EdgeStyle)
    requires
        edges.len() == 4,
    ensures
        edge_plans(row, edges, style).len() == drawn_of_four(edges),
{
    reveal(Seq::filter);
    let pred = |edge: Rect| edge.has_area();
    let three = edges.drop_last();
    let two = three.drop_last();
    let first = two.drop_last();
    let none = first.drop_last();
    law_area(edges[0]);
    law_area(edges[1]);
    law_area(edges[2]);
    law_area(edges[3]);
    assert(none.filter(pred).len() == 0);
    assert(first.filter(pred).len() == one_if_drawn(edges[0]));
    assert(two.filter(pred).len() == one_if_drawn(edges[0]) + one_if_drawn(edges[1]));
    assert(three.filter(pred).len() == one_if_drawn(edges[0]) + one_if_drawn(edges[1])
        + one_if_drawn(edges[2]));
    assert(edges.filter(pred).len() == drawn_of_four(edges));
}

/// A node more adds its borders that have an inside, each once, if its border is to be drawn, and
/// nothing otherwise. What was there stays.
pub proof fn law_each_border_is_drawn_once(
    rows: Seq<BorderRow>,
    row: BorderRow,
    default: Option<Entity>,
)
    ensures
        ({
            let before = border_plans(rows, default);
            let after = border_plans(rows.push(row), default);
            let is_shown = exists|camera: Entity| #[trigger] shows_border(row, default, camera);
            &&& before.is_prefix_of(after)
            &&& is_shown ==> after.len() == before.len() + drawn_of_four(row.corners.spec_edges())
            &&& !is_shown ==> after.len() == before.len()
        }),
{
    assert(rows.push(row).drop_last() =~= rows);
    match row.spec_drawn_to(default) {
        Some(camera) => {
            law_which_borders_are_drawn(row, default, camera);
            assert(shows_border(row, default, camera));
            lemma_drawn_of_four(
                rows.len() as int,
                row.corners.spec_edges(),
                EdgeStyle {
                    stack_index: row.stack_index,
                    color: row.color,
                    clip: row.clip,
                    camera,
                },
            );
        },
        None => {
            assert forall|camera: Entity| !#[trigger] shows_border(row, default, camera) by {
                law_which_borders_are_drawn(row, default, camera);
            }
        },
    }
}

/// A node more adds the edges of its outline that have an inside, each once, if its outline is to
/// be drawn, and nothing otherwise. What was there stays.
pub proof fn law_each_outline_is_drawn_once(
    rows: Seq<OutlineRow>,
    row: OutlineRow,
    default: Option<Entity>,
)
    ensures
        ({
            let before = outline_plans(rows, default);
            let after = outline_plans(rows.push(row), default);
            let is_shown = exists|camera: Entity| #[trigger] shows_outline(row, default, camera);
            &&& before.is_prefix_of(after)
            &&& is_shown ==> after.len() == before.len() + drawn_of_four(row.rects->0.spec_edges())
            &&& !is_shown ==> after.len() == before.len()
        }),
{
    assert(rows.push(row).drop_last() =~= rows);
    match row.spec_drawn_to(default) {
        Some(camera) => {
            law_which_outlines_are_drawn(row, default, camera);
            assert(shows_outline(row, default, camera));
            lemma_drawn_of_four(
                rows.len() as int,
                row.rects->0.spec_edges(),
                EdgeStyle {
                    stack_index: row.stack_index,
                    color: row.color,
                    clip: row.clip,
                    camera,
                },
            );
        },
        None => {
            assert forall|camera: Entity| !#[trigger] shows_outline(row, default, camera) by {
                law_which_outlines_are_drawn(row, default, camera);
            }
        },
    }
}

/// A rectangle of a border or an outline is drawn under the entity that was made for it, as a plain
/// area of its color and size, where it was placed, in the place, clip and camera of its node.
pub proof fn law_edges_are_plain_areas(
    plans: Seq<EdgePlan>,
    placements: Seq<EdgePlacement>,
    k: int,
)
    requires
        0 <= k < plans.len(),
    ensures
        ({
            let (entity, node) = edge_entries(plans, placements)[k];
            let style = plans[k].style;
            &&& edge_entries(plans, placements).len() == plans.len()
            &&& entity == placements[k].entity
            &&& node.transform == placements[k].transform
            &&& node.rect.min.x.bits == 0 && node.rect.min.y.bits == 0
            &&& node.rect.max == placements[k].size
            &&& node.stack_index == style.stack_index
            &&& node.color == style.color
            &&& node.clip == style.clip
            &&& node.camera_entity == style.camera
            &&& is_plain(node)
            &&& node.atlas_size is None
            &&& !node.flip_x && !node.flip_y
        }),
{
}

} // verus!
