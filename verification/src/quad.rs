//! How a node becomes two triangles: where they are cut off, and which part of an image they show.
use crate::geometry::{Color, Rect, Vec2, Vec3};
use crate::image::ImageId;
use crate::nodes::ExtractedUiNode;
use crate::scalar::{law_negation, lemma_absolute_value, Scalar};
use vstd::prelude::*;

verus! {

/// The mode of a vertex that shows an image.
pub const TEXTURED_QUAD: u32 = 0;

/// The mode of a vertex that shows a plain color.
pub const UNTEXTURED_QUAD: u32 = 1;

/// The corners of the two triangles of a rectangle. Its corners are numbered from the top left,
/// clockwise.
pub const QUAD_INDICES: [usize; 6] = [0, 2, 3, 0, 1, 2];

/// A corner of a triangle.
#[derive(Clone, Copy, PartialEq, Eq, Structural, Debug)]
pub struct UiVertex {
    pub position: Vec3,
    pub uv: Vec2,
    pub color: Color,
    pub mode: u32,
}

/// A rectangle as it is drawn. Its corners are numbered from the top left, clockwise.
#[derive(Clone, Copy, Debug)]
pub struct Quad {
    /// Where the corners are, after clipping.
    pub positions: [Vec3; 4],
    /// What part of the image the corners show. It is not used without an image.
    pub uvs: [Vec2; 4],
    /// Whether clipping leaves nothing.
    pub culled: bool,
}

/// The corners of a whole image.
pub open spec fn whole_image() -> Seq<Vec2> {
    seq![
        Vec2 { x: Scalar::spec_zero(), y: Scalar::spec_zero() },
        Vec2 { x: Scalar::spec_one(), y: Scalar::spec_zero() },
        Vec2 { x: Scalar::spec_one(), y: Scalar::spec_one() },
        Vec2 { x: Scalar::spec_zero(), y: Scalar::spec_one() },
    ]
}

/// The mode of the vertices of a node.
pub open spec fn spec_mode(node: ExtractedUiNode) -> u32 {
    if node.image != ImageId::spec_none() {
        TEXTURED_QUAD
    } else {
        UNTEXTURED_QUAD
    }
}

/// The vertex of a node at a corner.
pub open spec fn corner_vertex(node: ExtractedUiNode, quad: Quad, corner: int) -> UiVertex {
    UiVertex {
        position: quad.positions@[corner],
        uv: if node.image != ImageId::spec_none() {
            quad.uvs@[corner]
        } else {
            whole_image()[corner]
        },
        color: node.color,
        mode: spec_mode(node),
    }
}

/// The six vertices of a node.
pub open spec fn quad_vertices(node: ExtractedUiNode, quad: Quad) -> Seq<UiVertex> {
    Seq::new(6, |k: int| corner_vertex(node, quad, QUAD_INDICES@[k] as int))
}

/// Adds the six vertices of a node.
pub fn push_quad(vertices: &mut Vec<UiVertex>, node: &ExtractedUiNode, quad: &Quad)
    ensures
        final(vertices)@ == old(vertices)@ + quad_vertices(*node, *quad),
{
    let zero = Scalar::zero();
    let one = Scalar::one();
    let whole: [Vec2; 4] = [
        Vec2 { x: zero, y: zero },
        Vec2 { x: one, y: zero },
        Vec2 { x: one, y: one },
        Vec2 { x: zero, y: one },
    ];
    assert(whole@ =~= whole_image());
    let textured = node.image != ImageId::none();
    let mode: u32 = if textured { TEXTURED_QUAD } else { UNTEXTURED_QUAD };
    let ghost before = vertices@;
    let indices: [usize; 6] = QUAD_INDICES;
    for k in 0..6
        invariant
            indices@ == QUAD_INDICES@,
            indices@ == seq![0usize, 2, 3, 0, 1, 2],
            whole@ == whole_image(),
            textured == (node.image != ImageId::spec_none()),
            mode == spec_mode(*node),
            vertices@ == before + quad_vertices(*node, *quad).take(k as int),
    {
        let corner: usize = indices[k];
        let uv = if textured { quad.uvs[corner] } else { whole[corner] };
        vertices.push(UiVertex { position: quad.positions[corner], uv, color: node.color, mode });
        assert(quad_vertices(*node, *quad).take(k + 1) =~= quad_vertices(*node, *quad).take(
            k as int,
        ).push(vertices@.last()));
    }
    assert(quad_vertices(*node, *quad).take(6) =~= quad_vertices(*node, *quad));
}

/// How far the corners of a rectangle are from what it is cut off at.
#[derive(Clone, Copy, Debug)]
pub struct ClipGaps {
    /// From each corner to the corner of the clip at the top left.
    pub to_min: [Vec2; 4],
    /// From each corner to the corner of the clip at the bottom right.
    pub to_max: [Vec2; 4],
}

/// A number, or zero where it is negative or not a number.
pub open spec fn spec_positive_part(n: Scalar) -> Scalar {
    n.spec_max(Scalar::spec_zero())
}

/// A number, or zero where it is positive or not a number.
pub open spec fn spec_negative_part(n: Scalar) -> Scalar {
    n.spec_min(Scalar::spec_zero())
}

/// How the corners of a rectangle are moved so that it does not reach over its clip. A corner on
/// the left is moved to the right if it has to be moved, and so on.
pub open spec fn spec_clip_offsets(gaps: Option<ClipGaps>) -> Seq<Vec2> {
    match gaps {
        Some(gaps) => seq![
            Vec2 {
                x: spec_positive_part(gaps.to_min@[0].x),
                y: spec_positive_part(gaps.to_min@[0].y),
            },
            Vec2 {
                x: spec_negative_part(gaps.to_max@[1].x),
                y: spec_positive_part(gaps.to_min@[1].y),
            },
            Vec2 {
                x: spec_negative_part(gaps.to_max@[2].x),
                y: spec_negative_part(gaps.to_max@[2].y),
            },
            Vec2 {
                x: spec_positive_part(gaps.to_min@[3].x),
                y: spec_negative_part(gaps.to_max@[3].y),
            },
        ],
        None => seq![
            Vec2::spec_zero(),
            Vec2::spec_zero(),
            Vec2::spec_zero(),
            Vec2::spec_zero(),
        ],
    }
}

/// How the corners of a rectangle are moved so that it does not reach over its clip.
pub fn clip_offsets(gaps: Option<ClipGaps>) -> (r: [Vec2; 4])
    ensures
        r@ == spec_clip_offsets(gaps),
{
    let zero = Scalar::zero();
    match gaps {
        Some(gaps) => {
            let r: [Vec2; 4] = [
                Vec2 { x: gaps.to_min[0].x.max(zero), y: gaps.to_min[0].y.max(zero) },
                Vec2 { x: gaps.to_max[1].x.min(zero), y: gaps.to_min[1].y.max(zero) },
                Vec2 { x: gaps.to_max[2].x.min(zero), y: gaps.to_max[2].y.min(zero) },
                Vec2 { x: gaps.to_min[3].x.max(zero), y: gaps.to_max[3].y.min(zero) },
            ];
            assert(r@ =~= spec_clip_offsets(Some(gaps)));
            r
        },
        None => {
            let r: [Vec2; 4] = [Vec2::zero(), Vec2::zero(), Vec2::zero(), Vec2::zero()];
            assert(r@ =~= spec_clip_offsets(None));
            r
        },
    }
}

/// How far the left, the right, the upper and the lower side of a rectangle are moved by clipping.
/// Where the size is negative, the corners of a side are those that are otherwise on the side
/// opposite to it.
pub open spec fn spec_side_offsets(gaps: Option<ClipGaps>, size: Vec2) -> Seq<Scalar> {
    match gaps {
        Some(gaps) => {
            let (left, right) = if size.x.less(Scalar::spec_zero()) {
                (1int, 0int)
            } else {
                (0int, 1int)
            };
            let (top, bottom) = if size.y.less(Scalar::spec_zero()) {
                (2int, 1int)
            } else {
                (1int, 2int)
            };
            seq![
                spec_positive_part(gaps.to_min@[left].x),
                spec_negative_part(gaps.to_max@[right].x),
                spec_positive_part(gaps.to_min@[top].y),
                spec_negative_part(gaps.to_max@[bottom].y),
            ]
        },
        None => seq![
            Scalar::spec_zero(),
            Scalar::spec_zero(),
            Scalar::spec_zero(),
            Scalar::spec_zero(),
        ],
    }
}

/// How far the left, the right, the upper and the lower side of a rectangle are moved by clipping.
/// What is taken off the width is the first less the second, and off the height the third less the
/// fourth. `size` is the size after the transform, with its sign.
pub fn side_offsets(gaps: Option<ClipGaps>, size: Vec2) -> (r: [Scalar; 4])
    ensures
        r@ == spec_side_offsets(gaps, size),
{
    let zero = Scalar::zero();
    match gaps {
        Some(gaps) => {
            let (left, right): (usize, usize) = if size.x.lt(zero) { (1, 0) } else { (0, 1) };
            let (top, bottom): (usize, usize) = if size.y.lt(zero) { (2, 1) } else { (1, 2) };
            let r: [Scalar; 4] = [
                gaps.to_min[left].x.max(zero),
                gaps.to_max[right].x.min(zero),
                gaps.to_min[top].y.max(zero),
                gaps.to_max[bottom].y.min(zero),
            ];
            assert(r@ =~= spec_side_offsets(Some(gaps), size));
            r
        },
        None => {
            let r: [Scalar; 4] = [zero, zero, zero, zero];
            assert(r@ =~= spec_side_offsets(None, size));
            r
        },
    }
}

/// Whether clipping leaves nothing of a rectangle: it takes off its whole width or its whole
/// height. A half turn or a reflection makes a size negative, but no smaller. Nothing is said of a
/// rectangle whose upper side is turned away from the horizontal.
pub open spec fn spec_is_culled(slope: Scalar, taken_off: Vec2, size: Vec2) -> bool {
    &&& slope.same(Scalar::spec_zero())
    &&& size.x.spec_absolute().less_or_same(taken_off.x)
        || size.y.spec_absolute().less_or_same(taken_off.y)
}

/// Whether clipping leaves nothing of a rectangle. `slope` is the vertical part of where the
/// transform takes the horizontal axis, `taken_off` what clipping takes off the width and the
/// height by [`side_offsets`], and `size` the size after the transform, with its sign.
pub fn is_culled(slope: Scalar, taken_off: Vec2, size: Vec2) -> (r: bool)
    ensures
        r == spec_is_culled(slope, taken_off, size),
{
    slope.num_eq(Scalar::zero()) && (size.x.absolute().le(taken_off.x) || size.y.absolute().le(
        taken_off.y,
    ))
}

/// The part of an image that a rectangle shows, corner by corner: the corner of the part, and how
/// it is moved by clipping.
#[derive(Clone, Copy, Debug)]
pub struct TextureCorners {
    pub corners: [Vec2; 4],
    pub offsets: [Vec2; 4],
}

/// A rectangle with its sides exchanged, where it is to be flipped.
pub open spec fn spec_flip_rect(rect: Rect, flip_x: bool, flip_y: bool) -> Rect {
    Rect {
        min: Vec2 {
            x: if flip_x { rect.max.x } else { rect.min.x },
            y: if flip_y { rect.max.y } else { rect.min.y },
        },
        max: Vec2 {
            x: if flip_x { rect.min.x } else { rect.max.x },
            y: if flip_y { rect.min.y } else { rect.max.y },
        },
    }
}

/// An offset turned around, where it is to be flipped.
pub open spec fn spec_flip_offset(offset: Vec2, flip_x: bool, flip_y: bool) -> Vec2 {
    Vec2 {
        x: if flip_x { offset.x.spec_negated() } else { offset.x },
        y: if flip_y { offset.y.spec_negated() } else { offset.y },
    }
}

/// The corners of a rectangle, from the top left, clockwise.
pub open spec fn rect_corners(rect: Rect) -> Seq<Vec2> {
    seq![
        rect.min,
        Vec2 { x: rect.max.x, y: rect.min.y },
        rect.max,
        Vec2 { x: rect.min.x, y: rect.max.y },
    ]
}

fn flip_offset(offset: Vec2, flip_x: bool, flip_y: bool) -> (r: Vec2)
    ensures
        r == spec_flip_offset(offset, flip_x, flip_y),
{
    Vec2 {
        x: if flip_x { offset.x.negated() } else { offset.x },
        y: if flip_y { offset.y.negated() } else { offset.y },
    }
}

/// The part of an image that a rectangle shows, when its corners are moved by clipping.
pub fn texture_corners(rect: Rect, offsets: [Vec2; 4], flip_x: bool, flip_y: bool) -> (r:
    TextureCorners)
    ensures
        r.corners@ == rect_corners(spec_flip_rect(rect, flip_x, flip_y)),
        r.offsets@ == offsets@.map_values(
            |offset: Vec2| spec_flip_offset(offset, flip_x, flip_y),
        ),
{
    let mut min = rect.min;
    let mut max = rect.max;
    if flip_x {
        min.x = rect.max.x;
        max.x = rect.min.x;
    }
    if flip_y {
        min.y = rect.max.y;
        max.y = rect.min.y;
    }
    let corners: [Vec2; 4] = [min, Vec2 { x: max.x, y: min.y }, max, Vec2 { x: min.x, y: max.y }];
    let moved: [Vec2; 4] = [
        flip_offset(offsets[0], flip_x, flip_y),
        flip_offset(offsets[1], flip_x, flip_y),
        flip_offset(offsets[2], flip_x, flip_y),
        flip_offset(offsets[3], flip_x, flip_y),
    ];
    assert(corners@ =~= rect_corners(spec_flip_rect(rect, flip_x, flip_y)));
    assert(moved@ =~= offsets@.map_values(
        |offset: Vec2| spec_flip_offset(offset, flip_x, flip_y),
    ));
    TextureCorners { corners, offsets: moved }
}

/// The size of the image that a node shows a part of: that of its atlas, or as far as the part
/// goes.
pub open spec fn spec_image_extent(node: ExtractedUiNode) -> Vec2 {
    match node.atlas_size {
        Some(size) => size,
        None => node.rect.max,
    }
}

/// The size of the image that a node shows a part of.
pub fn image_extent(node: &ExtractedUiNode) -> (r: Vec2)
    ensures
        r == spec_image_extent(*node),
{
    match node.atlas_size {
        Some(size) => size,
        None => node.rect.max,
    }
}

/// Clipping moves no corner outwards.
pub proof fn law_clipping_moves_inwards(gaps: Option<ClipGaps>)
    ensures
        ({
            let offsets = spec_clip_offsets(gaps);
            let zero = Scalar::spec_zero();
            &&& zero.less_or_same(offsets[0].x) && zero.less_or_same(offsets[0].y)
            &&& offsets[1].x.less_or_same(zero) && zero.less_or_same(offsets[1].y)
            &&& offsets[2].x.less_or_same(zero) && offsets[2].y.less_or_same(zero)
            &&& zero.less_or_same(offsets[3].x) && offsets[3].y.less_or_same(zero)
        }),
{
    assert(Scalar::spec_zero().value() == 0);
}

/// The sides of a rectangle that is neither turned nor reflected are moved with its corners.
pub proof fn law_sides_move_with_corners(gaps: Option<ClipGaps>, size: Vec2)
    requires
        !size.x.less(Scalar::spec_zero()),
        !size.y.less(Scalar::spec_zero()),
    ensures
        ({
            let corners = spec_clip_offsets(gaps);
            spec_side_offsets(gaps, size) == seq![
                corners[0].x,
                corners[1].x,
                corners[1].y,
                corners[2].y,
            ]
        }),
{
}

/// Clipping moves no corner that is within the clip.
pub proof fn law_clipping_keeps_what_is_within(gaps: ClipGaps)
    requires
        forall|k: int|
            #![trigger gaps.to_min@[k]]
            #![trigger gaps.to_max@[k]]
            0 <= k < 4 ==> {
                &&& gaps.to_min@[k].x.less_or_same(Scalar::spec_zero())
                &&& gaps.to_min@[k].y.less_or_same(Scalar::spec_zero())
                &&& Scalar::spec_zero().less_or_same(gaps.to_max@[k].x)
                &&& Scalar::spec_zero().less_or_same(gaps.to_max@[k].y)
            },
    ensures
        spec_clip_offsets(Some(gaps)) == spec_clip_offsets(None),
{
    assert(Scalar::spec_zero().value() == 0);
    assert(spec_clip_offsets(Some(gaps)) =~= spec_clip_offsets(None));
}

/// A rectangle that clipping takes nothing off is not culled, unless it has no width or no height.
pub proof fn law_what_is_not_clipped_is_not_culled(slope: Scalar, size: Vec2)
    requires
        !size.x.same(Scalar::spec_zero()),
        !size.y.same(Scalar::spec_zero()),
    ensures
        !spec_is_culled(slope, Vec2::spec_zero(), size),
{
    lemma_absolute_value(size.x);
    lemma_absolute_value(size.y);
}

/// The corner of a rectangle that takes the place of another when it is reflected.
pub open spec fn mirrored_corner(k: int, flip_x: bool, flip_y: bool) -> int {
    if flip_x && flip_y {
        (k + 2) % 4
    } else if flip_x {
        if k == 0 {
            1
        } else if k == 1 {
            0
        } else if k == 2 {
            3
        } else {
            2
        }
    } else if flip_y {
        3 - k
    } else {
        k
    }
}

/// Whether these are the gaps of the same rectangle, reflected.
pub open spec fn is_mirrored(
    gaps: ClipGaps,
    mirrored: ClipGaps,
    flip_x: bool,
    flip_y: bool,
) -> bool {
    forall|k: int|
        #![trigger mirrored.to_min@[k]]
        #![trigger mirrored.to_max@[k]]
        0 <= k < 4 ==> {
            &&& mirrored.to_min@[k] == gaps.to_min@[mirrored_corner(k, flip_x, flip_y)]
            &&& mirrored.to_max@[k] == gaps.to_max@[mirrored_corner(k, flip_x, flip_y)]
        }
}

/// Whether the sides of the rectangle are horizontal and vertical.
pub open spec fn is_upright(gaps: ClipGaps) -> bool {
    &&& gaps.to_min@[0].x == gaps.to_min@[3].x && gaps.to_max@[0].x == gaps.to_max@[3].x
    &&& gaps.to_min@[1].x == gaps.to_min@[2].x && gaps.to_max@[1].x == gaps.to_max@[2].x
    &&& gaps.to_min@[0].y == gaps.to_min@[1].y && gaps.to_max@[0].y == gaps.to_max@[1].y
    &&& gaps.to_min@[2].y == gaps.to_min@[3].y && gaps.to_max@[2].y == gaps.to_max@[3].y
}

/// An upright rectangle is culled or not, whether or not it is turned by half or reflected:
/// clipping takes the same off its sides, and no more than the signs of its size change. `minus` is
/// how what is taken off two sides is put together.
pub proof fn law_half_turn_does_not_matter_to_culling(
    slope: Scalar,
    gaps: ClipGaps,
    mirrored: ClipGaps,
    size: Vec2,
    flip_x: bool,
    flip_y: bool,
    minus: spec_fn(Scalar, Scalar) -> Scalar,
)
    requires
        is_upright(gaps),
        is_mirrored(gaps, mirrored, flip_x, flip_y),
        !size.has_nan(),
        !size.x.same(Scalar::spec_zero()),
        !size.y.same(Scalar::spec_zero()),
    ensures
        ({
            let turned = spec_flip_offset(size, flip_x, flip_y);
            let sides = spec_side_offsets(Some(gaps), size);
            let turned_sides = spec_side_offsets(Some(mirrored), turned);
            let taken_off = Vec2 { x: minus(sides[0], sides[1]), y: minus(sides[2], sides[3]) };
            let turned_taken_off = Vec2 {
                x: minus(turned_sides[0], turned_sides[1]),
                y: minus(turned_sides[2], turned_sides[3]),
            };
            &&& turned_sides == sides
            &&& spec_is_culled(slope, turned_taken_off, turned) == spec_is_culled(
                slope,
                taken_off,
                size,
            )
        }),
{
    let turned = spec_flip_offset(size, flip_x, flip_y);
    let zero = Scalar::spec_zero();
    assert(zero.value() == 0);
    assert(turned.x.less(zero) == (size.x.less(zero) != flip_x));
    assert(turned.y.less(zero) == (size.y.less(zero) != flip_y));
    let sides = spec_side_offsets(Some(gaps), size);
    let turned_sides = spec_side_offsets(Some(mirrored), turned);
    let (a, b) = (mirrored.to_min@, mirrored.to_max@);
    assert(a[0] == gaps.to_min@[mirrored_corner(0, flip_x, flip_y)]);
    assert(a[1] == gaps.to_min@[mirrored_corner(1, flip_x, flip_y)]);
    assert(a[2] == gaps.to_min@[mirrored_corner(2, flip_x, flip_y)]);
    assert(b[0] == gaps.to_max@[mirrored_corner(0, flip_x, flip_y)]);
    assert(b[1] == gaps.to_max@[mirrored_corner(1, flip_x, flip_y)]);
    assert(b[2] == gaps.to_max@[mirrored_corner(2, flip_x, flip_y)]);
    assert(turned_sides =~= sides);
}

/// An upright rectangle, turned by half or reflected or not, and what it is cut off at, by their
/// sides. The numbers are in units of those of a [`Scalar`].
pub struct Clipping {
    pub left: int,
    pub right: int,
    pub top: int,
    pub bottom: int,
    pub clip_left: int,
    pub clip_right: int,
    pub clip_top: int,
    pub clip_bottom: int,
}

impl Clipping {
    /// Whether the size is that of the rectangle, but for its signs.
    pub open spec fn has_size(self, size: Vec2) -> bool {
        &&& !size.has_nan()
        &&& self.left <= self.right && self.top <= self.bottom
        &&& size.x.spec_absolute().value() == self.right - self.left
        &&& size.y.spec_absolute().value() == self.bottom - self.top
    }

    /// Where a corner is. A negative width puts the corners of the left side on the right, and a
    /// negative height those of the upper side at the bottom.
    pub open spec fn corner(self, size: Vec2, k: int) -> (int, int) {
        (
            if (k == 0 || k == 3) != size.x.less(Scalar::spec_zero()) {
                self.left
            } else {
                self.right
            },
            if (k == 0 || k == 1) != size.y.less(Scalar::spec_zero()) {
                self.top
            } else {
                self.bottom
            },
        )
    }

    /// Whether these are the gaps between the corners and the clip, exactly.
    pub open spec fn has_gaps(self, size: Vec2, gaps: ClipGaps) -> bool {
        forall|k: int|
            #![trigger gaps.to_min@[k]]
            #![trigger gaps.to_max@[k]]
            0 <= k < 4 ==> {
                &&& !gaps.to_min@[k].has_nan() && !gaps.to_max@[k].has_nan()
                &&& gaps.to_min@[k].x.value() == self.clip_left - self.corner(size, k).0
                &&& gaps.to_min@[k].y.value() == self.clip_top - self.corner(size, k).1
                &&& gaps.to_max@[k].x.value() == self.clip_right - self.corner(size, k).0
                &&& gaps.to_max@[k].y.value() == self.clip_bottom - self.corner(size, k).1
            }
    }

    /// Whether something of the rectangle is within the clip.
    pub open spec fn leaves_something(self) -> bool {
        let left = if self.left < self.clip_left { self.clip_left } else { self.left };
        let right = if self.right > self.clip_right { self.clip_right } else { self.right };
        let top = if self.top < self.clip_top { self.clip_top } else { self.top };
        let bottom = if self.bottom > self.clip_bottom { self.clip_bottom } else { self.bottom };
        left < right && top < bottom
    }
}

/// Where the numbers are exact, an upright rectangle is culled if and only if nothing of it is
/// within the clip, whether or not it is turned by half or reflected.
pub proof fn law_what_is_clipped_away_is_culled(
    clipping: Clipping,
    slope: Scalar,
    gaps: ClipGaps,
    taken_off: Vec2,
    size: Vec2,
)
    requires
        slope.same(Scalar::spec_zero()),
        clipping.has_size(size),
        clipping.has_gaps(size, gaps),
        !taken_off.has_nan(),
        taken_off.x.value() == spec_side_offsets(Some(gaps), size)[0].value()
            - spec_side_offsets(Some(gaps), size)[1].value(),
        taken_off.y.value() == spec_side_offsets(Some(gaps), size)[2].value()
            - spec_side_offsets(Some(gaps), size)[3].value(),
    ensures
        spec_is_culled(slope, taken_off, size) <==> !clipping.leaves_something(),
{
    assert(Scalar::spec_zero().value() == 0);
    lemma_absolute_value(size.x);
    lemma_absolute_value(size.y);
    let (a, b) = (gaps.to_min@, gaps.to_max@);
    assert(!a[0].has_nan() && !a[1].has_nan() && !a[2].has_nan());
    assert(!b[0].has_nan() && !b[1].has_nan() && !b[2].has_nan());
}

/// Flipping an image twice shows it as it was.
pub proof fn law_flipping_twice_is_nothing(rect: Rect, offset: Vec2, flip_x: bool, flip_y: bool)
    ensures
        spec_flip_rect(spec_flip_rect(rect, flip_x, flip_y), flip_x, flip_y) == rect,
        spec_flip_offset(spec_flip_offset(offset, flip_x, flip_y), flip_x, flip_y) == offset,
{
}

/// Whether a node shows no image.
pub open spec fn is_plain(node: ExtractedUiNode) -> bool {
    node.image == (ImageId::Uuid { uuid: 200809721996911295814598172825939264631 })
}

/// Whether a vertex is a corner of a node: it is where the corner is, has all of the color of the
/// node, opacity and all, and shows the part of the image that the corner shows, in mode 0; or, of
/// a node without an image, the corner of the whole of it, in mode 1.
pub open spec fn is_corner(
    vertex: UiVertex,
    node: ExtractedUiNode,
    quad: Quad,
    corner: int,
) -> bool {
    let (zero, one) = (Scalar { bits: 0 }, Scalar { bits: 0x3f80_0000 });
    &&& vertex.position == quad.positions@[corner]
    &&& vertex.color.r == node.color.r && vertex.color.g == node.color.g
    &&& vertex.color.b == node.color.b && vertex.color.a == node.color.a
    &&& !is_plain(node) ==> vertex.uv == quad.uvs@[corner] && vertex.mode == 0
    &&& is_plain(node) ==> {
        &&& vertex.uv.x == if corner == 1 || corner == 2 {
            one
        } else {
            zero
        }
        &&& vertex.uv.y == if corner == 2 || corner == 3 {
            one
        } else {
            zero
        }
        &&& vertex.mode == 1
    }
}

/// Whether six vertices, from some place on, are two triangles that make up a node: its corners at
/// the top left, the bottom right and the bottom left, and those at the top left, the top right and
/// the bottom right.
pub open spec fn are_triangles(
    vertices: Seq<UiVertex>,
    at: int,
    node: ExtractedUiNode,
    quad: Quad,
) -> bool {
    &&& 0 <= at && at + 6 <= vertices.len()
    &&& is_corner(vertices[at], node, quad, 0)
    &&& is_corner(vertices[at + 1], node, quad, 2)
    &&& is_corner(vertices[at + 2], node, quad, 3)
    &&& is_corner(vertices[at + 3], node, quad, 0)
    &&& is_corner(vertices[at + 4], node, quad, 1)
    &&& is_corner(vertices[at + 5], node, quad, 2)
}

/// The vertices of a node are two triangles that make it up, and nothing else.
pub proof fn law_vertices_are_triangles(node: ExtractedUiNode, quad: Quad)
    ensures
        quad_vertices(node, quad).len() == 6,
        are_triangles(quad_vertices(node, quad), 0, node, quad),
        forall|k: int|
            0 <= k < 6 ==> (#[trigger] quad_vertices(node, quad)[k]).color == node.color,
{
    let vertices = quad_vertices(node, quad);
    assert(QUAD_INDICES@ =~= seq![0usize, 2, 3, 0, 1, 2]);
    assert(is_corner(vertices[0], node, quad, 0));
    assert(is_corner(vertices[1], node, quad, 2));
    assert(is_corner(vertices[2], node, quad, 3));
    assert(is_corner(vertices[3], node, quad, 0));
    assert(is_corner(vertices[4], node, quad, 1));
    assert(is_corner(vertices[5], node, quad, 2));
}

/// Where an upper left, an upper right, a lower right and a lower left corner come to lie when they
/// are moved into a clip: beyond none of the sides of the clip that they are next to, and no
/// further than that takes.
pub open spec fn moved_corner(
    k: int,
    corner: (int, int),
    clip_min: (int, int),
    clip_max: (int, int),
) -> (int, int) {
    (
        if k == 0 || k == 3 {
            if corner.0 < clip_min.0 {
                clip_min.0
            } else {
                corner.0
            }
        } else {
            if corner.0 > clip_max.0 {
                clip_max.0
            } else {
                corner.0
            }
        },
        if k == 0 || k == 1 {
            if corner.1 < clip_min.1 {
                clip_min.1
            } else {
                corner.1
            }
        } else {
            if corner.1 > clip_max.1 {
                clip_max.1
            } else {
                corner.1
            }
        },
    )
}

/// Where the gaps are exact, wherever the corners are, each is moved to the side of the clip that
/// it is next to if it is beyond that, and stays otherwise, in both directions. Without a clip all
/// stay.
pub proof fn law_corners_are_moved_into_the_clip(
    gaps: ClipGaps,
    corners: Seq<(int, int)>,
    clip_min: (int, int),
    clip_max: (int, int),
    k: int,
)
    requires
        0 <= k < 4,
        !gaps.to_min@[k].has_nan(),
        !gaps.to_max@[k].has_nan(),
        gaps.to_min@[k].x.value() == clip_min.0 - corners[k].0,
        gaps.to_min@[k].y.value() == clip_min.1 - corners[k].1,
        gaps.to_max@[k].x.value() == clip_max.0 - corners[k].0,
        gaps.to_max@[k].y.value() == clip_max.1 - corners[k].1,
    ensures
        ({
            let offset = spec_clip_offsets(Some(gaps))[k];
            let moved = moved_corner(k, corners[k], clip_min, clip_max);
            &&& spec_clip_offsets(Some(gaps)).len() == 4
            &&& corners[k].0 + offset.x.value() == moved.0
            &&& corners[k].1 + offset.y.value() == moved.1
        }),
        spec_clip_offsets(None).len() == 4,
        spec_clip_offsets(None)[k].x.value() == 0 && spec_clip_offsets(None)[k].y.value() == 0,
{
    assert(Scalar::spec_zero().value() == 0);
}

/// Where the gaps are exact and something of an upright rectangle that is neither turned nor
/// reflected is within the clip, its corners are moved to those of what is within. So corners of a
/// side are moved alike, and none is left outside.
pub proof fn law_clipping_leaves_what_is_within(clipping: Clipping, size: Vec2, gaps: ClipGaps)
    requires
        clipping.has_size(size),
        clipping.has_gaps(size, gaps),
        !size.x.less(Scalar::spec_zero()),
        !size.y.less(Scalar::spec_zero()),
        clipping.leaves_something(),
    ensures
        ({
            let offsets = spec_clip_offsets(Some(gaps));
            let left = clipping.left + offsets[0].x.value();
            let right = clipping.right + offsets[1].x.value();
            let top = clipping.top + offsets[0].y.value();
            let bottom = clipping.bottom + offsets[2].y.value();
            &&& clipping.left + offsets[3].x.value() == left
            &&& clipping.right + offsets[2].x.value() == right
            &&& clipping.top + offsets[1].y.value() == top
            &&& clipping.bottom + offsets[3].y.value() == bottom
            &&& left >= clipping.clip_left && left >= clipping.left
            &&& left == clipping.clip_left || left == clipping.left
            &&& right <= clipping.clip_right && right <= clipping.right
            &&& right == clipping.clip_right || right == clipping.right
            &&& top >= clipping.clip_top && top >= clipping.top
            &&& top == clipping.clip_top || top == clipping.top
            &&& bottom <= clipping.clip_bottom && bottom <= clipping.bottom
            &&& bottom == clipping.clip_bottom || bottom == clipping.bottom
        }),
{
    assert(Scalar::spec_zero().value() == 0);
    let (a, b) = (gaps.to_min@, gaps.to_max@);
    assert(!a[0].has_nan() && !a[1].has_nan() && !a[2].has_nan() && !a[3].has_nan());
    assert(!b[0].has_nan() && !b[1].has_nan() && !b[2].has_nan() && !b[3].has_nan());
}

/// A rectangle is culled if and only if its upper side is horizontal and what is taken off is, in
/// one direction, at least its size there, whatever the sign of that is. What is not a number takes
/// no part in this.
pub proof fn law_culling(slope: Scalar, taken_off: Vec2, size: Vec2)
    ensures
        spec_is_culled(slope, taken_off, size) <==> {
            &&& !slope.is_nan() && slope.value() == 0
            &&& {
                ||| {
                    &&& !size.x.is_nan() && !taken_off.x.is_nan()
                    &&& -taken_off.x.value() <= size.x.value() <= taken_off.x.value()
                }
                ||| {
                    &&& !size.y.is_nan() && !taken_off.y.is_nan()
                    &&& -taken_off.y.value() <= size.y.value() <= taken_off.y.value()
                }
            }
        },
{
    lemma_absolute_value(size.x);
    lemma_absolute_value(size.y);
}

/// Each corner of a rectangle shows the corner of the part of the image that lies the same way;
/// where the image is flipped, the one that lies the other way in that direction. Moving a corner
/// by clipping moves what it shows along, or back where the image is flipped.
pub proof fn law_texture_corners(
    rect: Rect,
    offsets: Seq<Vec2>,
    flip_x: bool,
    flip_y: bool,
    k: int,
)
    requires
        0 <= k < 4,
        offsets.len() == 4,
    ensures
        ({
            let corners = rect_corners(spec_flip_rect(rect, flip_x, flip_y));
            let moved = offsets.map_values(
                |offset: Vec2| spec_flip_offset(offset, flip_x, flip_y),
            );
            &&& corners.len() == 4 && moved.len() == 4
            &&& corners[k].x == if (k == 0 || k == 3) != flip_x {
                rect.min.x
            } else {
                rect.max.x
            }
            &&& corners[k].y == if (k == 0 || k == 1) != flip_y {
                rect.min.y
            } else {
                rect.max.y
            }
            &&& flip_x ==> moved[k].x.value() == -offsets[k].x.value()
            &&& flip_y ==> moved[k].y.value() == -offsets[k].y.value()
            &&& !flip_x ==> moved[k].x == offsets[k].x
            &&& !flip_y ==> moved[k].y == offsets[k].y
            &&& moved[k].x.is_nan() == offsets[k].x.is_nan()
            &&& moved[k].y.is_nan() == offsets[k].y.is_nan()
        }),
{
    law_negation(offsets[k].x);
    law_negation(offsets[k].y);
}

/// Of an atlas, the image is as large as the atlas; otherwise it goes as far as what is shown of it.
pub proof fn law_image_extent(node: ExtractedUiNode, size: Vec2)
    ensures
        node.atlas_size == Some(size) ==> spec_image_extent(node) == size,
        node.atlas_size is None ==> spec_image_extent(node).x == node.rect.max.x
            && spec_image_extent(node).y == node.rect.max.y,
{
}

/// A gap that is not a number moves no corner.
pub proof fn law_what_is_not_a_number_moves_nothing(gaps: ClipGaps, k: int)
    requires
        0 <= k < 4,
    ensures
        ({
            let offset = spec_clip_offsets(Some(gaps))[k];
            let x = if k == 0 || k == 3 { gaps.to_min@[k].x } else { gaps.to_max@[k].x };
            let y = if k == 0 || k == 1 { gaps.to_min@[k].y } else { gaps.to_max@[k].y };
            &&& x.is_nan() ==> offset.x.value() == 0
            &&& y.is_nan() ==> offset.y.value() == 0
            &&& !offset.x.is_nan() && !offset.y.is_nan()
        }),
{
}

} // verus!
