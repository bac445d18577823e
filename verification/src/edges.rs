//! The four rectangles that make up the border of a node, and those that make up its outline.
use crate::geometry::{Rect, Vec2};
use crate::scalar::Scalar;
use vstd::prelude::*;

verus! {

/// Where a border lies.
#[derive(Clone, Copy, PartialEq, Eq, Structural, Debug)]
pub struct BorderCorners {
    /// The corner of the node at the top left.
    pub min: Vec2,
    /// The corner of the node at the bottom right.
    pub max: Vec2,
    /// `min`, moved in by the thickness of the left and of the top border.
    pub inset_min: Vec2,
    /// `max`, moved in by the thickness of the right and of the bottom border.
    pub inset_max: Vec2,
}

impl BorderCorners {
    /// The part of the node within its border. Where the borders meet or cross it is empty, and
    /// the left and the top border keep their thickness.
    pub open spec fn inner(self) -> Rect {
        Rect { min: self.inset_min, max: self.inset_max.spec_max(self.inset_min) }
    }

    /// The node.
    pub open spec fn outer(self) -> Rect {
        Rect { min: self.min, max: self.max }
    }

    /// The left, right, top and bottom border. The left and the right one are as high as the node,
    /// the top and the bottom one as wide as what is within the border.
    pub open spec fn spec_edges(self) -> Seq<Rect> {
        let inner = self.inner();
        seq![
            Rect { min: self.min, max: Vec2 { x: inner.min.x, y: self.max.y } },
            Rect { min: Vec2 { x: inner.max.x, y: self.min.y }, max: self.max },
            Rect {
                min: Vec2 { x: inner.min.x, y: self.min.y },
                max: Vec2 { x: inner.max.x, y: inner.min.y },
            },
            Rect {
                min: Vec2 { x: inner.min.x, y: inner.max.y },
                max: Vec2 { x: inner.max.x, y: self.max.y },
            },
        ]
    }

    /// The left, right, top and bottom border, in this order.
    pub fn edges(self) -> (r: [Rect; 4])
        ensures
            r@ == self.spec_edges(),
    {
        let inner_min = self.inset_min;
        let inner_max = self.inset_max.max(inner_min);
        let r: [Rect; 4] = [
            Rect { min: self.min, max: Vec2 { x: inner_min.x, y: self.max.y } },
            Rect { min: Vec2 { x: inner_max.x, y: self.min.y }, max: self.max },
            Rect {
                min: Vec2 { x: inner_min.x, y: self.min.y },
                max: Vec2 { x: inner_max.x, y: inner_min.y },
            },
            Rect {
                min: Vec2 { x: inner_min.x, y: inner_max.y },
                max: Vec2 { x: inner_max.x, y: self.max.y },
            },
        ];
        assert(r@ =~= self.spec_edges());
        r
    }
}

/// Where an outline lies.
#[derive(Clone, Copy, PartialEq, Eq, Structural, Debug)]
pub struct OutlineRects {
    /// What the outline runs around.
    pub inner: Rect,
    /// What the outline runs within.
    pub outer: Rect,
}

impl OutlineRects {
    /// The left, right, top and bottom edge. The left and the right one are as high as the outer
    /// rectangle, the top and the bottom one as wide as the inner.
    pub open spec fn spec_edges(self) -> Seq<Rect> {
        let inner = self.inner;
        let outer = self.outer;
        seq![
            Rect::spec_from_corners(outer.min, Vec2 { x: inner.min.x, y: outer.max.y }),
            Rect::spec_from_corners(Vec2 { x: inner.max.x, y: outer.min.y }, outer.max),
            Rect::spec_from_corners(
                Vec2 { x: inner.min.x, y: outer.min.y },
                Vec2 { x: inner.max.x, y: inner.min.y },
            ),
            Rect::spec_from_corners(
                Vec2 { x: inner.min.x, y: inner.max.y },
                Vec2 { x: inner.max.x, y: outer.max.y },
            ),
        ]
    }

    /// Whether the inner rectangle lies within the outer one.
    pub open spec fn is_nested(self) -> bool {
        &&& self.outer.min.x.less_or_same(self.inner.min.x)
        &&& self.inner.min.x.less_or_same(self.inner.max.x)
        &&& self.inner.max.x.less_or_same(self.outer.max.x)
        &&& self.outer.min.y.less_or_same(self.inner.min.y)
        &&& self.inner.min.y.less_or_same(self.inner.max.y)
        &&& self.inner.max.y.less_or_same(self.outer.max.y)
    }

    /// The left, right, top and bottom edge, in this order.
    pub fn edges(self) -> (r: [Rect; 4])
        ensures
            r@ == self.spec_edges(),
    {
        let inner = self.inner;
        let outer = self.outer;
        let r: [Rect; 4] = [
            Rect::from_corners(outer.min, Vec2 { x: inner.min.x, y: outer.max.y }),
            Rect::from_corners(Vec2 { x: inner.max.x, y: outer.min.y }, outer.max),
            Rect::from_corners(
                Vec2 { x: inner.min.x, y: outer.min.y },
                Vec2 { x: inner.max.x, y: inner.min.y },
            ),
            Rect::from_corners(
                Vec2 { x: inner.min.x, y: inner.max.y },
                Vec2 { x: inner.max.x, y: outer.max.y },
            ),
        ];
        assert(r@ =~= self.spec_edges());
        r
    }
}

/// No two borders of a node overlap, however thick they are.
pub proof fn law_borders_do_not_overlap(corners: BorderCorners, i: int, j: int, p: Vec2)
    requires
        0 <= i < j < 4,
    ensures
        !(corners.spec_edges()[i].encloses(p) && corners.spec_edges()[j].encloses(p)),
{
}

/// Every point of a node that is not within its border is on its border.
pub proof fn law_borders_fill_the_frame(corners: BorderCorners, p: Vec2)
    requires
        !corners.inset_min.has_nan(),
        corners.outer().covers(p),
        !corners.inner().encloses(p),
    ensures
        exists|i: int| 0 <= i < 4 && #[trigger] corners.spec_edges()[i].covers(p),
{
    let edges = corners.spec_edges();
    let inner = corners.inner();
    if p.x.less_or_same(inner.min.x) {
        assert(edges[0].covers(p));
    } else if inner.max.x.less_or_same(p.x) {
        assert(edges[1].covers(p));
    } else if p.y.less_or_same(inner.min.y) {
        assert(edges[2].covers(p));
    } else {
        assert(edges[3].covers(p));
    }
}

/// No border reaches into what is within the border.
pub proof fn law_borders_keep_out_of_the_inside(corners: BorderCorners, i: int, p: Vec2)
    requires
        0 <= i < 4,
    ensures
        !(corners.spec_edges()[i].encloses(p) && corners.inner().encloses(p)),
{
}

/// Where no border is thicker than the node has room for, all of them stay within the node.
pub proof fn law_borders_stay_within_the_node(corners: BorderCorners, i: int, p: Vec2)
    requires
        0 <= i < 4,
        corners.min.x.less_or_same(corners.inset_min.x),
        corners.min.y.less_or_same(corners.inset_min.y),
        corners.inner().max.x.less_or_same(corners.max.x),
        corners.inner().max.y.less_or_same(corners.max.y),
        corners.spec_edges()[i].encloses(p),
    ensures
        corners.outer().encloses(p),
{
}

/// No two edges of an outline overlap.
pub proof fn law_outline_edges_do_not_overlap(rects: OutlineRects, i: int, j: int, p: Vec2)
    requires
        rects.is_nested(),
        0 <= i < j < 4,
    ensures
        !(rects.spec_edges()[i].encloses(p) && rects.spec_edges()[j].encloses(p)),
{
}

/// Every point within the outer rectangle that is not within the inner one is on the outline.
pub proof fn law_outline_fills_the_frame(rects: OutlineRects, p: Vec2)
    requires
        rects.is_nested(),
        rects.outer.covers(p),
        !rects.inner.encloses(p),
    ensures
        exists|i: int| 0 <= i < 4 && #[trigger] rects.spec_edges()[i].covers(p),
{
    let edges = rects.spec_edges();
    if p.x.less_or_same(rects.inner.min.x) {
        assert(edges[0].covers(p));
    } else if rects.inner.max.x.less_or_same(p.x) {
        assert(edges[1].covers(p));
    } else if p.y.less_or_same(rects.inner.min.y) {
        assert(edges[2].covers(p));
    } else {
        assert(edges[3].covers(p));
    }
}

/// No edge of an outline reaches into the inner rectangle or out of the outer one.
pub proof fn law_outline_stays_in_the_frame(rects: OutlineRects, i: int, p: Vec2)
    requires
        rects.is_nested(),
        0 <= i < 4,
        rects.spec_edges()[i].encloses(p),
    ensures
        !rects.inner.encloses(p),
        rects.outer.encloses(p),
{
}

/// Where the borders do not meet, a point of the node is on the left border if it is to the left of
/// where that ends, on the right one if it is to the right of where that begins, and on the top or
/// bottom one if it is between these and above or below where those end or begin.
pub proof fn law_points_on_borders(corners: BorderCorners, p: Vec2)
    requires
        !p.has_nan(),
        !corners.min.has_nan(),
        !corners.max.has_nan(),
        !corners.inset_min.has_nan(),
        !corners.inset_max.has_nan(),
        corners.inset_min.x.value() <= corners.inset_max.x.value(),
        corners.inset_min.y.value() <= corners.inset_max.y.value(),
    ensures
        ({
            let edges = corners.spec_edges();
            let (x, y) = (p.x.value(), p.y.value());
            let between = corners.inset_min.x.value() < x < corners.inset_max.x.value();
            &&& edges.len() == 4
            &&& edges[0].encloses(p) <==> corners.min.x.value() < x < corners.inset_min.x.value()
                && corners.min.y.value() < y < corners.max.y.value()
            &&& edges[1].encloses(p) <==> corners.inset_max.x.value() < x < corners.max.x.value()
                && corners.min.y.value() < y < corners.max.y.value()
            &&& edges[2].encloses(p) <==> between && corners.min.y.value() < y
                < corners.inset_min.y.value()
            &&& edges[3].encloses(p) <==> between && corners.inset_max.y.value() < y
                < corners.max.y.value()
        }),
{
}

/// Where the left and the right border would cross, the left one keeps its thickness, the right one
/// takes the rest of the node, and there is neither a top nor a bottom border. Where the top and
/// the bottom border would cross, the top one keeps its thickness and the bottom one takes the
/// rest.
pub proof fn law_borders_that_would_cross(corners: BorderCorners)
    requires
        !corners.min.has_nan(),
        !corners.max.has_nan(),
        !corners.inset_min.has_nan(),
        !corners.inset_max.has_nan(),
    ensures
        ({
            let edges = corners.spec_edges();
            &&& edges[0].min == corners.min
            &&& edges[0].max.x == corners.inset_min.x && edges[0].max.y == corners.max.y
            &&& edges[1].max == corners.max
            &&& edges[1].min.y == corners.min.y
            &&& edges[2].min.y == corners.min.y && edges[2].max.y == corners.inset_min.y
            &&& edges[3].max.y == corners.max.y
            &&& corners.inset_max.x.value() < corners.inset_min.x.value() ==> {
                &&& edges[1].min.x == corners.inset_min.x
                &&& !edges[2].has_area() && !edges[3].has_area()
            }
            &&& corners.inset_max.y.value() < corners.inset_min.y.value() ==> edges[3].min.y
                == corners.inset_min.y
        }),
{
}

/// The edges of an outline lie between the sides of its two rectangles, in whichever order these
/// are: the left and the right one along the whole height of the outer rectangle, the top and the
/// bottom one along the width of the inner one.
pub proof fn law_sides_of_outline_edges(rects: OutlineRects)
    requires
        !rects.inner.min.has_nan(),
        !rects.inner.max.has_nan(),
        !rects.outer.min.has_nan(),
        !rects.outer.max.has_nan(),
    ensures
        ({
            let edges = rects.spec_edges();
            let (inner, outer) = (rects.inner, rects.outer);
            &&& edges.len() == 4
            &&& spans(edges[0].min.x, edges[0].max.x, outer.min.x, inner.min.x)
            &&& spans(edges[0].min.y, edges[0].max.y, outer.min.y, outer.max.y)
            &&& spans(edges[1].min.x, edges[1].max.x, inner.max.x, outer.max.x)
            &&& spans(edges[1].min.y, edges[1].max.y, outer.min.y, outer.max.y)
            &&& spans(edges[2].min.x, edges[2].max.x, inner.min.x, inner.max.x)
            &&& spans(edges[2].min.y, edges[2].max.y, outer.min.y, inner.min.y)
            &&& spans(edges[3].min.x, edges[3].max.x, inner.min.x, inner.max.x)
            &&& spans(edges[3].min.y, edges[3].max.y, inner.max.y, outer.max.y)
        }),
{
}

/// Whether two numbers are two others, in order.
pub open spec fn spans(min: Scalar, max: Scalar, a: Scalar, b: Scalar) -> bool {
    &&& min.value() <= max.value()
    &&& (min.value() == a.value() && max.value() == b.value()) || (min.value() == b.value()
        && max.value() == a.value())
}

} // verus!
