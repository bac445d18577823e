//! How thick the border of a node is.
use crate::geometry::Vec2;
use crate::scalar::Scalar;
use vstd::prelude::*;

verus! {

/// A length in the style of a node.
#[derive(Clone, Copy, PartialEq, Eq, Structural, Debug)]
pub enum Val {
    /// Left to the layout.
    Auto,
    /// Logical pixels.
    Px(Scalar),
    /// A percentage of the width of the parent.
    Percent(Scalar),
    /// A percentage of the width of the viewport.
    Vw(Scalar),
    /// A percentage of the height of the viewport.
    Vh(Scalar),
    /// A percentage of the smaller side of the viewport.
    VMin(Scalar),
    /// A percentage of the larger side of the viewport.
    VMax(Scalar),
}

/// What a border thickness comes to.
#[derive(Clone, Copy, PartialEq, Eq, Structural, Debug)]
pub enum Thickness {
    /// This many logical pixels.
    Fixed(Scalar),
    /// This percentage of a length, or nothing where that is negative.
    Share { base: Scalar, percent: Scalar },
}

/// A thickness, without the part below zero. It is nothing where no number is given.
pub open spec fn spec_at_least_zero(thickness: Scalar) -> Scalar {
    thickness.spec_max(Scalar::spec_zero())
}

/// What a border thickness comes to, in a node whose parent is `parent_width` wide.
pub open spec fn spec_resolve_border_thickness(
    value: Val,
    parent_width: Scalar,
    viewport_size: Vec2,
) -> Thickness {
    match value {
        Val::Auto => Thickness::Fixed(Scalar::spec_zero()),
        Val::Px(px) => Thickness::Fixed(spec_at_least_zero(px)),
        Val::Percent(percent) => Thickness::Share { base: parent_width, percent },
        Val::Vw(percent) => Thickness::Share { base: viewport_size.x, percent },
        Val::Vh(percent) => Thickness::Share { base: viewport_size.y, percent },
        Val::VMin(percent) => Thickness::Share {
            base: viewport_size.x.spec_min(viewport_size.y),
            percent,
        },
        Val::VMax(percent) => Thickness::Share {
            base: viewport_size.x.spec_max(viewport_size.y),
            percent,
        },
    }
}

/// A thickness, without the part below zero.
pub fn at_least_zero(thickness: Scalar) -> (r: Scalar)
    ensures
        r == spec_at_least_zero(thickness),
        Scalar::spec_zero().less_or_same(r),
{
    let zero = Scalar::zero();
    thickness.max(zero)
}

/// What a border thickness comes to. Percentages of a share are taken, and cut off at zero by
/// [`at_least_zero`], where numbers are computed with.
pub fn resolve_border_thickness(value: Val, parent_width: Scalar, viewport_size: Vec2) -> (r:
    Thickness)
    ensures
        r == spec_resolve_border_thickness(value, parent_width, viewport_size),
        r matches Thickness::Fixed(thickness) ==> Scalar::spec_zero().less_or_same(thickness),
{
    match value {
        Val::Auto => Thickness::Fixed(Scalar::zero()),
        Val::Px(px) => Thickness::Fixed(at_least_zero(px)),
        Val::Percent(percent) => Thickness::Share { base: parent_width, percent },
        Val::Vw(percent) => Thickness::Share { base: viewport_size.x, percent },
        Val::Vh(percent) => Thickness::Share { base: viewport_size.y, percent },
        Val::VMin(percent) => Thickness::Share {
            base: viewport_size.x.min(viewport_size.y),
            percent,
        },
        Val::VMax(percent) => Thickness::Share {
            base: viewport_size.x.max(viewport_size.y),
            percent,
        },
    }
}

/// What a thickness comes to in numbers, where `share` takes a percentage of a length.
pub open spec fn amount(thickness: Thickness, share: spec_fn(Scalar, Scalar) -> Scalar) -> Scalar {
    match thickness {
        Thickness::Fixed(pixels) => pixels,
        Thickness::Share { base, percent } => spec_at_least_zero(share(base, percent)),
    }
}

/// A percentage of the smaller side of the viewport is taken of the smaller of the lengths that
/// percentages of its width and of its height are taken of, and one of the larger side of the
/// larger of them.
pub proof fn law_smaller_and_larger_side(percent: Scalar, parent_width: Scalar, viewport_size: Vec2)
    ensures
        ({
            let of = |value: Val| spec_resolve_border_thickness(value, parent_width, viewport_size);
            let width = of(Val::Vw(percent))->base;
            let height = of(Val::Vh(percent))->base;
            let smaller = of(Val::VMin(percent));
            let larger = of(Val::VMax(percent));
            &&& smaller == Thickness::Share { base: width.spec_min(height), percent }
            &&& larger == Thickness::Share { base: width.spec_max(height), percent }
            &&& !viewport_size.has_nan() ==> {
                &&& smaller->base.less_or_same(width) && smaller->base.less_or_same(height)
                &&& width.less_or_same(larger->base) && height.less_or_same(larger->base)
            }
        }),
{
}

/// When the sides of the viewport are exchanged, percentages of its width and of its height change
/// places, and those of its smaller and of its larger side are taken of the same number as before,
/// unless neither side is a number.
pub proof fn law_sides_can_be_exchanged(percent: Scalar, parent_width: Scalar, viewport_size: Vec2)
    ensures
        ({
            let exchanged = Vec2 { x: viewport_size.y, y: viewport_size.x };
            let of = |value: Val| spec_resolve_border_thickness(value, parent_width, viewport_size);
            let then_of = |value: Val|
                spec_resolve_border_thickness(value, parent_width, exchanged);
            &&& then_of(Val::Vw(percent)) == of(Val::Vh(percent))
            &&& then_of(Val::Vh(percent)) == of(Val::Vw(percent))
            &&& !(viewport_size.x.is_nan() && viewport_size.y.is_nan()) ==> {
                &&& then_of(Val::VMin(percent))->base.same(of(Val::VMin(percent))->base)
                &&& then_of(Val::VMax(percent))->base.same(of(Val::VMax(percent))->base)
            }
        }),
{
}

/// Where a percentage of a longer length is not less than that of a shorter one, a border of a
/// percentage of the smaller side of the viewport is the thinner of the borders of that percentage
/// of its width and of its height, and one of the larger side the thicker of them.
pub proof fn law_thinner_and_thicker_border(
    percent: Scalar,
    parent_width: Scalar,
    viewport_size: Vec2,
    share: spec_fn(Scalar, Scalar) -> Scalar,
)
    requires
        !viewport_size.has_nan(),
        forall|a: Scalar, b: Scalar|
            #![trigger share(a, percent), share(b, percent)]
            a.less_or_same(b) ==> share(a, percent).less_or_same(share(b, percent)),
    ensures
        ({
            let of = |value: Val|
                amount(
                    spec_resolve_border_thickness(value, parent_width, viewport_size),
                    share,
                );
            let of_width = of(Val::Vw(percent));
            let of_height = of(Val::Vh(percent));
            &&& of(Val::VMin(percent)).same(of_width.spec_min(of_height))
            &&& of(Val::VMax(percent)).same(of_width.spec_max(of_height))
        }),
{
    let width = viewport_size.x;
    let height = viewport_size.y;
    assert(width.less_or_same(width));
    assert(share(width, percent).less_or_same(share(height, percent)) || share(
        height,
        percent,
    ).less_or_same(share(width, percent)));
}

/// The width that percentages of a border, horizontal and vertical ones, are taken of: that of the
/// parent, or of the viewport where there is no parent with a size.
pub open spec fn spec_border_base_width(
    parent_width: Option<Scalar>,
    viewport_size: Vec2,
) -> Scalar {
    match parent_width {
        Some(width) => width,
        None => viewport_size.x,
    }
}

/// The width that percentages of a border are taken of.
pub fn border_base_width(parent_width: Option<Scalar>, viewport_size: Vec2) -> (r: Scalar)
    ensures
        r == spec_border_base_width(parent_width, viewport_size),
{
    match parent_width {
        Some(width) => width,
        None => viewport_size.x,
    }
}

/// Without a parent, a percentage comes to the same as that of the width of the viewport; with one,
/// the viewport does not matter to it.
pub proof fn law_border_base_width(percent: Scalar, width: Scalar, a: Vec2, b: Vec2)
    ensures
        spec_resolve_border_thickness(
            Val::Percent(percent),
            spec_border_base_width(None, a),
            a,
        ) == spec_resolve_border_thickness(Val::Vw(percent), width, a),
        spec_border_base_width(Some(width), a) == spec_border_base_width(Some(width), b),
        spec_border_base_width(Some(width), a) == width,
{
}

/// A thickness is never negative: one that is negative or not a number comes to nothing, and any
/// other to itself.
pub proof fn law_thickness_is_not_negative(thickness: Scalar)
    ensures
        !spec_at_least_zero(thickness).is_nan(),
        thickness.is_nan() || thickness.value() <= 0 ==> spec_at_least_zero(thickness).value() == 0,
        !thickness.is_nan() && thickness.value() > 0 ==> spec_at_least_zero(thickness) == thickness,
{
}

/// Pixels come to themselves, unless they are negative or not a number. A border that is left to
/// the layout comes to nothing.
pub proof fn law_fixed_thickness(px: Scalar, parent_width: Scalar, viewport_size: Vec2)
    ensures
        ({
            let of = |value: Val| spec_resolve_border_thickness(value, parent_width, viewport_size);
            &&& of(Val::Auto) is Fixed
            &&& of(Val::Auto)->Fixed_0.value() == 0 && !of(Val::Auto)->Fixed_0.is_nan()
            &&& of(Val::Px(px)) is Fixed
            &&& px.is_nan() || px.value() <= 0 ==> of(Val::Px(px))->Fixed_0.value() == 0
            &&& !px.is_nan() && px.value() > 0 ==> of(Val::Px(px))->Fixed_0 == px
        }),
{
}

/// Every percentage is kept. It is taken of the width of the parent, of the width of the viewport
/// or of its height, or of the one of the two that is smaller or larger.
pub proof fn law_percentages(percent: Scalar, parent_width: Scalar, viewport_size: Vec2)
    ensures
        ({
            let of = |value: Val| spec_resolve_border_thickness(value, parent_width, viewport_size);
            let (x, y) = (viewport_size.x, viewport_size.y);
            &&& of(Val::Percent(percent)) == Thickness::Share { base: parent_width, percent }
            &&& of(Val::Vw(percent)) == Thickness::Share { base: x, percent }
            &&& of(Val::Vh(percent)) == Thickness::Share { base: y, percent }
            &&& of(Val::VMin(percent)) is Share && of(Val::VMin(percent))->percent == percent
            &&& of(Val::VMax(percent)) is Share && of(Val::VMax(percent))->percent == percent
            &&& !x.is_nan() && !y.is_nan() && x.value() < y.value() ==> {
                &&& of(Val::VMin(percent))->base == x
                &&& of(Val::VMax(percent))->base == y
            }
            &&& !x.is_nan() && !y.is_nan() && y.value() < x.value() ==> {
                &&& of(Val::VMin(percent))->base == y
                &&& of(Val::VMax(percent))->base == x
            }
        }),
{
}

} // verus!
