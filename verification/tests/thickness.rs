use ui_render::geometry::Vec2;
use ui_render::scalar::Scalar;
use ui_render::thickness::{
    at_least_zero, border_base_width, resolve_border_thickness, Thickness, Val,
};

fn scalar(n: f32) -> Scalar {
    Scalar { bits: n.to_bits() }
}

fn resolve(value: Val) -> Thickness {
    resolve_border_thickness(
        value,
        scalar(300.0),
        Vec2 {
            x: scalar(800.0),
            y: scalar(600.0),
        },
    )
}

fn share(base: f32, percent: f32) -> Thickness {
    Thickness::Share {
        base: scalar(base),
        percent: scalar(percent),
    }
}

#[test]
fn automatic_border_is_nothing() {
    assert_eq!(resolve(Val::Auto), Thickness::Fixed(scalar(0.0)));
}

#[test]
fn pixels_are_not_negative() {
    assert_eq!(
        resolve(Val::Px(scalar(3.5))),
        Thickness::Fixed(scalar(3.5))
    );
    assert_eq!(
        resolve(Val::Px(scalar(-3.5))),
        Thickness::Fixed(scalar(0.0))
    );
    assert_eq!(
        resolve(Val::Px(scalar(f32::NAN))),
        Thickness::Fixed(scalar(0.0))
    );
}

#[test]
fn percentages_are_taken_of_the_right_length() {
    assert_eq!(resolve(Val::Percent(scalar(5.0))), share(300.0, 5.0));
    assert_eq!(resolve(Val::Vw(scalar(5.0))), share(800.0, 5.0));
    assert_eq!(resolve(Val::Vh(scalar(5.0))), share(600.0, 5.0));
    assert_eq!(resolve(Val::VMin(scalar(5.0))), share(600.0, 5.0));
    assert_eq!(resolve(Val::VMax(scalar(5.0))), share(800.0, 5.0));
}

#[test]
fn negative_shares_are_cut_off() {
    assert_eq!(at_least_zero(scalar(-0.25)), scalar(0.0));
    assert_eq!(at_least_zero(scalar(0.25)), scalar(0.25));
    assert_eq!(at_least_zero(scalar(f32::NAN)), scalar(0.0));
    assert_eq!(
        at_least_zero(scalar(f32::INFINITY)),
        scalar(f32::INFINITY)
    );
}

#[test]
fn width_without_a_parent_is_that_of_the_viewport() {
    let viewport = Vec2 {
        x: scalar(800.0),
        y: scalar(600.0),
    };
    assert_eq!(
        border_base_width(Some(scalar(300.0)), viewport),
        scalar(300.0)
    );
    assert_eq!(border_base_width(None, viewport), scalar(800.0));
}

#[test]
fn sides_of_the_viewport_can_be_exchanged() {
    let resolve_in = |value: Val, x: f32, y: f32| {
        resolve_border_thickness(
            value,
            scalar(300.0),
            Vec2 {
                x: scalar(x),
                y: scalar(y),
            },
        )
    };
    let five = scalar(5.0);
    assert_eq!(
        resolve_in(Val::Vw(five), 600.0, 800.0),
        resolve(Val::Vh(five))
    );
    assert_eq!(
        resolve_in(Val::Vh(five), 600.0, 800.0),
        resolve(Val::Vw(five))
    );
    assert_eq!(
        resolve_in(Val::VMin(five), 600.0, 800.0),
        resolve(Val::VMin(five))
    );
    assert_eq!(
        resolve_in(Val::VMax(five), 600.0, 800.0),
        resolve(Val::VMax(five))
    );
}
