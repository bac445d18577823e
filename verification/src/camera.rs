//! Finding out which cameras show an interface, and where on the screen.
use crate::entity::Entity;
use crate::geometry::Vec2;
use vstd::prelude::*;

verus! {

/// A point or a size in physical pixels.
#[derive(Clone, Copy, PartialEq, Eq, Structural, Debug)]
pub struct UVec2 {
    pub x: u32,
    pub y: u32,
}

/// A rectangle in physical pixels.
#[derive(Clone, Copy, PartialEq, Eq, Structural, Debug)]
pub struct URect {
    pub min: UVec2,
    pub max: UVec2,
}

/// The part of the screen that a view covers: its corner at the top left, its width and its height.
#[derive(Clone, Copy, PartialEq, Eq, Structural, Debug)]
pub struct Viewport {
    pub x: u32,
    pub y: u32,
    pub width: u32,
    pub height: u32,
}

/// The view that a camera shows the interface in.
#[derive(Clone, Copy, PartialEq, Eq, Structural, Debug)]
pub struct DefaultCameraView(pub Entity);

/// A camera.
#[derive(Clone, Copy, PartialEq, Eq, Structural, Debug)]
pub struct CameraRow {
    pub entity: Entity,
    pub is_active: bool,
    pub hdr: bool,
    /// The size of what the camera shows, if it is known.
    pub logical_viewport_size: Option<Vec2>,
    pub physical_viewport_rect: Option<URect>,
    pub physical_viewport_size: Option<UVec2>,
}

/// A view that a camera is to show the interface in.
#[derive(Clone, Copy, PartialEq, Eq, Structural, Debug)]
pub struct CameraView {
    pub camera: Entity,
    /// The size of the view, before it is divided by the scale of the interface.
    pub logical_size: Vec2,
    pub viewport: Viewport,
    pub hdr: bool,
}

impl CameraRow {
    /// The view of a camera. An inactive camera shows nothing, nor does one whose viewport is not
    /// known.
    pub open spec fn spec_view(self) -> Option<CameraView> {
        match (
            self.logical_viewport_size,
            self.physical_viewport_rect,
            self.physical_viewport_size,
        ) {
            (Some(logical_size), Some(rect), Some(size)) if self.is_active => Some(
                CameraView {
                    camera: self.entity,
                    logical_size,
                    viewport: Viewport {
                        x: rect.min.x,
                        y: rect.min.y,
                        width: size.x,
                        height: size.y,
                    },
                    hdr: self.hdr,
                },
            ),
            _ => None,
        }
    }

    /// The view of a camera, if it shows something.
    pub fn ui_view(&self) -> (r: Option<CameraView>)
        ensures
            r == self.spec_view(),
    {
        if !self.is_active {
            return None;
        }
        match (
            self.logical_viewport_size,
            self.physical_viewport_rect,
            self.physical_viewport_size,
        ) {
            (Some(logical_size), Some(rect), Some(size)) => Some(
                CameraView {
                    camera: self.entity,
                    logical_size,
                    viewport: Viewport {
                        x: rect.min.x,
                        y: rect.min.y,
                        width: size.x,
                        height: size.y,
                    },
                    hdr: self.hdr,
                },
            ),
            _ => None,
        }
    }
}

/// The views of some cameras, in order.
pub open spec fn camera_views(rows: Seq<CameraRow>) -> Seq<CameraView>
    decreases rows.len(),
{
    if rows.len() == 0 {
        Seq::empty()
    } else {
        let before = camera_views(rows.drop_last());
        match rows.last().spec_view() {
            Some(view) => before.push(view),
            None => before,
        }
    }
}

/// The views that cameras are to show the interface in.
pub fn extract_default_ui_camera_view(rows: &Vec<CameraRow>) -> (r: Vec<CameraView>)
    ensures
        r@ == camera_views(rows@),
{
    let mut views: Vec<CameraView> = Vec::new();
    for k in 0..rows.len()
        invariant
            views@ == camera_views(rows@.take(k as int)),
    {
        proof {
            assert(rows@.take(k + 1).drop_last() =~= rows@.take(k as int));
            assert(rows@.take(k + 1).last() == rows@[k as int]);
        }
        if let Some(view) = rows[k].ui_view() {
            views.push(view);
        }
    }
    assert(rows@.take(rows@.len() as int) =~= rows@);
    views
}

/// A camera that is active and whose viewport is known adds one view, which is its own: it is as
/// large as the camera says, begins where its viewport begins on the screen, and is drawn as the
/// camera is.
pub proof fn law_active_camera_adds_a_view(
    rows: Seq<CameraRow>,
    row: CameraRow,
    logical_size: Vec2,
    rect: URect,
    size: UVec2,
)
    requires
        row.is_active,
        row.logical_viewport_size == Some(logical_size),
        row.physical_viewport_rect == Some(rect),
        row.physical_viewport_size == Some(size),
    ensures
        ({
            let before = camera_views(rows);
            let after = camera_views(rows.push(row));
            let view = after.last();
            &&& after.len() == before.len() + 1
            &&& after.drop_last() == before
            &&& view.camera == row.entity
            &&& view.logical_size == logical_size
            &&& view.viewport.x == rect.min.x && view.viewport.y == rect.min.y
            &&& view.viewport.width == size.x && view.viewport.height == size.y
            &&& view.hdr == row.hdr
        }),
{
    assert(rows.push(row).drop_last() =~= rows);
    assert(camera_views(rows.push(row)).drop_last() =~= camera_views(rows));
}

/// A camera that is inactive, or of whose viewport something is not known, adds no view.
pub proof fn law_other_camera_adds_no_view(rows: Seq<CameraRow>, row: CameraRow)
    requires
        !row.is_active || row.logical_viewport_size is None || row.physical_viewport_rect is None
            || row.physical_viewport_size is None,
    ensures
        camera_views(rows.push(row)) == camera_views(rows),
        camera_views(Seq::empty()).len() == 0,
{
    assert(rows.push(row).drop_last() =~= rows);
}

} // verus!
