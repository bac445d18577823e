use ui_render::camera::{
    extract_default_ui_camera_view, CameraRow, CameraView, DefaultCameraView, URect, UVec2,
    Viewport,
};
use ui_render::entity::Entity;
use ui_render::geometry::Vec2;
use ui_render::scalar::Scalar;

fn entity(index: u64) -> Entity {
    Entity::try_from_bits(0x1_0000_0000 + index).unwrap()
}

fn size() -> Vec2 {
    Vec2 {
        x: Scalar::from_u32(640),
        y: Scalar::from_u32(480),
    }
}

fn camera(index: u64) -> CameraRow {
    CameraRow {
        entity: entity(index),
        is_active: true,
        hdr: index % 2 == 1,
        logical_viewport_size: Some(size()),
        physical_viewport_rect: Some(URect {
            min: UVec2 { x: 10, y: 20 },
            max: UVec2 { x: 1290, y: 980 },
        }),
        physical_viewport_size: Some(UVec2 { x: 1280, y: 960 }),
    }
}

fn view(index: u64) -> CameraView {
    CameraView {
        camera: entity(index),
        logical_size: size(),
        viewport: Viewport {
            x: 10,
            y: 20,
            width: 1280,
            height: 960,
        },
        hdr: index % 2 == 1,
    }
}

#[test]
fn active_cameras_have_views() {
    assert_eq!(
        extract_default_ui_camera_view(&vec![camera(4), camera(3)]),
        vec![view(4), view(3)]
    );
}

#[test]
fn inactive_cameras_are_ignored() {
    let mut off = camera(4);
    off.is_active = false;
    assert_eq!(off.ui_view(), None);
    assert_eq!(
        extract_default_ui_camera_view(&vec![camera(1), off, camera(2)]),
        vec![view(1), view(2)]
    );
}

#[test]
fn cameras_without_a_known_viewport_are_ignored() {
    let mut no_size = camera(1);
    no_size.logical_viewport_size = None;
    let mut no_rect = camera(2);
    no_rect.physical_viewport_rect = None;
    let mut no_physical_size = camera(3);
    no_physical_size.physical_viewport_size = None;
    assert_eq!(
        extract_default_ui_camera_view(&vec![no_size, no_rect, no_physical_size]),
        vec![]
    );
    assert_eq!(extract_default_ui_camera_view(&vec![]), vec![]);
}

#[test]
fn a_camera_knows_its_view() {
    assert_eq!(DefaultCameraView(entity(2)).0, entity(2));
}
