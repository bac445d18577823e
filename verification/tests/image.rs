use bevy_asset::{AssetId, LoadedUntypedAsset};
use ui_render::image::{ImageId, ImageSet};

fn of_outside(id: AssetId<LoadedUntypedAsset>) -> ImageId {
    match id {
        AssetId::Uuid { uuid } => ImageId::Uuid {
            uuid: uuid.as_u128(),
        },
        AssetId::Index { .. } => unreachable!(),
    }
}

#[test]
fn image_of_a_node_without_one() {
    assert_eq!(ImageId::none(), of_outside(AssetId::default()));
    assert_eq!(
        ImageId::none(),
        ImageId::Uuid {
            uuid: 200809721996911295814598172825939264631
        }
    );
}

#[test]
fn image_that_is_none() {
    assert_eq!(ImageId::invalid(), of_outside(AssetId::invalid()));
    assert_eq!(
        ImageId::invalid(),
        ImageId::Uuid {
            uuid: 108428345662029828789348721013522787528
        }
    );
    assert_ne!(ImageId::invalid(), ImageId::none());
}

#[test]
fn set_of_images() {
    let a = ImageId::Index { number: 1 };
    let b = ImageId::Uuid { uuid: 1 };
    let mut set = ImageSet::new();
    assert!(!set.contains(a));
    assert!(set.insert(a));
    assert!(!set.insert(a));
    assert!(set.contains(a));
    assert!(!set.contains(b));
    assert!(set.insert(b));
    set.remove(a);
    assert!(!set.contains(a));
    assert!(set.contains(b));
    set.remove(a);
    assert!(set.contains(b));
    assert!(set.insert(a));
}
