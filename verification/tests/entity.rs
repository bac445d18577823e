use ui_render::entity::Entity;

#[test]
fn bits_of_an_entity() {
    let outside = bevy_ecs::entity::Entity::from_raw(7);
    let entity = Entity::try_from_bits(outside.to_bits()).unwrap();
    assert_eq!(entity.to_bits(), outside.to_bits());
    assert_eq!(entity.index(), 7);
    assert_eq!(entity.index(), outside.index());
}

#[test]
fn bits_that_are_no_entity() {
    assert_eq!(Entity::try_from_bits(0), None);
    assert_eq!(Entity::try_from_bits(7), None);
    assert_eq!(Entity::try_from_bits(0xffff_ffff), None);
    assert_eq!(Entity::try_from_bits(0x8000_0000_0000_0000), None);
    assert_eq!(Entity::try_from_bits(0x8000_0001_0000_0007), None);
    assert_eq!(Entity::try_from_bits(u64::MAX), None);
}

#[test]
fn limits_of_the_generation() {
    assert!(Entity::try_from_bits(0x1_0000_0000).is_some());
    assert!(Entity::try_from_bits(0x7fff_ffff_ffff_ffff).is_some());
    assert!(Entity::try_from_bits(0x7fff_ffff_0000_0000).is_some());
}

#[test]
fn generations_tell_entities_with_the_same_index_apart() {
    let old = Entity::try_from_bits(0x1_0000_0005).unwrap();
    let new = Entity::try_from_bits(0x2_0000_0005).unwrap();
    assert_ne!(old, new);
    assert_eq!(old.index(), new.index());
    assert_eq!(new.index(), 5);
}
