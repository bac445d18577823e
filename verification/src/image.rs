//! Identifiers of images, and sets of them.
use vstd::prelude::*;

verus! {

/// The identifier of an image.
#[derive(Clone, Copy, PartialEq, Eq, Structural, Debug)]
pub enum ImageId {
    /// An image among those that were loaded, by a number that no other has.
    Index { number: u64 },
    /// A name that is fixed beforehand.
    Uuid { uuid: u128 },
}

/// The name of the image of a node that has none.
pub const DEFAULT_UUID: u128 = 200809721996911295814598172825939264631;

/// The name that no image has.
pub const INVALID_UUID: u128 = 108428345662029828789348721013522787528;

/// Reads `AssetId::DEFAULT_UUID` of `bevy_asset`, which is the identifier that
/// `AssetId::default` makes. It is the same for every type of asset.
#[verifier::external_body]
fn default_uuid() -> (r: u128)
    ensures
        r == DEFAULT_UUID,
{
    bevy_asset::AssetId::<bevy_asset::LoadedUntypedAsset>::DEFAULT_UUID.as_u128()
}

/// Reads `AssetId::INVALID_UUID` of `bevy_asset`, which is the identifier that
/// `AssetId::invalid` makes. It is the same for every type of asset.
#[verifier::external_body]
fn invalid_uuid() -> (r: u128)
    ensures
        r == INVALID_UUID,
{
    bevy_asset::AssetId::<bevy_asset::LoadedUntypedAsset>::INVALID_UUID.as_u128()
}

impl ImageId {
    /// The image of a node that has none: a single white pixel.
    pub open spec fn spec_none() -> ImageId {
        ImageId::Uuid { uuid: DEFAULT_UUID }
    }

    /// The identifier that no image has.
    pub open spec fn spec_invalid() -> ImageId {
        ImageId::Uuid { uuid: INVALID_UUID }
    }

    /// The image of a node that has none.
    pub fn none() -> (r: ImageId)
        ensures
            r == ImageId::spec_none(),
    {
        ImageId::Uuid { uuid: default_uuid() }
    }

    /// The identifier that no image has.
    pub fn invalid() -> (r: ImageId)
        ensures
            r == ImageId::spec_invalid(),
    {
        ImageId::Uuid { uuid: invalid_uuid() }
    }

    /// What tells one identifier from another.
    pub open spec fn spec_key(self) -> (bool, u128) {
        match self {
            ImageId::Index { number } => (false, number as u128),
            ImageId::Uuid { uuid } => (true, uuid),
        }
    }

    fn key(self) -> (r: (bool, u128))
        ensures
            r == self.spec_key(),
    {
        match self {
            ImageId::Index { number } => (false, number as u128),
            ImageId::Uuid { uuid } => (true, uuid),
        }
    }
}

/// A hash map of `bevy_utils` from the keys of images to nothing.
#[verifier::external_body]
pub struct ImageKeys {
    inner: bevy_utils::HashMap<(bool, u128), ()>,
}

/// The keys that a hash map holds.
pub uninterp spec fn image_keys(keys: ImageKeys) -> Set<(bool, u128)>;

impl ImageKeys {
    /// Calls `HashMap::default` of `bevy_utils`, which makes an empty map.
    #[verifier::external_body]
    fn new() -> (r: ImageKeys)
        ensures
            image_keys(r) == Set::<(bool, u128)>::empty(),
    {
        ImageKeys { inner: bevy_utils::HashMap::default() }
    }

    /// Calls `HashMap::contains_key` of `bevy_utils`, which says whether the map holds a key.
    #[verifier::external_body]
    fn contains(&self, key: (bool, u128)) -> (r: bool)
        ensures
            r == image_keys(*self).contains(key),
    {
        self.inner.contains_key(&key)
    }

    /// Calls `HashMap::insert` of `bevy_utils`, which adds a key and gives back what the map held
    /// for it. The result says that it held nothing.
    #[verifier::external_body]
    fn insert(&mut self, key: (bool, u128)) -> (r: bool)
        ensures
            image_keys(*final(self)) == image_keys(*old(self)).insert(key),
            r == !image_keys(*old(self)).contains(key),
    {
        self.inner.insert(key, ()).is_none()
    }

    /// Calls `HashMap::remove` of `bevy_utils`, which takes a key out of the map, if it holds it.
    #[verifier::external_body]
    fn remove(&mut self, key: (bool, u128))
        ensures
            image_keys(*final(self)) == image_keys(*old(self)).remove(key),
    {
        self.inner.remove(&key);
    }
}

/// A set of images.
pub struct ImageSet {
    keys: ImageKeys,
}

impl View for ImageSet {
    type V = Set<ImageId>;

    closed spec fn view(&self) -> Set<ImageId> {
        Set::new(|image: ImageId| image_keys(self.keys).contains(image.spec_key()))
    }
}

impl ImageSet {
    /// The set without images.
    pub fn new() -> (r: ImageSet)
        ensures
            r@ == Set::<ImageId>::empty(),
    {
        let r = ImageSet { keys: ImageKeys::new() };
        assert(r@ =~= Set::<ImageId>::empty());
        r
    }

    /// Whether an image is in the set.
    pub fn contains(&self, image: ImageId) -> (r: bool)
        ensures
            r == self@.contains(image),
    {
        self.keys.contains(image.key())
    }

    /// Adds an image. The result says whether it is new to the set.
    pub fn insert(&mut self, image: ImageId) -> (r: bool)
        ensures
            final(self)@ == old(self)@.insert(image),
            r == !old(self)@.contains(image),
    {
        let r = self.keys.insert(image.key());
        assert(self@ =~= old(self)@.insert(image));
        r
    }

    /// Takes an image out.
    pub fn remove(&mut self, image: ImageId)
        ensures
            final(self)@ == old(self)@.remove(image),
    {
        self.keys.remove(image.key());
        assert(self@ =~= old(self)@.remove(image));
    }
}

} // verus!
