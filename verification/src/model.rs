//! Identifiers and records that the rest of the library speaks of.
use crate::text;
use vstd::prelude::*;

verus! {

/// An image of the collection.
#[derive(Debug, PartialEq, Eq, PartialOrd, Ord, Hash)]
pub struct AssetId(pub String);

impl View for AssetId {
    type V = Seq<char>;

    open spec fn view(&self) -> Seq<char> {
        self.0@
    }
}

impl Clone for AssetId {
    fn clone(&self) -> (r: Self)
        ensures
            r == *self,
    {
        AssetId(self.0.clone())
    }
}

impl AssetId {
    /// Whether both name the same image.
    pub fn same(&self, other: &AssetId) -> (r: bool)
        ensures
            r == (self@ == other@),
    {
        self.0 == other.0
    }
}

/// What an image looks like: two images with one key count as the same picture.
#[derive(Debug, PartialEq, Eq, Hash)]
pub struct VisualKey(pub String);

impl View for VisualKey {
    type V = Seq<char>;

    open spec fn view(&self) -> Seq<char> {
        self.0@
    }
}

impl Clone for VisualKey {
    fn clone(&self) -> (r: Self)
        ensures
            r == *self,
    {
        VisualKey(self.0.clone())
    }
}

impl VisualKey {
    /// Whether both are the same key.
    pub fn same(&self, other: &VisualKey) -> (r: bool)
        ensures
            r == (self@ == other@),
    {
        self.0 == other.0
    }
}

/// An image of an outside source.
#[derive(Debug, Clone, Copy, PartialEq, Eq, PartialOrd, Ord, Hash, Structural)]
pub struct RemoteItemId(pub i64);

/// A sitting of the user.
#[derive(Debug, Clone, Copy, PartialEq, Eq, PartialOrd, Ord, Hash, Structural)]
pub struct SessionId(pub i64);

/// A collection of images.
#[derive(Debug, Clone, Copy, PartialEq, Eq, PartialOrd, Ord, Hash, Structural)]
pub struct CorpusId(pub i64);

/// A face found in an image.
#[derive(Debug, Clone, Copy, PartialEq, Eq, PartialOrd, Ord, Hash, Structural)]
pub struct FaceId(pub i64);

/// A subject that faces belong to.
#[derive(Debug, Clone, Copy, PartialEq, Eq, PartialOrd, Ord, Hash, Structural)]
pub struct FaceIdentityId(pub i64);

/// One side of an arena pair.
#[derive(Debug, PartialEq, Eq, Hash)]
pub enum ArenaHandle {
    Local(AssetId),
    Remote(RemoteItemId),
}

/// What an arena handle stands for.
pub enum HandleModel {
    Local(Seq<char>),
    Remote(RemoteItemId),
}

impl View for ArenaHandle {
    type V = HandleModel;

    open spec fn view(&self) -> HandleModel {
        match self {
            ArenaHandle::Local(asset_id) => HandleModel::Local(asset_id@),
            ArenaHandle::Remote(item_id) => HandleModel::Remote(*item_id),
        }
    }
}

impl Clone for ArenaHandle {
    fn clone(&self) -> (r: Self)
        ensures
            r == *self,
    {
        match self {
            ArenaHandle::Local(asset_id) => ArenaHandle::Local(asset_id.clone()),
            ArenaHandle::Remote(item_id) => ArenaHandle::Remote(*item_id),
        }
    }
}

/// The path segment that stands for a handle.
pub open spec fn handle_slug(handle: HandleModel) -> Seq<char> {
    match handle {
        HandleModel::Local(asset_id) => "local:"@ + asset_id,
        HandleModel::Remote(item_id) => "remote:"@ + text::signed_decimal(item_id.0 as int),
    }
}

impl ArenaHandle {
    /// Whether both stand for the same image.
    pub fn same(&self, other: &ArenaHandle) -> (r: bool)
        ensures
            r == (self@ == other@),
    {
        match (self, other) {
            (ArenaHandle::Local(a), ArenaHandle::Local(b)) => a.same(b),
            (ArenaHandle::Remote(a), ArenaHandle::Remote(b)) => a.0 == b.0,
            _ => false,
        }
    }

    /// The path segment that stands for the handle.
    pub fn slug(&self) -> (r: String)
        ensures
            r@ == handle_slug(self@),
    {
        match self {
            ArenaHandle::Local(asset_id) => "local:".to_owned().concat(asset_id.0.as_str()),
            ArenaHandle::Remote(item_id) => {
                let mut slug = "remote:".to_owned();
                text::push_signed_decimal(&mut slug, item_id.0);
                slug
            },
        }
    }
}

/// Which map of the collection is drawn.
#[derive(Debug, Clone, Copy, PartialEq, Eq, Hash, Structural)]
pub enum ExploreMapMode {
    Raw,
    Learned,
}

impl ExploreMapMode {
    /// The name of the mode in addresses.
    pub open spec fn name(self) -> Seq<char> {
        match self {
            ExploreMapMode::Raw => "raw"@,
            ExploreMapMode::Learned => "learned"@,
        }
    }

    /// The name of the mode in addresses.
    pub fn as_str(self) -> (r: &'static str)
        ensures
            r@ == self.name(),
    {
        match self {
            ExploreMapMode::Raw => "raw",
            ExploreMapMode::Learned => "learned",
        }
    }
}

/// Which two of three images are the closer pair.
#[derive(Debug, Clone, Copy, PartialEq, Eq, Hash, Structural)]
pub enum SimilarityChoice {
    Ab,
    Ac,
    Bc,
}

/// A session's lock on one stream of an outside source.
#[derive(Debug, PartialEq, Eq, Hash)]
pub struct SessionSubsourceLock {
    pub source_key: String,
    pub stream_id: i64,
}

impl View for SessionSubsourceLock {
    type V = (Seq<char>, i64);

    open spec fn view(&self) -> (Seq<char>, i64) {
        (self.source_key@, self.stream_id)
    }
}

impl Clone for SessionSubsourceLock {
    fn clone(&self) -> (r: Self)
        ensures
            r == *self,
    {
        SessionSubsourceLock { source_key: self.source_key.clone(), stream_id: self.stream_id }
    }
}

} // verus!
