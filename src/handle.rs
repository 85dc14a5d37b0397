use vstd::prelude::*;

verus! {

/// An opaque reference to a registry slot: the slot index and the version the
/// slot had when the handle was issued. A handle carries no ownership.
#[derive(Clone, Copy, Debug, PartialEq, Eq, Hash, Structural)]
pub struct Handle {
    pub index: u32,
    pub version: u32,
}

impl Handle {
    pub fn new(index: u32, version: u32) -> (r: Handle)
        ensures
            r.index == index,
            r.version == version,
    {
        Handle { index, version }
    }
}

/// The logical identity of a resource. A shared location deduplicates: two
/// creations with the same code and uri refer to one resource. A unique
/// location never does.
#[derive(Debug)]
pub enum Location {
    Unique(String),
    Shared(u64, String),
}

impl Location {
    /// The deduplication key: the code and uri of a shared location.
    pub open spec fn key(&self) -> Option<(u64, Seq<char>)> {
        match self {
            Location::Unique(_) => None,
            Location::Shared(code, uri) => Some((*code, uri@)),
        }
    }

    pub open spec fn spec_is_shared(&self) -> bool {
        self.key().is_some()
    }

    pub open spec fn uri_spec(&self) -> Seq<char> {
        match self {
            Location::Unique(uri) => uri@,
            Location::Shared(_, uri) => uri@,
        }
    }

    /// Two locations deduplicate onto one resource.
    pub open spec fn same_key(a: Location, b: Location) -> bool {
        a.key().is_some() && a.key() == b.key()
    }

    pub fn unique(uri: &str) -> (r: Location)
        ensures
            r.key().is_none(),
            r.uri_spec() == uri@,
    {
        Location::Unique(uri.to_owned())
    }

    pub fn shared(code: u64, uri: &str) -> (r: Location)
        ensures
            r.key() == Some((code, uri@)),
            r.uri_spec() == uri@,
    {
        Location::Shared(code, uri.to_owned())
    }

    pub fn is_shared(&self) -> (r: bool)
        ensures
            r == self.spec_is_shared(),
    {
        match self {
            Location::Unique(_) => false,
            Location::Shared(_, _) => true,
        }
    }

    pub fn uri(&self) -> (r: &str)
        ensures
            r@ == self.uri_spec(),
    {
        match self {
            Location::Unique(uri) => uri.as_str(),
            Location::Shared(_, uri) => uri.as_str(),
        }
    }

    pub fn clone_location(&self) -> (r: Location)
        ensures
            r.key() == self.key(),
            r.uri_spec() == self.uri_spec(),
    {
        match self {
            Location::Unique(uri) => Location::Unique(uri.clone()),
            Location::Shared(code, uri) => Location::Shared(*code, uri.clone()),
        }
    }

    /// Whether `self` and `other` deduplicate onto one resource.
    pub fn same_as(&self, other: &Location) -> (r: bool)
        ensures
            r == Location::same_key(*self, *other),
    {
        match (self, other) {
            (Location::Shared(c1, u1), Location::Shared(c2, u2)) => *c1 == *c2 && u1.eq(u2),
            _ => false,
        }
    }
}

} // verus!

verus! {

pub type SurfaceHandle = Handle;

pub type ShaderHandle = Handle;

pub type FrameBufferHandle = Handle;

pub type RenderBufferHandle = Handle;

pub type MeshHandle = Handle;

pub type TextureHandle = Handle;

} // verus!
