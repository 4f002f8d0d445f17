use vstd::prelude::*;

verus! {

/// The role in which a child node is attached to a block driver node.
#[derive(Debug, Clone, Copy, PartialEq, Eq, Structural)]
pub enum StandardChildRole {
    File,
    Format,
    Backing,
}

/// The link from a host block node back to its driver state: the handle under which the
/// host's registry of open images keeps that state.
#[derive(Debug, Clone, Copy, PartialEq, Eq, Structural)]
pub struct BDSBacklink {
    pub handle: u64,
}

/// Driver state as the host's registry holds it.
pub struct BDSOpaque<T> {
    pub driver_obj: T,
}

/// A registry slot: the driver state of an open image, or nothing once it is closed.
pub struct BDSOpaqueLink<T> {
    pub opaque: Option<BDSOpaque<T>>,
}

impl<T> BDSOpaqueLink<T> {
    /// The driver state of an image that is open.
    pub fn unwrap(&self) -> (r: &BDSOpaque<T>)
        requires
            self.opaque.is_some(),
        ensures
            Some(*r) == self.opaque,
    {
        match &self.opaque {
            Some(o) => o,
            None => vstd::pervasive::unreached(),
        }
    }
}

/// What every driver keeps about its host node: the back link, and which children (the
/// image file, the backing image) are attached.
#[derive(Debug, Clone, Copy, PartialEq, Eq, Structural)]
pub struct BDSCommon {
    backlink: Option<BDSBacklink>,
    file: bool,
    backing: bool,
}

impl BDSCommon {
    /// No back link and no children yet.
    pub fn new() -> (r: BDSCommon)
        ensures
            r.backlink_spec().is_none(),
            !r.has_file_spec(),
            !r.has_backing_spec(),
    {
        BDSCommon { backlink: None, file: false, backing: false }
    }

    /// The back link, if one is set.
    pub closed spec fn backlink_spec(&self) -> Option<BDSBacklink> {
        self.backlink
    }

    /// Whether an image file is attached.
    pub closed spec fn has_file_spec(&self) -> bool {
        self.file
    }

    /// Whether a backing image is attached.
    pub closed spec fn has_backing_spec(&self) -> bool {
        self.backing
    }

    /// Sets the back link.
    pub fn set_backlink(&mut self, backlink: BDSBacklink)
        ensures
            final(self).backlink_spec() == Some(backlink),
            final(self).has_file_spec() == old(self).has_file_spec(),
            final(self).has_backing_spec() == old(self).has_backing_spec(),
    {
        self.backlink = Some(backlink);
    }

    /// The back link, if one is set.
    pub fn backlink(&self) -> (r: Option<BDSBacklink>)
        ensures
            r == self.backlink_spec(),
    {
        self.backlink
    }

    /// Records whether an image file is attached.
    pub fn set_file(&mut self, present: bool)
        ensures
            final(self).has_file_spec() == present,
            final(self).backlink_spec() == old(self).backlink_spec(),
            final(self).has_backing_spec() == old(self).has_backing_spec(),
    {
        self.file = present;
    }

    /// Records whether a backing image is attached.
    pub fn set_backing(&mut self, present: bool)
        ensures
            final(self).has_backing_spec() == present,
            final(self).backlink_spec() == old(self).backlink_spec(),
            final(self).has_file_spec() == old(self).has_file_spec(),
    {
        self.backing = present;
    }

    /// Whether an image file is attached.
    pub fn has_file(&self) -> (r: bool)
        ensures
            r == self.has_file_spec(),
    {
        self.file
    }

    /// Whether a backing image is attached.
    pub fn has_backing(&self) -> (r: bool)
        ensures
            r == self.has_backing_spec(),
    {
        self.backing
    }
}

} // verus!
