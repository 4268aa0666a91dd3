//! Capability values: the object-variant tag, the rights mask, and the
//! capability tuple itself. A capability never exists outside a slot.

use vstd::prelude::*;

verus! {

/// The closed set of kernel object variants; an object never changes variant.
#[derive(Debug, Clone, Copy, PartialEq, Eq, Structural)]
pub enum CapabilityType {
    Untyped,
    TaskControlBlock,
    Endpoint,
    CNode,
    PageTable,
    Page,
}

/// Access rights carried by a capability.
#[derive(Debug, Clone, Copy, PartialEq, Eq, Structural)]
pub struct CapRights {
    pub read: bool,
    pub write: bool,
    pub grant: bool,
}

impl CapRights {
    /// `self` grants nothing beyond `other`.
    pub open spec fn subset_of(self, other: CapRights) -> bool {
        &&& (self.read ==> other.read)
        &&& (self.write ==> other.write)
        &&& (self.grant ==> other.grant)
    }

    pub fn is_subset_of(&self, other: &CapRights) -> (r: bool)
        ensures
            r == self.subset_of(*other),
    {
        (!self.read || other.read) && (!self.write || other.write) && (!self.grant
            || other.grant)
    }

    pub fn full() -> (r: CapRights)
        ensures
            r == (CapRights { read: true, write: true, grant: true }),
    {
        CapRights { read: true, write: true, grant: true }
    }
}

/// A capability: an object reference, a rights mask, and a badge value.
/// The referenced object's variant is read from the object store, so a
/// capability cannot lie about what it points at.
#[derive(Debug, Clone, Copy, PartialEq, Eq, Structural)]
pub struct Capability {
    pub obj: usize,
    pub rights: CapRights,
    pub badge: usize,
}

} // verus!
