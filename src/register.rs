use vstd::prelude::*;
use crate::name::Name;

verus! {

/// An action on a register.
#[derive(Clone, Copy, Debug, PartialEq, Eq, Structural)]
pub enum Action {
    /// Read from the data.
    Read,
    /// Write to the data.
    Write,
}

/// Kind of a register.
#[derive(Clone, Copy, Debug, PartialEq, Eq, Structural, Hash)]
pub enum Kind {
    Public,
    Private,
}

impl Kind {
    pub fn is_public(self) -> (r: bool)
        ensures
            r == (self == Kind::Public),
    {
        self == Kind::Public
    }

    pub fn is_private(self) -> (r: bool)
        ensures
            r == (self == Kind::Private),
    {
        !self.is_public()
    }
}

/// Address of a register: its name and tag, in the public or the private namespace.
#[derive(Clone, Copy, Debug, PartialEq, Eq, Structural, Hash)]
pub enum Address {
    Public { name: Name, tag: u64 },
    Private { name: Name, tag: u64 },
}

impl Address {
    pub fn from_kind(kind: Kind, name: Name, tag: u64) -> (r: Address)
        ensures
            r.kind_spec() == kind,
            r.name_spec() == name,
            r.tag_spec() == tag,
    {
        match kind {
            Kind::Public => Address::Public { name, tag },
            Kind::Private => Address::Private { name, tag },
        }
    }

    pub open spec fn kind_spec(self) -> Kind {
        match self {
            Address::Public { .. } => Kind::Public,
            Address::Private { .. } => Kind::Private,
        }
    }

    pub open spec fn name_spec(self) -> Name {
        match self {
            Address::Public { name, .. } => name,
            Address::Private { name, .. } => name,
        }
    }

    pub open spec fn tag_spec(self) -> u64 {
        match self {
            Address::Public { tag, .. } => tag,
            Address::Private { tag, .. } => tag,
        }
    }

    pub fn kind(&self) -> (r: Kind)
        ensures
            r == self.kind_spec(),
    {
        match self {
            Address::Public { .. } => Kind::Public,
            Address::Private { .. } => Kind::Private,
        }
    }

    pub fn name(&self) -> (r: Name)
        ensures
            r == self.name_spec(),
    {
        match self {
            Address::Public { name, .. } => *name,
            Address::Private { name, .. } => *name,
        }
    }

    pub fn tag(&self) -> (r: u64)
        ensures
            r == self.tag_spec(),
    {
        match self {
            Address::Public { tag, .. } => *tag,
            Address::Private { tag, .. } => *tag,
        }
    }

    pub fn is_public(&self) -> (r: bool)
        ensures
            r == (self.kind_spec() == Kind::Public),
    {
        self.kind().is_public()
    }

    pub fn is_private(&self) -> (r: bool)
        ensures
            r == (self.kind_spec() == Kind::Private),
    {
        self.kind().is_private()
    }
}

} // verus!
