use vstd::prelude::*;
use crate::name::Name;
use crate::register::Address;

verus! {

/// The name the network gives to content: the SHA3-256 digest of the bytes, as a name.
pub uninterp spec fn content_name(b: Seq<u8>) -> Name;

/// Relies on `xor_name::XorName::from_content`: the SHA3-256 digest of the bytes, whose 32
/// bytes are read here as the high and low halves of a name, most significant first. The
/// result depends on the bytes alone.
#[verifier::external_body]
pub(crate) fn name_of_content(content: &Vec<u8>) -> (r: Name)
    ensures
        r == content_name(content@),
{
    let x = xor_name::XorName::from_content(content);
    let mut hi = [0u8; 16];
    let mut lo = [0u8; 16];
    hi.copy_from_slice(&x.0[..16]);
    lo.copy_from_slice(&x.0[16..]);
    Name { hi: u128::from_be_bytes(hi), lo: u128::from_be_bytes(lo) }
}

/// An immutable chunk of data, addressed by its content.
#[derive(Clone, Debug, PartialEq, Eq)]
pub struct Chunk {
    pub value: Vec<u8>,
}

impl Chunk {
    pub fn new(value: Vec<u8>) -> (r: Chunk)
        ensures
            r.value@ == value@,
    {
        Chunk { value }
    }

    /// The chunk's name: the name of its content.
    pub fn name(&self) -> (r: Name)
        ensures
            r == content_name(self.value@),
    {
        name_of_content(&self.value)
    }
}

/// A write to a register.
#[derive(Clone, Copy, Debug, PartialEq, Eq, Structural)]
pub struct RegisterCmd {
    pub dst_address: Address,
}

/// The whole operation log of a register.
#[derive(Clone, Debug, PartialEq, Eq)]
pub struct RegisterLog {
    pub address: Address,
    pub ops: Vec<Vec<u8>>,
}

/// Where replicated data lives.
#[derive(Clone, Copy, Debug, PartialEq, Eq, Structural)]
pub enum ReplicatedDataAddress {
    Chunk(Name),
    Register(Address),
}

/// Data that is replicated among the adults of a section.
#[derive(Clone, Debug, PartialEq, Eq)]
pub enum ReplicatedData {
    /// A chunk of data.
    Chunk(Chunk),
    /// A single cmd for a register.
    RegisterWrite(RegisterCmd),
    /// An entire op log of a register.
    RegisterLog(RegisterLog),
}

impl ReplicatedData {
    pub open spec fn address_spec(&self) -> ReplicatedDataAddress {
        match self {
            ReplicatedData::Chunk(c) => ReplicatedDataAddress::Chunk(content_name(c.value@)),
            ReplicatedData::RegisterWrite(cmd) => ReplicatedDataAddress::Register(cmd.dst_address),
            ReplicatedData::RegisterLog(log) => ReplicatedDataAddress::Register(log.address),
        }
    }

    /// The name the data is stored under.
    pub fn name(&self) -> (r: Name)
        ensures
            r == match self.address_spec() {
                ReplicatedDataAddress::Chunk(n) => n,
                ReplicatedDataAddress::Register(a) => a.name_spec(),
            },
    {
        match self {
            ReplicatedData::Chunk(c) => c.name(),
            ReplicatedData::RegisterLog(log) => log.address.name(),
            ReplicatedData::RegisterWrite(cmd) => cmd.dst_address.name(),
        }
    }

    pub fn address(&self) -> (r: ReplicatedDataAddress)
        ensures
            r == self.address_spec(),
    {
        match self {
            ReplicatedData::Chunk(c) => ReplicatedDataAddress::Chunk(c.name()),
            ReplicatedData::RegisterLog(log) => ReplicatedDataAddress::Register(log.address),
            ReplicatedData::RegisterWrite(cmd) => ReplicatedDataAddress::Register(cmd.dst_address),
        }
    }
}

} // verus!
