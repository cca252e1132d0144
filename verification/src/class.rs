//! How packets are sorted by urgency.
use vstd::prelude::*;

verus! {

/// How urgent a packet is: small packets go first.
#[derive(Clone, Copy, Debug, PartialEq, Eq, Structural)]
pub enum PacketClass {
    Small,
    Medium,
    Bulk,
}

/// How many packets of a class go to one worker before it is the next worker's turn.
pub open spec fn chunk_of(class: PacketClass) -> usize {
    match class {
        PacketClass::Small => 4,
        PacketClass::Medium => 16,
        PacketClass::Bulk => 32,
    }
}

impl PacketClass {
    /// How many packets of the class go to one worker before it is the next worker's turn.
    pub fn stream_chunk(self) -> (chunk: usize)
        ensures
            chunk == chunk_of(self),
    {
        match self {
            PacketClass::Small => 4,
            PacketClass::Medium => 16,
            PacketClass::Bulk => 32,
        }
    }
}

} // verus!
