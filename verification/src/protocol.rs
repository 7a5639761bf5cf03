//! The tags that travel with every packet: direction, protocol state and id.

use vstd::prelude::*;

verus! {

/// Who a packet is meant for.
#[derive(Debug, Clone, Copy, PartialEq, Eq, Hash, Structural)]
pub enum PacketDirection {
    ClientBound,
    ServerBound,
}

impl PacketDirection {
    /// The direction of the other half of the same connection.
    pub open spec fn spec_opposite(self) -> PacketDirection {
        match self {
            PacketDirection::ClientBound => PacketDirection::ServerBound,
            PacketDirection::ServerBound => PacketDirection::ClientBound,
        }
    }

    /// The direction of the other half of the same connection.
    #[verifier::when_used_as_spec(spec_opposite)]
    pub fn opposite(self) -> (r: PacketDirection)
        ensures
            r == self.spec_opposite(),
    {
        match self {
            PacketDirection::ClientBound => PacketDirection::ServerBound,
            PacketDirection::ServerBound => PacketDirection::ClientBound,
        }
    }
}

/// The phase of the connection. Packet numbers are only unique within one
/// phase and one direction.
#[derive(Debug, Clone, Copy, PartialEq, Eq, Hash, Structural)]
pub enum State {
    Handshaking,
    Status,
    Login,
    Play,
}

/// A packet id as the reader hands it out: the number found on the wire,
/// tagged with the reader's state and direction at that moment.
#[derive(Debug, Clone, Copy, PartialEq, Eq, Hash, Structural)]
pub struct Id {
    pub id: i32,
    pub state: State,
    pub direction: PacketDirection,
}

/// Why a variable-length integer could not be taken from a byte string.
#[derive(Debug, PartialEq, Eq)]
pub enum DeserializeErr {
    /// The bytes ended while the last one still announced a successor.
    Eof,
    /// Five bytes in a row announced a successor; they are kept here.
    VarNumTooLong(Vec<u8>),
}

} // verus!
