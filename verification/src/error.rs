use vstd::prelude::*;

verus! {

/// Why a run of bytes is not a packet, or why a packet has no encoding.
///
/// The first four are the ways in which received bytes are malformed; the
/// last one is met only when writing.
#[derive(Debug, Clone, Copy, PartialEq, Eq, Structural)]
pub enum PacketError {
    /// The input ends inside the packet.
    UnexpectedEof,
    /// The remaining length runs past its fourth byte, or is too short for
    /// the fields that the packet holds.
    InvalidRemainingLength,
    /// The control byte names none of the packet types.
    UnknownPacketType,
    /// A string field is not UTF-8.
    InvalidUtf8,
    /// A string field is longer than 65535 bytes, the body is longer than
    /// 268435455 bytes, or a topic filter comes without its quality of
    /// service.
    Unencodable,
}

impl PacketError {
    /// True of the errors that say that received bytes are malformed.
    pub open spec fn spec_is_malformed(self) -> bool {
        self != PacketError::Unencodable
    }

    /// Whether the error says that received bytes are malformed.
    #[verifier::when_used_as_spec(spec_is_malformed)]
    pub fn is_malformed(self) -> (r: bool)
        ensures
            r == self.spec_is_malformed(),
    {
        match self {
            PacketError::Unencodable => false,
            _ => true,
        }
    }
}

} // verus!
