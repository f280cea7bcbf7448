use crate::error::PacketError;
use crate::packet::write_frame;
use crate::packet::FixedHeader;
use crate::packet::PacketType;
use crate::packet::ReadablePacket;
use crate::packet::WritablePacket;
use crate::reader::ByteReader;
use vstd::prelude::*;

verus! {

/// The client's notice that it closes the connection in good order.
#[derive(Debug, Clone, Copy, PartialEq, Eq, Structural)]
pub struct Disconnect {}

impl View for Disconnect {
    type V = Disconnect;

    open spec fn view(&self) -> Disconnect {
        *self
    }
}

impl ReadablePacket<Disconnect> for Disconnect {
    /// The packet has no body: nothing is read.
    open spec fn spec_read_from(input: Seq<u8>, fixed_header: FixedHeader) -> Result<
        (Disconnect, nat),
        PacketError,
    > {
        Ok((Disconnect {  }, 0))
    }

    fn read_from(stream: &mut ByteReader, fixed_header: FixedHeader) -> (r: Result<
        Disconnect,
        PacketError,
    >) {
        assert(stream@.skip(0) =~= stream@);
        Ok(Disconnect {  })
    }
}

impl WritablePacket for Disconnect {
    open spec fn spec_packet_type(&self) -> PacketType {
        PacketType::Disconnect
    }

    open spec fn spec_flags(&self) -> u8 {
        0
    }

    open spec fn spec_body(&self) -> Seq<u8> {
        Seq::empty()
    }

    open spec fn spec_encodable(&self) -> bool {
        true
    }

    fn write_to(&self, stream: &mut Vec<u8>) -> (r: Result<(), PacketError>) {
        let body: Vec<u8> = Vec::new();
        write_frame(stream, PacketType::Disconnect, 0, &body)
    }

    fn calculate_remaining_length(&self) -> (n: u32) {
        0
    }
}

} // verus!
