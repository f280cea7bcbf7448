use crate::error::PacketError;
use crate::packet::write_frame;
use crate::packet::FixedHeader;
use crate::packet::PacketType;
use crate::packet::ReadablePacket;
use crate::packet::WritablePacket;
use crate::reader::ByteReader;
use vstd::prelude::*;

verus! {

/// The client's sign of life.
#[derive(Debug, Clone, Copy, PartialEq, Eq, Structural)]
pub struct Pingreq {}

impl View for Pingreq {
    type V = Pingreq;

    open spec fn view(&self) -> Pingreq {
        *self
    }
}

impl ReadablePacket<Pingreq> for Pingreq {
    /// The packet has no body: nothing is read.
    open spec fn spec_read_from(input: Seq<u8>, fixed_header: FixedHeader) -> Result<
        (Pingreq, nat),
        PacketError,
    > {
        Ok((Pingreq {  }, 0))
    }

    fn read_from(stream: &mut ByteReader, fixed_header: FixedHeader) -> (r: Result<
        Pingreq,
        PacketError,
    >) {
        assert(stream@.skip(0) =~= stream@);
        Ok(Pingreq {  })
    }
}

impl WritablePacket for Pingreq {
    open spec fn spec_packet_type(&self) -> PacketType {
        PacketType::Pingreq
    }

    open spec fn spec_flags(&self) -> u8 {
        0
    }

    open spec fn spec_body(&self) -> Seq<u8> {
        Seq::empty()
    }

    open spec fn spec_encodable(&self) -> bool {
        true
    }

    fn write_to(&self, stream: &mut Vec<u8>) -> (r: Result<(), PacketError>) {
        let body: Vec<u8> = Vec::new();
        write_frame(stream, PacketType::Pingreq, 0, &body)
    }

    fn calculate_remaining_length(&self) -> (n: u32) {
        0
    }
}

} // verus!
