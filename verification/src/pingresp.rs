use crate::error::PacketError;
use crate::packet::write_frame;
use crate::packet::FixedHeader;
use crate::packet::PacketType;
use crate::packet::ReadablePacket;
use crate::packet::WritablePacket;
use crate::reader::ByteReader;
use vstd::prelude::*;

verus! {

/// The broker's answer to a PINGREQ.
#[derive(Debug, Clone, Copy, PartialEq, Eq, Structural)]
pub struct Pingresp {}

impl View for Pingresp {
    type V = Pingresp;

    open spec fn view(&self) -> Pingresp {
        *self
    }
}

impl ReadablePacket<Pingresp> for Pingresp {
    /// The packet has no body: nothing is read.
    open spec fn spec_read_from(input: Seq<u8>, fixed_header: FixedHeader) -> Result<
        (Pingresp, nat),
        PacketError,
    > {
        Ok((Pingresp {  }, 0))
    }

    fn read_from(stream: &mut ByteReader, fixed_header: FixedHeader) -> (r: Result<
        Pingresp,
        PacketError,
    >) {
        assert(stream@.skip(0) =~= stream@);
        Ok(Pingresp {  })
    }
}

impl WritablePacket for Pingresp {
    open spec fn spec_packet_type(&self) -> PacketType {
        PacketType::Pingresp
    }

    open spec fn spec_flags(&self) -> u8 {
        0
    }

    open spec fn spec_body(&self) -> Seq<u8> {
        Seq::empty()
    }

    open spec fn spec_encodable(&self) -> bool {
        true
    }

    fn write_to(&self, stream: &mut Vec<u8>) -> (r: Result<(), PacketError>) {
        let body: Vec<u8> = Vec::new();
        write_frame(stream, PacketType::Pingresp, 0, &body)
    }

    fn calculate_remaining_length(&self) -> (n: u32) {
        0
    }
}

} // verus!
