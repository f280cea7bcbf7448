use crate::error::PacketError;
use crate::packet::write_frame;
use crate::packet::FixedHeader;
use crate::packet::PacketType;
use crate::packet::ReadablePacket;
use crate::packet::WritablePacket;
use crate::reader::ByteReader;
use crate::utils::parse_u16;
use crate::utils::spec_read_u16;
use crate::utils::spec_u16_bytes;
use crate::utils::write_u16;
use vstd::prelude::*;

verus! {

/// The broker's answer to an UNSUBSCRIBE.
#[derive(Debug, Clone, Copy, PartialEq, Eq, Structural)]
pub struct Unsuback {
    /// The packet identifier of the UNSUBSCRIBE that is answered.
    pub packet_id: u16,
}

impl View for Unsuback {
    type V = Unsuback;

    open spec fn view(&self) -> Unsuback {
        *self
    }
}

impl Unsuback {
    /// What reading an UNSUBACK body makes of `input`.
    pub open spec fn spec_read(input: Seq<u8>) -> Result<(Unsuback, nat), PacketError> {
        match spec_read_u16(input) {
            Ok((packet_id, n)) => Ok((Unsuback { packet_id }, n)),
            Err(e) => Err(e),
        }
    }

    /// Reads the packet whose body starts at `input[at]`; hands back the
    /// packet and the place where it ends.
    pub fn parse(input: &[u8], at: usize) -> (r: Result<(Unsuback, usize), PacketError>)
        requires
            at <= input.len(),
        ensures
            match Unsuback::spec_read(input@.skip(at as int)) {
                Ok((packet, n)) => r == Ok::<(Unsuback, usize), PacketError>(
                    (packet, (at + n) as usize),
                ) && at + n <= input.len(),
                Err(e) => r == Err::<(Unsuback, usize), PacketError>(e),
            },
    {
        match parse_u16(input, at) {
            Ok(packet_id) => Ok((Unsuback { packet_id }, at + 2)),
            Err(e) => Err(e),
        }
    }
}

impl ReadablePacket<Unsuback> for Unsuback {
    open spec fn spec_read_from(input: Seq<u8>, fixed_header: FixedHeader) -> Result<
        (Unsuback, nat),
        PacketError,
    > {
        Unsuback::spec_read(input)
    }

    fn read_from(stream: &mut ByteReader, fixed_header: FixedHeader) -> (r: Result<
        Unsuback,
        PacketError,
    >) {
        assert(stream@.skip(0) =~= stream@);
        let parsed = Unsuback::parse(stream.as_slice(), 0);
        match parsed {
            Ok((packet, end)) => {
                stream.advance(end);
                Ok(packet)
            },
            Err(e) => Err(e),
        }
    }
}

impl WritablePacket for Unsuback {
    open spec fn spec_packet_type(&self) -> PacketType {
        PacketType::Unsuback
    }

    open spec fn spec_flags(&self) -> u8 {
        0
    }

    open spec fn spec_body(&self) -> Seq<u8> {
        spec_u16_bytes(self.packet_id)
    }

    open spec fn spec_encodable(&self) -> bool {
        true
    }

    fn write_to(&self, stream: &mut Vec<u8>) -> (r: Result<(), PacketError>) {
        let mut body: Vec<u8> = Vec::new();
        write_u16(&mut body, self.packet_id);
        write_frame(stream, PacketType::Unsuback, 0, &body)
    }

    fn calculate_remaining_length(&self) -> (n: u32) {
        2
    }
}

/// An UNSUBACK that was written is read back as it was, whatever follows
/// it.
pub proof fn lemma_unsuback_round_trip(packet: Unsuback, rest: Seq<u8>)
    ensures
        Unsuback::spec_read(packet.spec_body() + rest) == Ok::<(Unsuback, nat), PacketError>(
            (packet, packet.spec_body().len()),
        ),
{
    let input = packet.spec_body() + rest;
    assert(input[0] == packet.spec_body()[0]);
    assert(input[1] == packet.spec_body()[1]);
}

} // verus!
