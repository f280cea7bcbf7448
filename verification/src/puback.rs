use crate::error::PacketError;
use crate::packet::write_frame;
use crate::packet::FixedHeader;
use crate::packet::PacketType;
use crate::packet::ReadablePacket;
use crate::packet::WritablePacket;
use crate::reader::ByteReader;
use crate::utils::parse_u16;
use crate::utils::spec_read_u16;
use crate::utils::spec_u16_bytes;
use crate::utils::write_u16;
use vstd::prelude::*;

verus! {

/// The acknowledgement of a PUBLISH of quality of service 1.
#[derive(Debug, Clone, Copy, PartialEq, Eq, Structural)]
pub struct Puback {
    /// The packet identifier of the PUBLISH that is acknowledged.
    pub acknowledged_packet_id: u16,
}

impl View for Puback {
    type V = Puback;

    open spec fn view(&self) -> Puback {
        *self
    }
}

impl Puback {
    /// What reading a PUBACK body makes of `input`.
    pub open spec fn spec_read(input: Seq<u8>) -> Result<(Puback, nat), PacketError> {
        match spec_read_u16(input) {
            Ok((packet_id, n)) => Ok((Puback { acknowledged_packet_id: packet_id }, n)),
            Err(e) => Err(e),
        }
    }

    /// Reads the packet whose body starts at `input[at]`; hands back the
    /// packet and the place where it ends.
    pub fn parse(input: &[u8], at: usize) -> (r: Result<(Puback, usize), PacketError>)
        requires
            at <= input.len(),
        ensures
            match Puback::spec_read(input@.skip(at as int)) {
                Ok((packet, n)) => r == Ok::<(Puback, usize), PacketError>(
                    (packet, (at + n) as usize),
                ) && at + n <= input.len(),
                Err(e) => r == Err::<(Puback, usize), PacketError>(e),
            },
    {
        match parse_u16(input, at) {
            Ok(packet_id) => Ok((Puback { acknowledged_packet_id: packet_id }, at + 2)),
            Err(e) => Err(e),
        }
    }
}

impl ReadablePacket<Puback> for Puback {
    open spec fn spec_read_from(input: Seq<u8>, fixed_header: FixedHeader) -> Result<
        (Puback, nat),
        PacketError,
    > {
        Puback::spec_read(input)
    }

    fn read_from(stream: &mut ByteReader, fixed_header: FixedHeader) -> (r: Result<
        Puback,
        PacketError,
    >) {
        assert(stream@.skip(0) =~= stream@);
        let parsed = Puback::parse(stream.as_slice(), 0);
        match parsed {
            Ok((packet, end)) => {
                stream.advance(end);
                Ok(packet)
            },
            Err(e) => Err(e),
        }
    }
}

impl WritablePacket for Puback {
    open spec fn spec_packet_type(&self) -> PacketType {
        PacketType::Puback
    }

    open spec fn spec_flags(&self) -> u8 {
        0
    }

    open spec fn spec_body(&self) -> Seq<u8> {
        spec_u16_bytes(self.acknowledged_packet_id)
    }

    open spec fn spec_encodable(&self) -> bool {
        true
    }

    fn write_to(&self, stream: &mut Vec<u8>) -> (r: Result<(), PacketError>) {
        let mut body: Vec<u8> = Vec::new();
        write_u16(&mut body, self.acknowledged_packet_id);
        write_frame(stream, PacketType::Puback, 0, &body)
    }

    fn calculate_remaining_length(&self) -> (n: u32) {
        2
    }
}

/// A PUBACK that was written is read back as it was, whatever follows
/// it.
pub proof fn lemma_puback_round_trip(packet: Puback, rest: Seq<u8>)
    ensures
        Puback::spec_read(packet.spec_body() + rest) == Ok::<(Puback, nat), PacketError>(
            (packet, packet.spec_body().len()),
        ),
{
    let input = packet.spec_body() + rest;
    assert(input[0] == packet.spec_body()[0]);
    assert(input[1] == packet.spec_body()[1]);
}

} // verus!
