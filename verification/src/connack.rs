use crate::error::PacketError;
use crate::packet::write_frame;
use crate::packet::FixedHeader;
use crate::packet::PacketType;
use crate::packet::ReadablePacket;
use crate::packet::WritablePacket;
use crate::reader::ByteReader;
use vstd::prelude::*;

verus! {

/// The broker's answer to a CONNECT.
#[derive(Debug, Clone, Copy, PartialEq, Eq, Structural)]
pub struct Connack {
    /// 0 where the connection is accepted; else the reason of the refusal.
    pub return_code: u8,
    /// 1 where the broker kept a session of the client from before.
    pub session_present: u8,
}

impl View for Connack {
    type V = Connack;

    open spec fn view(&self) -> Connack {
        *self
    }
}

impl Connack {
    /// True of the packets that the wire can carry without loss: the
    /// session-present flag is 0 or 1.
    pub open spec fn spec_well_formed(self) -> bool {
        self.session_present <= 1
    }

    /// What reading a CONNACK body makes of `input`.
    pub open spec fn spec_read(input: Seq<u8>) -> Result<(Connack, nat), PacketError> {
        if input.len() < 2 {
            Err(PacketError::UnexpectedEof)
        } else {
            Ok((Connack { return_code: input[1], session_present: input[0] }, 2))
        }
    }

    /// Reads the packet whose body starts at `input[at]`; hands back the
    /// packet and the place where it ends.
    pub fn parse(input: &[u8], at: usize) -> (r: Result<(Connack, usize), PacketError>)
        requires
            at <= input.len(),
        ensures
            match Connack::spec_read(input@.skip(at as int)) {
                Ok((packet, n)) => r == Ok::<(Connack, usize), PacketError>(
                    (packet, (at + n) as usize),
                ) && at + n <= input.len(),
                Err(e) => r == Err::<(Connack, usize), PacketError>(e),
            },
    {
        if input.len() - at < 2 {
            return Err(PacketError::UnexpectedEof);
        }
        Ok((Connack { return_code: input[at + 1], session_present: input[at] }, at + 2))
    }
}

impl ReadablePacket<Connack> for Connack {
    open spec fn spec_read_from(input: Seq<u8>, fixed_header: FixedHeader) -> Result<
        (Connack, nat),
        PacketError,
    > {
        Connack::spec_read(input)
    }

    fn read_from(stream: &mut ByteReader, fixed_header: FixedHeader) -> (r: Result<
        Connack,
        PacketError,
    >) {
        assert(stream@.skip(0) =~= stream@);
        let parsed = Connack::parse(stream.as_slice(), 0);
        match parsed {
            Ok((packet, end)) => {
                stream.advance(end);
                Ok(packet)
            },
            Err(e) => Err(e),
        }
    }
}

impl WritablePacket for Connack {
    open spec fn spec_packet_type(&self) -> PacketType {
        PacketType::Connack
    }

    open spec fn spec_flags(&self) -> u8 {
        0
    }

    open spec fn spec_body(&self) -> Seq<u8> {
        seq![self.session_present % 2, self.return_code]
    }

    open spec fn spec_encodable(&self) -> bool {
        true
    }

    fn write_to(&self, stream: &mut Vec<u8>) -> (r: Result<(), PacketError>) {
        let mut body: Vec<u8> = Vec::new();
        body.push(self.session_present % 2);
        body.push(self.return_code);
        assert(body@ =~= self.spec_body());
        write_frame(stream, PacketType::Connack, 0, &body)
    }

    fn calculate_remaining_length(&self) -> (n: u32) {
        2
    }
}

/// A well-formed CONNACK that was written is read back as it was, whatever
/// follows it.
pub proof fn lemma_connack_round_trip(packet: Connack, rest: Seq<u8>)
    requires
        packet.spec_well_formed(),
    ensures
        Connack::spec_read(packet.spec_body() + rest) == Ok::<(Connack, nat), PacketError>(
            (packet, packet.spec_body().len()),
        ),
{
    let input = packet.spec_body() + rest;
    assert(input[0] == packet.spec_body()[0]);
    assert(input[1] == packet.spec_body()[1]);
}

} // verus!
