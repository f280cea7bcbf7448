use crate::error::PacketError;
use crate::packet::write_frame;
use crate::packet::FixedHeader;
use crate::packet::PacketType;
use crate::packet::ReadablePacket;
use crate::packet::WritablePacket;
use crate::packet::MAX_REMAINING_LENGTH;
use crate::reader::ByteReader;
use crate::utils::parse_u16;
use crate::utils::spec_u16_bytes;
use crate::utils::spec_u16_of;
use crate::utils::write_bytes;
use crate::utils::write_u16;
use vstd::prelude::*;
use vstd::slice::slice_subrange;
use vstd::slice::slice_to_vec;

verus! {

/// The broker's answer to a SUBSCRIBE.
#[derive(Debug, PartialEq)]
pub struct Suback {
    /// The packet identifier of the SUBSCRIBE that is answered.
    pub packet_id: u16,
    /// One return code for each topic filter of the SUBSCRIBE, in the same
    /// order: the quality of service that is granted, or 128 for a failure.
    pub return_codes: Vec<u8>,
}

/// A SUBACK packet as a mathematical value.
pub struct SubackView {
    pub packet_id: u16,
    pub return_codes: Seq<u8>,
}

impl View for Suback {
    type V = SubackView;

    open spec fn view(&self) -> SubackView {
        SubackView { packet_id: self.packet_id, return_codes: self.return_codes@ }
    }
}

impl Clone for Suback {
    fn clone(&self) -> (r: Suback)
        ensures
            r@ == self@,
    {
        Suback { packet_id: self.packet_id, return_codes: self.return_codes.clone() }
    }
}

impl SubackView {
    /// The bytes after the fixed header.
    pub open spec fn spec_body(self) -> Seq<u8> {
        spec_u16_bytes(self.packet_id) + self.return_codes
    }

    /// True where the body fits in a packet. Such a packet is carried
    /// without loss.
    pub open spec fn spec_encodable(self) -> bool {
        self.spec_body().len() <= MAX_REMAINING_LENGTH
    }

    /// What reading a SUBACK body makes of `input`, under a fixed header
    /// whose remaining length says where the return codes end.
    pub open spec fn spec_read(input: Seq<u8>, fixed_header: FixedHeader) -> Result<
        (SubackView, nat),
        PacketError,
    > {
        let end = fixed_header.remaining_length as int;
        if input.len() < 2 {
            Err(PacketError::UnexpectedEof)
        } else if end < 2 {
            Err(PacketError::InvalidRemainingLength)
        } else if input.len() < end {
            Err(PacketError::UnexpectedEof)
        } else {
            Ok(
                (
                    SubackView {
                        packet_id: spec_u16_of(input[0], input[1]),
                        return_codes: input.subrange(2, end),
                    },
                    end as nat,
                ),
            )
        }
    }
}

impl Suback {
    /// Reads the packet whose body starts at `input[at]`; hands back the
    /// packet and the place where it ends.
    pub fn parse(input: &[u8], at: usize, fixed_header: FixedHeader) -> (r: Result<
        (Suback, usize),
        PacketError,
    >)
        requires
            at <= input.len(),
        ensures
            match SubackView::spec_read(input@.skip(at as int), fixed_header) {
                Ok((packet, n)) => r is Ok && r->Ok_0.0@ == packet && r->Ok_0.1 == at + n && at
                    + n <= input.len(),
                Err(e) => r == Err::<(Suback, usize), PacketError>(e),
            },
    {
        let ghost body = input@.skip(at as int);
        let packet_id = match parse_u16(input, at) {
            Ok(value) => value,
            Err(e) => { return Err(e); },
        };
        if fixed_header.remaining_length < 2 {
            return Err(PacketError::InvalidRemainingLength);
        }
        let count = (fixed_header.remaining_length - 2) as usize;
        let start = at + 2;
        if input.len() - start < count {
            return Err(PacketError::UnexpectedEof);
        }
        let end = start + count;
        let return_codes = slice_to_vec(slice_subrange(input, start, end));
        assert(return_codes@ =~= body.subrange(2, fixed_header.remaining_length as int));
        Ok((Suback { packet_id, return_codes }, end))
    }
}

impl ReadablePacket<Suback> for Suback {
    open spec fn spec_read_from(input: Seq<u8>, fixed_header: FixedHeader) -> Result<
        (SubackView, nat),
        PacketError,
    > {
        SubackView::spec_read(input, fixed_header)
    }

    fn read_from(stream: &mut ByteReader, fixed_header: FixedHeader) -> (r: Result<
        Suback,
        PacketError,
    >) {
        assert(stream@.skip(0) =~= stream@);
        let parsed = Suback::parse(stream.as_slice(), 0, fixed_header);
        match parsed {
            Ok((packet, end)) => {
                stream.advance(end);
                Ok(packet)
            },
            Err(e) => Err(e),
        }
    }
}

impl WritablePacket for Suback {
    open spec fn spec_packet_type(&self) -> PacketType {
        PacketType::Suback
    }

    open spec fn spec_flags(&self) -> u8 {
        0
    }

    open spec fn spec_body(&self) -> Seq<u8> {
        self@.spec_body()
    }

    open spec fn spec_encodable(&self) -> bool {
        self@.spec_encodable()
    }

    fn write_to(&self, stream: &mut Vec<u8>) -> (r: Result<(), PacketError>) {
        let mut body: Vec<u8> = Vec::new();
        write_u16(&mut body, self.packet_id);
        write_bytes(&mut body, self.return_codes.as_slice());
        assert(body@ =~= self@.spec_body());
        write_frame(stream, PacketType::Suback, 0, &body)
    }

    fn calculate_remaining_length(&self) -> (n: u32) {
        (2 + self.return_codes.len()) as u32
    }
}

/// A SUBACK that has an encoding is read back as it was written, whatever
/// follows it, under the fixed header that it was written with.
pub proof fn lemma_suback_round_trip(packet: SubackView, fixed_header: FixedHeader, rest: Seq<u8>)
    requires
        packet.spec_encodable(),
        fixed_header.remaining_length == packet.spec_body().len(),
    ensures
        SubackView::spec_read(packet.spec_body() + rest, fixed_header) == Ok::<
            (SubackView, nat),
            PacketError,
        >((packet, packet.spec_body().len())),
{
    let id = spec_u16_bytes(packet.packet_id);
    let input = packet.spec_body() + rest;
    assert(input[0] == id[0]);
    assert(input[1] == id[1]);
    assert(input.subrange(2, packet.spec_body().len() as int) =~= packet.return_codes);
}

} // verus!
