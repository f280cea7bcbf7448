use crate::error::PacketError;
use crate::filters::clone_texts;
use crate::filters::entries_length;
use crate::filters::lemma_entries_round_trip;
use crate::filters::parse_entries;
use crate::filters::spec_entries_encodable;
use crate::filters::spec_entries_from;
use crate::filters::spec_read_entries;
use crate::filters::spec_texts;
use crate::filters::write_entries;
use crate::packet::write_frame;
use crate::packet::FixedHeader;
use crate::packet::PacketType;
use crate::packet::ReadablePacket;
use crate::packet::WritablePacket;
use crate::packet::MAX_REMAINING_LENGTH;
use crate::reader::ByteReader;
use crate::utils::parse_u16;
use crate::utils::spec_u16_bytes;
use crate::utils::spec_u16_of;
use crate::utils::write_u16;
use vstd::prelude::*;

verus! {

/// The request of a client to be sent what is published to some topics.
#[derive(Debug, PartialEq)]
pub struct Subscribe {
    /// The packet identifier.
    pub packet_id: u16,
    /// The topic filters.
    pub topic_filters: Vec<String>,
    /// The quality of service that is asked for each topic filter, in the
    /// same order.
    pub requested_qos: Vec<u8>,
}

/// A SUBSCRIBE packet as a mathematical value.
pub struct SubscribeView {
    pub packet_id: u16,
    pub topic_filters: Seq<Seq<char>>,
    pub requested_qos: Seq<u8>,
}

impl View for Subscribe {
    type V = SubscribeView;

    open spec fn view(&self) -> SubscribeView {
        SubscribeView {
            packet_id: self.packet_id,
            topic_filters: spec_texts(self.topic_filters@),
            requested_qos: self.requested_qos@,
        }
    }
}

impl Clone for Subscribe {
    fn clone(&self) -> (r: Subscribe)
        ensures
            r@ == self@,
    {
        Subscribe {
            packet_id: self.packet_id,
            topic_filters: clone_texts(&self.topic_filters),
            requested_qos: self.requested_qos.clone(),
        }
    }
}

impl SubscribeView {
    /// The bytes after the fixed header.
    pub open spec fn spec_body(self) -> Seq<u8> {
        spec_u16_bytes(self.packet_id) + spec_entries_from(
            self.topic_filters,
            self.requested_qos,
            true,
            0,
        )
    }

    /// True where each topic filter fits in a string field and has a
    /// quality of service, and the body fits in a packet.
    pub open spec fn spec_encodable(self) -> bool {
        &&& spec_entries_encodable(self.topic_filters, self.requested_qos, true)
        &&& self.spec_body().len() <= MAX_REMAINING_LENGTH
    }

    /// True of the packets that the wire can carry without loss: there are
    /// as many qualities of service as topic filters.
    pub open spec fn spec_well_formed(self) -> bool {
        &&& self.spec_encodable()
        &&& self.topic_filters.len() == self.requested_qos.len()
    }

    /// What reading a SUBSCRIBE body makes of `input`, under a fixed header
    /// whose remaining length says where the topic filters end.
    pub open spec fn spec_read(input: Seq<u8>, fixed_header: FixedHeader) -> Result<
        (SubscribeView, nat),
        PacketError,
    > {
        if input.len() < 2 {
            Err(PacketError::UnexpectedEof)
        } else if fixed_header.remaining_length < 2 {
            Err(PacketError::InvalidRemainingLength)
        } else {
            match spec_read_entries(
                input.skip(2),
                (fixed_header.remaining_length - 2) as nat,
                true,
            ) {
                Err(e) => Err(e),
                Ok((topic_filters, requested_qos, n)) => Ok(
                    (
                        SubscribeView {
                            packet_id: spec_u16_of(input[0], input[1]),
                            topic_filters,
                            requested_qos,
                        },
                        2 + n,
                    ),
                ),
            }
        }
    }
}

impl Subscribe {
    /// Reads the packet whose body starts at `input[at]`; hands back the
    /// packet and the place where it ends.
    pub fn parse(input: &[u8], at: usize, fixed_header: FixedHeader) -> (r: Result<
        (Subscribe, usize),
        PacketError,
    >)
        requires
            at <= input.len(),
        ensures
            match SubscribeView::spec_read(input@.skip(at as int), fixed_header) {
                Ok((packet, n)) => r is Ok && r->Ok_0.0@ == packet && r->Ok_0.1 == at + n && at
                    + n <= input.len(),
                Err(e) => r == Err::<(Subscribe, usize), PacketError>(e),
            },
    {
        let ghost body = input@.skip(at as int);
        let packet_id = match parse_u16(input, at) {
            Ok(value) => value,
            Err(e) => { return Err(e); },
        };
        if fixed_header.remaining_length < 2 {
            return Err(PacketError::InvalidRemainingLength);
        }
        assert(input@.skip(at + 2) =~= body.skip(2));
        let budget = (fixed_header.remaining_length - 2) as usize;
        match parse_entries(input, at + 2, budget, true) {
            Ok((topic_filters, requested_qos, end)) => Ok(
                (Subscribe { packet_id, topic_filters, requested_qos }, end),
            ),
            Err(e) => Err(e),
        }
    }

    /// The bytes after the fixed header, where each topic filter fits in a
    /// string field and has a quality of service.
    pub fn body_bytes(&self) -> (r: Option<Vec<u8>>)
        ensures
            r is Some <==> spec_entries_encodable(
                self@.topic_filters,
                self@.requested_qos,
                true,
            ),
            r is Some ==> r->0@ == self@.spec_body(),
    {
        let mut body: Vec<u8> = Vec::new();
        write_u16(&mut body, self.packet_id);
        if write_entries(&mut body, &self.topic_filters, &self.requested_qos, true) {
            assert(body@ =~= self@.spec_body());
            Some(body)
        } else {
            None
        }
    }
}

impl ReadablePacket<Subscribe> for Subscribe {
    open spec fn spec_read_from(input: Seq<u8>, fixed_header: FixedHeader) -> Result<
        (SubscribeView, nat),
        PacketError,
    > {
        SubscribeView::spec_read(input, fixed_header)
    }

    fn read_from(stream: &mut ByteReader, fixed_header: FixedHeader) -> (r: Result<
        Subscribe,
        PacketError,
    >) {
        assert(stream@.skip(0) =~= stream@);
        let parsed = Subscribe::parse(stream.as_slice(), 0, fixed_header);
        match parsed {
            Ok((packet, end)) => {
                stream.advance(end);
                Ok(packet)
            },
            Err(e) => Err(e),
        }
    }
}

impl WritablePacket for Subscribe {
    open spec fn spec_packet_type(&self) -> PacketType {
        PacketType::Subscribe
    }

    open spec fn spec_flags(&self) -> u8 {
        0
    }

    open spec fn spec_body(&self) -> Seq<u8> {
        self@.spec_body()
    }

    open spec fn spec_encodable(&self) -> bool {
        self@.spec_encodable()
    }

    fn write_to(&self, stream: &mut Vec<u8>) -> (r: Result<(), PacketError>) {
        match self.body_bytes() {
            Some(body) => {
                let written = write_frame(stream, PacketType::Subscribe, 0, &body);
                written
            },
            None => Err(PacketError::Unencodable),
        }
    }

    fn calculate_remaining_length(&self) -> (n: u32) {
        (2 + entries_length(&self.topic_filters, &self.requested_qos, true)) as u32
    }
}

/// A well-formed SUBSCRIBE that was written is read back as it was, whatever
/// follows it, under the fixed header that it was written with.
pub proof fn lemma_subscribe_round_trip(
    packet: SubscribeView,
    fixed_header: FixedHeader,
    rest: Seq<u8>,
)
    requires
        packet.spec_well_formed(),
        fixed_header.remaining_length == packet.spec_body().len(),
    ensures
        SubscribeView::spec_read(packet.spec_body() + rest, fixed_header) == Ok::<
            (SubscribeView, nat),
            PacketError,
        >((packet, packet.spec_body().len())),
{
    let id = spec_u16_bytes(packet.packet_id);
    let entries = spec_entries_from(packet.topic_filters, packet.requested_qos, true, 0);
    let input = packet.spec_body() + rest;
    assert(input[0] == id[0]);
    assert(input[1] == id[1]);
    assert(input.skip(2) =~= entries + rest);
    lemma_entries_round_trip(packet.topic_filters, packet.requested_qos, true, 0, rest);
    assert(packet.topic_filters.skip(0) =~= packet.topic_filters);
    assert(packet.requested_qos.skip(0) =~= packet.requested_qos);
}

} // verus!
