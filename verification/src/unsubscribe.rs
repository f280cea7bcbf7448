use crate::error::PacketError;
use crate::filters::clone_texts;
use crate::filters::entries_length;
use crate::filters::lemma_entries_round_trip;
use crate::filters::parse_entries;
use crate::filters::spec_entries_encodable;
use crate::filters::spec_entries_from;
use crate::filters::spec_read_entries;
use crate::filters::spec_texts;
use crate::filters::write_entries;
use crate::packet::write_frame;
use crate::packet::FixedHeader;
use crate::packet::PacketType;
use crate::packet::ReadablePacket;
use crate::packet::WritablePacket;
use crate::packet::MAX_REMAINING_LENGTH;
use crate::reader::ByteReader;
use crate::utils::parse_u16;
use crate::utils::spec_u16_bytes;
use crate::utils::spec_u16_of;
use crate::utils::write_u16;
use vstd::prelude::*;

verus! {

/// The request of a client to be sent no more of what is published to some
/// topics.
#[derive(Debug, PartialEq)]
pub struct Unsubscribe {
    /// The packet identifier.
    pub packet_id: u16,
    /// The topic filters.
    pub topic_filters: Vec<String>,
}

/// A UNSUBSCRIBE packet as a mathematical value.
pub struct UnsubscribeView {
    pub packet_id: u16,
    pub topic_filters: Seq<Seq<char>>,
}

impl View for Unsubscribe {
    type V = UnsubscribeView;

    open spec fn view(&self) -> UnsubscribeView {
        UnsubscribeView {
            packet_id: self.packet_id,
            topic_filters: spec_texts(self.topic_filters@),
        }
    }
}

impl Clone for Unsubscribe {
    fn clone(&self) -> (r: Unsubscribe)
        ensures
            r@ == self@,
    {
        Unsubscribe {
            packet_id: self.packet_id,
            topic_filters: clone_texts(&self.topic_filters),
        }
    }
}

impl UnsubscribeView {
    /// The bytes after the fixed header.
    pub open spec fn spec_body(self) -> Seq<u8> {
        spec_u16_bytes(self.packet_id) + spec_entries_from(
            self.topic_filters,
            Seq::empty(),
            false,
            0,
        )
    }

    /// True where each topic filter fits in a string field and the body in
    /// a packet. Such a packet is carried without loss.
    pub open spec fn spec_encodable(self) -> bool {
        &&& spec_entries_encodable(self.topic_filters, Seq::empty(), false)
        &&& self.spec_body().len() <= MAX_REMAINING_LENGTH
    }

    /// What reading a UNSUBSCRIBE body makes of `input`, under a fixed header
    /// whose remaining length says where the topic filters end.
    pub open spec fn spec_read(input: Seq<u8>, fixed_header: FixedHeader) -> Result<
        (UnsubscribeView, nat),
        PacketError,
    > {
        if input.len() < 2 {
            Err(PacketError::UnexpectedEof)
        } else if fixed_header.remaining_length < 2 {
            Err(PacketError::InvalidRemainingLength)
        } else {
            match spec_read_entries(
                input.skip(2),
                (fixed_header.remaining_length - 2) as nat,
                false,
            ) {
                Err(e) => Err(e),
                Ok((topic_filters, _, n)) => Ok(
                    (
                        UnsubscribeView {
                            packet_id: spec_u16_of(input[0], input[1]),
                            topic_filters,
                        },
                        2 + n,
                    ),
                ),
            }
        }
    }
}

impl Unsubscribe {
    /// Reads the packet whose body starts at `input[at]`; hands back the
    /// packet and the place where it ends.
    pub fn parse(input: &[u8], at: usize, fixed_header: FixedHeader) -> (r: Result<
        (Unsubscribe, usize),
        PacketError,
    >)
        requires
            at <= input.len(),
        ensures
            match UnsubscribeView::spec_read(input@.skip(at as int), fixed_header) {
                Ok((packet, n)) => r is Ok && r->Ok_0.0@ == packet && r->Ok_0.1 == at + n && at
                    + n <= input.len(),
                Err(e) => r == Err::<(Unsubscribe, usize), PacketError>(e),
            },
    {
        let ghost body = input@.skip(at as int);
        let packet_id = match parse_u16(input, at) {
            Ok(value) => value,
            Err(e) => { return Err(e); },
        };
        if fixed_header.remaining_length < 2 {
            return Err(PacketError::InvalidRemainingLength);
        }
        assert(input@.skip(at + 2) =~= body.skip(2));
        let budget = (fixed_header.remaining_length - 2) as usize;
        match parse_entries(input, at + 2, budget, false) {
            Ok((topic_filters, _, end)) => Ok((Unsubscribe { packet_id, topic_filters }, end)),
            Err(e) => Err(e),
        }
    }

    /// The bytes after the fixed header, where each topic filter fits in a
    /// string field.
    pub fn body_bytes(&self) -> (r: Option<Vec<u8>>)
        ensures
            r is Some <==> spec_entries_encodable(self@.topic_filters, Seq::empty(), false),
            r is Some ==> r->0@ == self@.spec_body(),
    {
        let mut body: Vec<u8> = Vec::new();
        let no_qos: Vec<u8> = Vec::new();
        assert(no_qos@ =~= Seq::<u8>::empty());
        write_u16(&mut body, self.packet_id);
        if write_entries(&mut body, &self.topic_filters, &no_qos, false) {
            assert(body@ =~= self@.spec_body());
            Some(body)
        } else {
            None
        }
    }
}

impl ReadablePacket<Unsubscribe> for Unsubscribe {
    open spec fn spec_read_from(input: Seq<u8>, fixed_header: FixedHeader) -> Result<
        (UnsubscribeView, nat),
        PacketError,
    > {
        UnsubscribeView::spec_read(input, fixed_header)
    }

    fn read_from(stream: &mut ByteReader, fixed_header: FixedHeader) -> (r: Result<
        Unsubscribe,
        PacketError,
    >) {
        assert(stream@.skip(0) =~= stream@);
        let parsed = Unsubscribe::parse(stream.as_slice(), 0, fixed_header);
        match parsed {
            Ok((packet, end)) => {
                stream.advance(end);
                Ok(packet)
            },
            Err(e) => Err(e),
        }
    }
}

impl WritablePacket for Unsubscribe {
    open spec fn spec_packet_type(&self) -> PacketType {
        PacketType::Unsubscribe
    }

    open spec fn spec_flags(&self) -> u8 {
        0
    }

    open spec fn spec_body(&self) -> Seq<u8> {
        self@.spec_body()
    }

    open spec fn spec_encodable(&self) -> bool {
        self@.spec_encodable()
    }

    fn write_to(&self, stream: &mut Vec<u8>) -> (r: Result<(), PacketError>) {
        match self.body_bytes() {
            Some(body) => {
                let written = write_frame(stream, PacketType::Unsubscribe, 0, &body);
                written
            },
            None => Err(PacketError::Unencodable),
        }
    }

    fn calculate_remaining_length(&self) -> (n: u32) {
        let no_qos: Vec<u8> = Vec::new();
        assert(no_qos@ =~= Seq::<u8>::empty());
        (2 + entries_length(&self.topic_filters, &no_qos, false)) as u32
    }
}

/// An UNSUBSCRIBE that has an encoding is read back as it was written, whatever
/// follows it, under the fixed header that it was written with.
pub proof fn lemma_unsubscribe_round_trip(
    packet: UnsubscribeView,
    fixed_header: FixedHeader,
    rest: Seq<u8>,
)
    requires
        packet.spec_encodable(),
        fixed_header.remaining_length == packet.spec_body().len(),
    ensures
        UnsubscribeView::spec_read(packet.spec_body() + rest, fixed_header) == Ok::<
            (UnsubscribeView, nat),
            PacketError,
        >((packet, packet.spec_body().len())),
{
    let id = spec_u16_bytes(packet.packet_id);
    let entries = spec_entries_from(packet.topic_filters, Seq::empty(), false, 0);
    let input = packet.spec_body() + rest;
    assert(input[0] == id[0]);
    assert(input[1] == id[1]);
    assert(input.skip(2) =~= entries + rest);
    lemma_entries_round_trip(packet.topic_filters, Seq::empty(), false, 0, rest);
    assert(packet.topic_filters.skip(0) =~= packet.topic_filters);
}

} // verus!
