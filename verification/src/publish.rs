use crate::error::PacketError;
use crate::packet::write_frame;
use crate::packet::FixedHeader;
use crate::packet::PacketType;
use crate::packet::ReadablePacket;
use crate::packet::WritablePacket;
use crate::packet::MAX_REMAINING_LENGTH;
use crate::reader::ByteReader;
use crate::text::byte_len;
use crate::text::text_of_bytes;
use crate::utils::lemma_utf8_field_round_trip;
use crate::utils::parse_u16;
use crate::utils::parse_utf8_string;
use crate::utils::spec_read_utf8_string;
use crate::utils::spec_u16_bytes;
use crate::utils::spec_u16_of;
use crate::utils::spec_utf8_field;
use crate::utils::write_bytes;
use crate::utils::write_u16;
use crate::utils::write_utf8_string;
use crate::utils::MAX_STRING_LENGTH;
use vstd::prelude::*;
use vstd::utf8::decode_utf8;
use vstd::utf8::encode_utf8;
use vstd::utf8::valid_utf8;

verus! {

/// An application message on its way to or from the broker.
#[derive(Debug, PartialEq)]
pub struct Publish {
    /// The topic that the message is published to.
    pub topic_name: String,
    /// The message.
    pub payload: String,
    /// The packet identifier; 0 where the quality of service is 0.
    pub packet_id: u16,
    /// The quality of service of this delivery.
    pub qos: u8,
    /// 1 where the broker is to keep the message for later subscribers.
    pub retain_flag: u8,
    /// 1 where the message is sent again for want of an acknowledgement.
    pub dup_flag: u8,
}

/// A PUBLISH packet as a mathematical value.
pub struct PublishView {
    pub topic_name: Seq<char>,
    pub payload: Seq<char>,
    pub packet_id: u16,
    pub qos: u8,
    pub retain_flag: u8,
    pub dup_flag: u8,
}

impl View for Publish {
    type V = PublishView;

    open spec fn view(&self) -> PublishView {
        PublishView {
            topic_name: self.topic_name@,
            payload: self.payload@,
            packet_id: self.packet_id,
            qos: self.qos,
            retain_flag: self.retain_flag,
            dup_flag: self.dup_flag,
        }
    }
}

impl Clone for Publish {
    fn clone(&self) -> (r: Publish)
        ensures
            r@ == self@,
    {
        Publish {
            topic_name: self.topic_name.clone(),
            payload: self.payload.clone(),
            packet_id: self.packet_id,
            qos: self.qos,
            retain_flag: self.retain_flag,
            dup_flag: self.dup_flag,
        }
    }
}

/// The retain flag that the flags of a fixed header hold: bit 0.
#[verifier::opaque]
pub open spec fn spec_retain_of(flags: u8) -> u8 {
    flags % 2
}

/// The quality of service that the flags of a fixed header hold: bits 1
/// and 2.
#[verifier::opaque]
pub open spec fn spec_qos_of(flags: u8) -> u8 {
    (flags / 2) % 4
}

/// The duplicate flag that the flags of a fixed header hold: bit 3.
#[verifier::opaque]
pub open spec fn spec_dup_of(flags: u8) -> u8 {
    (flags / 8) % 2
}

/// The packet identifier of a PUBLISH as the wire holds it: two bytes where
/// the quality of service is above 0, and nothing where it is 0.
pub open spec fn spec_packet_id_bytes(qos: u8, packet_id: u16) -> Seq<u8> {
    if qos > 0 {
        spec_u16_bytes(packet_id)
    } else {
        Seq::empty()
    }
}

impl PublishView {
    /// The flags of the fixed header: retain in bit 0, the quality of
    /// service in bits 1 and 2, duplicate in bit 3.
    pub open spec fn spec_flags(self) -> u8 {
        (self.retain_flag % 2 + (self.qos % 4) * 2 + (self.dup_flag % 2) * 8) as u8
    }

    /// The bytes after the fixed header.
    pub open spec fn spec_body(self) -> Seq<u8> {
        spec_utf8_field(self.topic_name) + spec_packet_id_bytes(self.qos, self.packet_id)
            + encode_utf8(self.payload)
    }

    /// True where the topic fits in a string field and the body in a packet.
    pub open spec fn spec_encodable(self) -> bool {
        &&& encode_utf8(self.topic_name).len() <= MAX_STRING_LENGTH
        &&& self.spec_body().len() <= MAX_REMAINING_LENGTH
    }

    /// True of the packets that the wire can carry without loss: each flag
    /// is 0 or 1, the quality of service is at most 3, and the packet
    /// identifier is 0 where the quality of service is.
    pub open spec fn spec_well_formed(self) -> bool {
        &&& self.spec_encodable()
        &&& self.retain_flag <= 1
        &&& self.dup_flag <= 1
        &&& self.qos <= 3
        &&& self.qos == 0 ==> self.packet_id == 0
    }

    /// What reading a PUBLISH body makes of `input`, under a fixed header
    /// that gives the flags and, by its remaining length, the end of the
    /// payload.
    pub open spec fn spec_read(input: Seq<u8>, fixed_header: FixedHeader) -> Result<
        (PublishView, nat),
        PacketError,
    > {
        let qos = spec_qos_of(fixed_header.packet_type_flags);
        match spec_read_utf8_string(input) {
            Err(e) => Err(e),
            Ok((topic_name, n)) => {
                let start = if qos > 0 {
                    n + 2
                } else {
                    n
                };
                let end = fixed_header.remaining_length as int;
                if input.len() < start {
                    Err(PacketError::UnexpectedEof)
                } else if end < start {
                    Err(PacketError::InvalidRemainingLength)
                } else if input.len() < end {
                    Err(PacketError::UnexpectedEof)
                } else if !valid_utf8(input.subrange(start as int, end)) {
                    Err(PacketError::InvalidUtf8)
                } else {
                    Ok(
                        (
                            PublishView {
                                topic_name,
                                payload: decode_utf8(input.subrange(start as int, end)),
                                packet_id: if qos > 0 {
                                    spec_u16_of(input[n as int], input[n + 1 as int])
                                } else {
                                    0
                                },
                                qos,
                                retain_flag: spec_retain_of(fixed_header.packet_type_flags),
                                dup_flag: spec_dup_of(fixed_header.packet_type_flags),
                            },
                            end as nat,
                        ),
                    )
                }
            },
        }
    }
}

impl Publish {
    /// The flags of the packet's fixed header.
    pub fn header_flags(&self) -> (flags: u8)
        ensures
            flags == self@.spec_flags(),
            flags < 16,
    {
        self.retain_flag % 2 + (self.qos % 4) * 2 + (self.dup_flag % 2) * 8
    }

    /// Reads the packet whose body starts at `input[at]`; hands back the
    /// packet and the place where it ends.
    pub fn parse(input: &[u8], at: usize, fixed_header: FixedHeader) -> (r: Result<
        (Publish, usize),
        PacketError,
    >)
        requires
            at <= input.len(),
        ensures
            match PublishView::spec_read(input@.skip(at as int), fixed_header) {
                Ok((packet, n)) => r is Ok && r->Ok_0.0@ == packet && r->Ok_0.1 == at + n && at
                    + n <= input.len(),
                Err(e) => r == Err::<(Publish, usize), PacketError>(e),
            },
    {
        reveal(spec_retain_of);
        reveal(spec_qos_of);
        reveal(spec_dup_of);
        let ghost body = input@.skip(at as int);
        let flags = fixed_header.packet_type_flags;
        let qos = (flags / 2) % 4;
        let (topic_name, after_topic) = match parse_utf8_string(input, at) {
            Ok(found) => found,
            Err(e) => { return Err(e); },
        };
        let mut packet_id: u16 = 0;
        let mut start = after_topic;
        if qos > 0 {
            packet_id = match parse_u16(input, after_topic) {
                Ok(value) => value,
                Err(e) => { return Err(e); },
            };
            assert(input@.skip(after_topic as int)[0] == body[after_topic - at]);
            assert(input@.skip(after_topic as int)[1] == body[after_topic - at + 1]);
            start = after_topic + 2;
        }
        let taken = start - at;
        if (fixed_header.remaining_length as usize) < taken {
            return Err(PacketError::InvalidRemainingLength);
        }
        let payload_length = fixed_header.remaining_length as usize - taken;
        if input.len() - start < payload_length {
            return Err(PacketError::UnexpectedEof);
        }
        let end = start + payload_length;
        assert(input@.subrange(start as int, end as int) =~= body.subrange(
            start - at,
            fixed_header.remaining_length as int,
        ));
        match text_of_bytes(input, start, end) {
            Some(payload) => Ok(
                (
                    Publish {
                        topic_name,
                        payload,
                        packet_id,
                        qos,
                        retain_flag: flags % 2,
                        dup_flag: (flags / 8) % 2,
                    },
                    end,
                ),
            ),
            None => Err(PacketError::InvalidUtf8),
        }
    }

    /// The bytes after the fixed header, where the topic fits in a string
    /// field.
    pub fn body_bytes(&self) -> (r: Option<Vec<u8>>)
        ensures
            r is Some <==> encode_utf8(self@.topic_name).len() <= MAX_STRING_LENGTH,
            r is Some ==> r->0@ == self@.spec_body(),
    {
        if byte_len(self.topic_name.as_str()) > MAX_STRING_LENGTH {
            return None;
        }
        let mut body: Vec<u8> = Vec::new();
        write_utf8_string(&mut body, self.topic_name.as_str());
        if self.qos > 0 {
            write_u16(&mut body, self.packet_id);
        }
        write_bytes(&mut body, self.payload.as_str().as_bytes());
        assert(body@ =~= self@.spec_body());
        Some(body)
    }
}

impl ReadablePacket<Publish> for Publish {
    open spec fn spec_read_from(input: Seq<u8>, fixed_header: FixedHeader) -> Result<
        (PublishView, nat),
        PacketError,
    > {
        PublishView::spec_read(input, fixed_header)
    }

    fn read_from(stream: &mut ByteReader, fixed_header: FixedHeader) -> (r: Result<
        Publish,
        PacketError,
    >) {
        assert(stream@.skip(0) =~= stream@);
        let parsed = Publish::parse(stream.as_slice(), 0, fixed_header);
        match parsed {
            Ok((packet, end)) => {
                stream.advance(end);
                Ok(packet)
            },
            Err(e) => Err(e),
        }
    }
}

impl WritablePacket for Publish {
    open spec fn spec_packet_type(&self) -> PacketType {
        PacketType::Publish
    }

    open spec fn spec_flags(&self) -> u8 {
        self@.spec_flags()
    }

    open spec fn spec_body(&self) -> Seq<u8> {
        self@.spec_body()
    }

    open spec fn spec_encodable(&self) -> bool {
        self@.spec_encodable()
    }

    fn write_to(&self, stream: &mut Vec<u8>) -> (r: Result<(), PacketError>) {
        match self.body_bytes() {
            Some(body) => {
                let written = write_frame(stream, PacketType::Publish, self.header_flags(), &body);
                written
            },
            None => Err(PacketError::Unencodable),
        }
    }

    fn calculate_remaining_length(&self) -> (n: u32) {
        let mut length: usize = 2 + byte_len(self.topic_name.as_str());
        if self.qos > 0 {
            length = length + 2;
        }
        length = length + byte_len(self.payload.as_str());
        length as u32
    }
}

/// The flags of a fixed header hold each flag of a well-formed PUBLISH in
/// its own bits.
pub proof fn lemma_publish_flags_round_trip(packet: PublishView)
    requires
        packet.retain_flag <= 1,
        packet.dup_flag <= 1,
        packet.qos <= 3,
    ensures
        packet.spec_flags() < 16,
        spec_retain_of(packet.spec_flags()) == packet.retain_flag,
        spec_qos_of(packet.spec_flags()) == packet.qos,
        spec_dup_of(packet.spec_flags()) == packet.dup_flag,
{
    reveal(spec_retain_of);
    reveal(spec_qos_of);
    reveal(spec_dup_of);
}

/// A well-formed PUBLISH that was written is read back as it was, whatever
/// follows it, under the fixed header that it was written with.
pub proof fn lemma_publish_round_trip(packet: PublishView, fixed_header: FixedHeader, rest: Seq<u8>)
    requires
        packet.spec_well_formed(),
        fixed_header.packet_type_flags == packet.spec_flags(),
        fixed_header.remaining_length == packet.spec_body().len(),
    ensures
        PublishView::spec_read(packet.spec_body() + rest, fixed_header) == Ok::<
            (PublishView, nat),
            PacketError,
        >((packet, packet.spec_body().len())),
{
    let topic = spec_utf8_field(packet.topic_name);
    let id = spec_packet_id_bytes(packet.qos, packet.packet_id);
    let payload = encode_utf8(packet.payload);
    let input = packet.spec_body() + rest;
    lemma_publish_flags_round_trip(packet);
    assert(input =~= topic + (id + payload + rest));
    lemma_utf8_field_round_trip(packet.topic_name, id + payload + rest);
    let n = topic.len();
    let start = n + id.len();
    let end = packet.spec_body().len();
    assert(input.subrange(start as int, end as int) =~= payload);
    vstd::utf8::encode_utf8_valid_utf8(packet.payload);
    vstd::utf8::encode_utf8_decode_utf8(packet.payload);
    if packet.qos > 0 {
        assert(input[n as int] == id[0]);
        assert(input[n + 1 as int] == id[1]);
    }
}

} // verus!
