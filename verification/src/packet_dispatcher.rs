use crate::connack::lemma_connack_round_trip;
use crate::connack::Connack;
use crate::connect::lemma_connect_round_trip;
use crate::connect::Connect;
use crate::connect::ConnectView;
use crate::disconnect::Disconnect;
use crate::error::PacketError;
use crate::packet::lemma_frame_round_trip;
use crate::packet::spec_frame;
use crate::packet::FixedHeader;
use crate::packet::PacketType;
use crate::packet::ReadablePacket;
use crate::packet::WritablePacket;
use crate::packet::MAX_REMAINING_LENGTH;
use crate::pingreq::Pingreq;
use crate::pingresp::Pingresp;
use crate::puback::lemma_puback_round_trip;
use crate::puback::Puback;
use crate::publish::lemma_publish_flags_round_trip;
use crate::publish::lemma_publish_round_trip;
use crate::publish::Publish;
use crate::publish::PublishView;
use crate::reader::ByteReader;
use crate::suback::lemma_suback_round_trip;
use crate::suback::Suback;
use crate::suback::SubackView;
use crate::subscribe::lemma_subscribe_round_trip;
use crate::subscribe::Subscribe;
use crate::subscribe::SubscribeView;
use crate::unsuback::lemma_unsuback_round_trip;
use crate::unsuback::Unsuback;
use crate::unsubscribe::lemma_unsubscribe_round_trip;
use crate::unsubscribe::Unsubscribe;
use crate::unsubscribe::UnsubscribeView;
use vstd::prelude::*;

verus! {

/// A control packet of any of the eleven types.
#[derive(Debug, PartialEq)]
pub enum Packet {
    Connect(Connect),
    Connack(Connack),
    Publish(Publish),
    Puback(Puback),
    Subscribe(Subscribe),
    Suback(Suback),
    Unsubscribe(Unsubscribe),
    Unsuback(Unsuback),
    Pingreq(Pingreq),
    Pingresp(Pingresp),
    Disconnect(Disconnect),
}

/// A control packet as a mathematical value.
pub enum PacketView {
    Connect(ConnectView),
    Connack(Connack),
    Publish(PublishView),
    Puback(Puback),
    Subscribe(SubscribeView),
    Suback(SubackView),
    Unsubscribe(UnsubscribeView),
    Unsuback(Unsuback),
    Pingreq(Pingreq),
    Pingresp(Pingresp),
    Disconnect(Disconnect),
}

impl View for Packet {
    type V = PacketView;

    open spec fn view(&self) -> PacketView {
        match self {
            Packet::Connect(p) => PacketView::Connect(p@),
            Packet::Connack(p) => PacketView::Connack(*p),
            Packet::Publish(p) => PacketView::Publish(p@),
            Packet::Puback(p) => PacketView::Puback(*p),
            Packet::Subscribe(p) => PacketView::Subscribe(p@),
            Packet::Suback(p) => PacketView::Suback(p@),
            Packet::Unsubscribe(p) => PacketView::Unsubscribe(p@),
            Packet::Unsuback(p) => PacketView::Unsuback(*p),
            Packet::Pingreq(p) => PacketView::Pingreq(*p),
            Packet::Pingresp(p) => PacketView::Pingresp(*p),
            Packet::Disconnect(p) => PacketView::Disconnect(*p),
        }
    }
}

impl Clone for Packet {
    fn clone(&self) -> (r: Packet)
        ensures
            r@ == self@,
    {
        match self {
            Packet::Connect(p) => Packet::Connect(p.clone()),
            Packet::Connack(p) => Packet::Connack(*p),
            Packet::Publish(p) => Packet::Publish(p.clone()),
            Packet::Puback(p) => Packet::Puback(*p),
            Packet::Subscribe(p) => Packet::Subscribe(p.clone()),
            Packet::Suback(p) => Packet::Suback(p.clone()),
            Packet::Unsubscribe(p) => Packet::Unsubscribe(p.clone()),
            Packet::Unsuback(p) => Packet::Unsuback(*p),
            Packet::Pingreq(p) => Packet::Pingreq(*p),
            Packet::Pingresp(p) => Packet::Pingresp(*p),
            Packet::Disconnect(p) => Packet::Disconnect(*p),
        }
    }
}

impl PacketView {
    /// The type that the fixed header names.
    pub open spec fn spec_packet_type(self) -> PacketType {
        match self {
            PacketView::Connect(_) => PacketType::Connect,
            PacketView::Connack(_) => PacketType::Connack,
            PacketView::Publish(_) => PacketType::Publish,
            PacketView::Puback(_) => PacketType::Puback,
            PacketView::Subscribe(_) => PacketType::Subscribe,
            PacketView::Suback(_) => PacketType::Suback,
            PacketView::Unsubscribe(_) => PacketType::Unsubscribe,
            PacketView::Unsuback(_) => PacketType::Unsuback,
            PacketView::Pingreq(_) => PacketType::Pingreq,
            PacketView::Pingresp(_) => PacketType::Pingresp,
            PacketView::Disconnect(_) => PacketType::Disconnect,
        }
    }

    /// The four flags of the fixed header: those of a PUBLISH, and 0 for
    /// every other type.
    pub open spec fn spec_flags(self) -> u8 {
        match self {
            PacketView::Publish(p) => p.spec_flags(),
            _ => 0,
        }
    }

    /// The bytes after the fixed header.
    pub open spec fn spec_body(self) -> Seq<u8> {
        match self {
            PacketView::Connect(p) => p.spec_body(),
            PacketView::Connack(p) => p.spec_body(),
            PacketView::Publish(p) => p.spec_body(),
            PacketView::Puback(p) => p.spec_body(),
            PacketView::Subscribe(p) => p.spec_body(),
            PacketView::Suback(p) => p.spec_body(),
            PacketView::Unsubscribe(p) => p.spec_body(),
            PacketView::Unsuback(p) => p.spec_body(),
            PacketView::Pingreq(_) => Seq::empty(),
            PacketView::Pingresp(_) => Seq::empty(),
            PacketView::Disconnect(_) => Seq::empty(),
        }
    }

    /// The whole packet on the wire.
    pub open spec fn spec_encode(self) -> Seq<u8> {
        spec_frame(self.spec_packet_type(), self.spec_flags(), self.spec_body())
    }

    /// True of the packets that the wire format can say.
    pub open spec fn spec_encodable(self) -> bool {
        match self {
            PacketView::Connect(p) => p.spec_encodable(),
            PacketView::Publish(p) => p.spec_encodable(),
            PacketView::Subscribe(p) => p.spec_encodable(),
            PacketView::Suback(p) => p.spec_encodable(),
            PacketView::Unsubscribe(p) => p.spec_encodable(),
            _ => true,
        }
    }

    /// True of the packets that the wire can carry without loss.
    pub open spec fn spec_well_formed(self) -> bool {
        match self {
            PacketView::Connect(p) => p.spec_well_formed(),
            PacketView::Connack(p) => p.spec_well_formed(),
            PacketView::Publish(p) => p.spec_well_formed(),
            PacketView::Subscribe(p) => p.spec_well_formed(),
            PacketView::Suback(p) => p.spec_encodable(),
            PacketView::Unsubscribe(p) => p.spec_encodable(),
            _ => true,
        }
    }
}

/// The result of reading one type of packet, as a packet of any type.
pub open spec fn spec_lift<P>(
    read: Result<(P, nat), PacketError>,
    wrap: spec_fn(P) -> PacketView,
) -> Result<(PacketView, nat), PacketError> {
    match read {
        Ok((packet, n)) => Ok((wrap(packet), n)),
        Err(e) => Err(e),
    }
}

/// What reading a body of the given type makes of `input`.
pub open spec fn spec_read_body(packet_type: PacketType, input: Seq<u8>, fixed_header: FixedHeader)
    -> Result<(PacketView, nat), PacketError> {
    match packet_type {
        PacketType::Connect => spec_lift(
            Connect::spec_read_from(input, fixed_header),
            |p: ConnectView| PacketView::Connect(p),
        ),
        PacketType::Connack => spec_lift(
            Connack::spec_read_from(input, fixed_header),
            |p: Connack| PacketView::Connack(p),
        ),
        PacketType::Publish => spec_lift(
            Publish::spec_read_from(input, fixed_header),
            |p: PublishView| PacketView::Publish(p),
        ),
        PacketType::Puback => spec_lift(
            Puback::spec_read_from(input, fixed_header),
            |p: Puback| PacketView::Puback(p),
        ),
        PacketType::Subscribe => spec_lift(
            Subscribe::spec_read_from(input, fixed_header),
            |p: SubscribeView| PacketView::Subscribe(p),
        ),
        PacketType::Suback => spec_lift(
            Suback::spec_read_from(input, fixed_header),
            |p: SubackView| PacketView::Suback(p),
        ),
        PacketType::Unsubscribe => spec_lift(
            Unsubscribe::spec_read_from(input, fixed_header),
            |p: UnsubscribeView| PacketView::Unsubscribe(p),
        ),
        PacketType::Unsuback => spec_lift(
            Unsuback::spec_read_from(input, fixed_header),
            |p: Unsuback| PacketView::Unsuback(p),
        ),
        PacketType::Pingreq => Ok((PacketView::Pingreq(Pingreq {  }), 0)),
        PacketType::Pingresp => Ok((PacketView::Pingresp(Pingresp {  }), 0)),
        PacketType::Disconnect => Ok((PacketView::Disconnect(Disconnect {  }), 0)),
    }
}

/// What reading one packet makes of `input`: the fixed header, then the body
/// of the type that the header names. A header that names none of the
/// eleven types is an error.
pub open spec fn spec_dispatch_packet(input: Seq<u8>) -> Result<(PacketView, nat), PacketError> {
    match FixedHeader::spec_read_fixed_header(input) {
        Err(e) => Err(e),
        Ok((fixed_header, n)) => match PacketType::spec_from_u8(fixed_header.packet_type) {
            None => Err(PacketError::UnknownPacketType),
            Some(packet_type) => match spec_read_body(
                packet_type,
                input.skip(n as int),
                fixed_header,
            ) {
                Err(e) => Err(e),
                Ok((packet, m)) => Ok((packet, n + m)),
            },
        },
    }
}

/// Reads the body of the given type that starts at `input[at]`; hands back
/// the packet and the place where it ends.
pub fn parse_body(packet_type: PacketType, input: &[u8], at: usize, fixed_header: FixedHeader) -> (r:
    Result<(Packet, usize), PacketError>)
    requires
        at <= input.len(),
    ensures
        match spec_read_body(packet_type, input@.skip(at as int), fixed_header) {
            Ok((packet, n)) => r is Ok && r->Ok_0.0@ == packet && r->Ok_0.1 == at + n && at + n
                <= input.len(),
            Err(e) => r == Err::<(Packet, usize), PacketError>(e),
        },
{
    match packet_type {
        PacketType::Connect => match Connect::parse(input, at) {
            Ok((p, end)) => Ok((Packet::Connect(p), end)),
            Err(e) => Err(e),
        },
        PacketType::Connack => match Connack::parse(input, at) {
            Ok((p, end)) => Ok((Packet::Connack(p), end)),
            Err(e) => Err(e),
        },
        PacketType::Publish => match Publish::parse(input, at, fixed_header) {
            Ok((p, end)) => Ok((Packet::Publish(p), end)),
            Err(e) => Err(e),
        },
        PacketType::Puback => match Puback::parse(input, at) {
            Ok((p, end)) => Ok((Packet::Puback(p), end)),
            Err(e) => Err(e),
        },
        PacketType::Subscribe => match Subscribe::parse(input, at, fixed_header) {
            Ok((p, end)) => Ok((Packet::Subscribe(p), end)),
            Err(e) => Err(e),
        },
        PacketType::Suback => match Suback::parse(input, at, fixed_header) {
            Ok((p, end)) => Ok((Packet::Suback(p), end)),
            Err(e) => Err(e),
        },
        PacketType::Unsubscribe => match Unsubscribe::parse(input, at, fixed_header) {
            Ok((p, end)) => Ok((Packet::Unsubscribe(p), end)),
            Err(e) => Err(e),
        },
        PacketType::Unsuback => match Unsuback::parse(input, at) {
            Ok((p, end)) => Ok((Packet::Unsuback(p), end)),
            Err(e) => Err(e),
        },
        PacketType::Pingreq => Ok((Packet::Pingreq(Pingreq {  }), at)),
        PacketType::Pingresp => Ok((Packet::Pingresp(Pingresp {  }), at)),
        PacketType::Disconnect => Ok((Packet::Disconnect(Disconnect {  }), at)),
    }
}

/// Reads one packet from the stream. Where the bytes ahead hold none, the
/// stream stays where it was.
pub fn dispatch_packet(stream: &mut ByteReader) -> (r: Result<Packet, PacketError>)
    ensures
        match spec_dispatch_packet(old(stream)@) {
            Ok((packet, n)) => {
                &&& r is Ok
                &&& r->Ok_0@ == packet
                &&& n <= old(stream)@.len()
                &&& final(stream)@ == old(stream)@.skip(n as int)
            },
            Err(e) => r == Err::<Packet, PacketError>(e) && *final(stream) == *old(stream),
        },
{
    assert(stream@.skip(0) =~= stream@);
    let input = stream.as_slice();
    let (fixed_header, start) = match FixedHeader::parse_fixed_header(input, 0) {
        Ok(found) => found,
        Err(e) => { return Err(e); },
    };
    let packet_type = match PacketType::from_u8(fixed_header.packet_type) {
        Some(packet_type) => packet_type,
        None => { return Err(PacketError::UnknownPacketType); },
    };
    let parsed = parse_body(packet_type, input, start, fixed_header);
    match parsed {
        Ok((packet, end)) => {
            stream.advance(end);
            Ok(packet)
        },
        Err(e) => Err(e),
    }
}

impl WritablePacket for Packet {
    open spec fn spec_packet_type(&self) -> PacketType {
        self@.spec_packet_type()
    }

    open spec fn spec_flags(&self) -> u8 {
        self@.spec_flags()
    }

    open spec fn spec_body(&self) -> Seq<u8> {
        self@.spec_body()
    }

    open spec fn spec_encodable(&self) -> bool {
        self@.spec_encodable()
    }

    fn write_to(&self, stream: &mut Vec<u8>) -> (r: Result<(), PacketError>) {
        match self {
            Packet::Connect(p) => p.write_to(stream),
            Packet::Connack(p) => p.write_to(stream),
            Packet::Publish(p) => p.write_to(stream),
            Packet::Puback(p) => p.write_to(stream),
            Packet::Subscribe(p) => p.write_to(stream),
            Packet::Suback(p) => p.write_to(stream),
            Packet::Unsubscribe(p) => p.write_to(stream),
            Packet::Unsuback(p) => p.write_to(stream),
            Packet::Pingreq(p) => p.write_to(stream),
            Packet::Pingresp(p) => p.write_to(stream),
            Packet::Disconnect(p) => p.write_to(stream),
        }
    }

    fn calculate_remaining_length(&self) -> (n: u32) {
        match self {
            Packet::Connect(p) => p.calculate_remaining_length(),
            Packet::Connack(p) => p.calculate_remaining_length(),
            Packet::Publish(p) => p.calculate_remaining_length(),
            Packet::Puback(p) => p.calculate_remaining_length(),
            Packet::Subscribe(p) => p.calculate_remaining_length(),
            Packet::Suback(p) => p.calculate_remaining_length(),
            Packet::Unsubscribe(p) => p.calculate_remaining_length(),
            Packet::Unsuback(p) => p.calculate_remaining_length(),
            Packet::Pingreq(p) => p.calculate_remaining_length(),
            Packet::Pingresp(p) => p.calculate_remaining_length(),
            Packet::Disconnect(p) => p.calculate_remaining_length(),
        }
    }
}

/// The body of a well-formed packet is read back as the packet, whatever
/// follows it, under the fixed header that the packet is written with.
pub proof fn lemma_body_round_trip(packet: PacketView, fixed_header: FixedHeader, rest: Seq<u8>)
    requires
        packet.spec_well_formed(),
        fixed_header.packet_type_flags == packet.spec_flags(),
        fixed_header.remaining_length == packet.spec_body().len(),
    ensures
        spec_read_body(packet.spec_packet_type(), packet.spec_body() + rest, fixed_header) == Ok::<
            (PacketView, nat),
            PacketError,
        >((packet, packet.spec_body().len())),
{
    match packet {
        PacketView::Connect(p) => lemma_connect_round_trip(p, rest),
        PacketView::Connack(p) => lemma_connack_round_trip(p, rest),
        PacketView::Publish(p) => lemma_publish_round_trip(p, fixed_header, rest),
        PacketView::Puback(p) => lemma_puback_round_trip(p, rest),
        PacketView::Subscribe(p) => lemma_subscribe_round_trip(p, fixed_header, rest),
        PacketView::Suback(p) => lemma_suback_round_trip(p, fixed_header, rest),
        PacketView::Unsubscribe(p) => lemma_unsubscribe_round_trip(p, fixed_header, rest),
        PacketView::Unsuback(p) => lemma_unsuback_round_trip(p, rest),
        PacketView::Pingreq(p) => {},
        PacketView::Pingresp(p) => {},
        PacketView::Disconnect(p) => {},
    }
}

/// Reading what was written gives the packet back: the bytes of a
/// well-formed packet, whatever follows them, are read as that packet, and
/// the read takes exactly those bytes.
pub proof fn lemma_packet_round_trip(packet: PacketView, rest: Seq<u8>)
    requires
        packet.spec_well_formed(),
    ensures
        spec_dispatch_packet(packet.spec_encode() + rest) == Ok::<(PacketView, nat), PacketError>(
            (packet, packet.spec_encode().len()),
        ),
{
    let packet_type = packet.spec_packet_type();
    let flags = packet.spec_flags();
    let body = packet.spec_body();
    lemma_well_formed_fits(packet);
    lemma_frame_round_trip(packet_type, flags, body, rest);
    let (fixed_header, n) = FixedHeader::spec_read_fixed_header(packet.spec_encode() + rest)->Ok_0;
    lemma_body_round_trip(packet, fixed_header, rest);
}

/// The flags of a well-formed packet fit in four bits, and its body in the
/// greatest remaining length.
pub proof fn lemma_well_formed_fits(packet: PacketView)
    requires
        packet.spec_well_formed(),
    ensures
        packet.spec_flags() < 16,
        packet.spec_body().len() <= MAX_REMAINING_LENGTH,
{
    match packet {
        PacketView::Publish(p) => lemma_publish_flags_round_trip(p),
        _ => {},
    }
}

} // verus!
