use mqtt_broker::connack::Connack;
use mqtt_broker::connect::Connect;
use mqtt_broker::disconnect::Disconnect;
use mqtt_broker::error::PacketError;
use mqtt_broker::packet::FixedHeader;
use mqtt_broker::packet::PacketType;
use mqtt_broker::packet::WritablePacket;
use mqtt_broker::packet_dispatcher::dispatch_packet;
use mqtt_broker::packet_dispatcher::Packet;
use mqtt_broker::pingreq::Pingreq;
use mqtt_broker::pingresp::Pingresp;
use mqtt_broker::puback::Puback;
use mqtt_broker::publish::Publish;
use mqtt_broker::reader::ByteReader;
use mqtt_broker::suback::Suback;
use mqtt_broker::subscribe::Subscribe;
use mqtt_broker::unsuback::Unsuback;
use mqtt_broker::unsubscribe::Unsubscribe;

fn encoded_length(length: u32) -> Vec<u8> {
    let mut out: Vec<u8> = Vec::new();
    assert_eq!(FixedHeader::encode_remaining_length(&mut out, length), Ok(()));
    out
}

fn round_trip(packet: Packet) {
    let mut wire: Vec<u8> = Vec::new();
    assert_eq!(packet.write_to(&mut wire), Ok(()));
    let written = wire.len();
    wire.extend_from_slice(&[0xAA, 0xBB]);
    let mut reader = ByteReader::new(wire);
    assert_eq!(dispatch_packet(&mut reader), Ok(packet));
    assert_eq!(reader.remaining(), 2);
    assert!(written >= 2);
}

#[test]
fn remaining_length_is_written_in_as_few_bytes_as_can_say_it() {
    assert_eq!(encoded_length(0), vec![0x00]);
    assert_eq!(encoded_length(127), vec![0x7F]);
    assert_eq!(encoded_length(128), vec![0x80, 0x01]);
    assert_eq!(encoded_length(321), vec![0xC1, 0x02]);
    assert_eq!(encoded_length(16_383), vec![0xFF, 0x7F]);
    assert_eq!(encoded_length(16_384), vec![0x80, 0x80, 0x01]);
    assert_eq!(encoded_length(2_097_151), vec![0xFF, 0xFF, 0x7F]);
    assert_eq!(encoded_length(2_097_152), vec![0x80, 0x80, 0x80, 0x01]);
    assert_eq!(encoded_length(268_435_455), vec![0xFF, 0xFF, 0xFF, 0x7F]);
}

#[test]
fn remaining_length_is_read_back_as_it_was_written() {
    for length in [0_u32, 1, 127, 128, 300, 16_383, 16_384, 2_097_151, 2_097_152, 268_435_455] {
        let mut bytes = encoded_length(length);
        bytes.push(0x55);
        let mut reader = ByteReader::new(bytes);
        assert_eq!(FixedHeader::decode_remaining_length(&mut reader), Ok(length));
        assert_eq!(reader.remaining(), 1);
    }
}

#[test]
fn remaining_length_above_the_greatest_cannot_be_written() {
    let mut out: Vec<u8> = vec![1, 2];
    assert_eq!(
        FixedHeader::encode_remaining_length(&mut out, 268_435_456),
        Err(PacketError::Unencodable)
    );
    assert_eq!(out, vec![1, 2]);
    let header = FixedHeader { packet_type: 3, packet_type_flags: 0, remaining_length: u32::MAX };
    assert_eq!(header.write_fixed_header(&mut out), Err(PacketError::Unencodable));
    assert_eq!(out, vec![1, 2]);
}

#[test]
fn remaining_length_that_runs_past_four_bytes_is_malformed() {
    let mut reader = ByteReader::new(vec![0x80, 0x80, 0x80, 0x80, 0x01]);
    let read = FixedHeader::decode_remaining_length(&mut reader);
    assert_eq!(read, Err(PacketError::InvalidRemainingLength));
    assert!(PacketError::InvalidRemainingLength.is_malformed());
    assert_eq!(reader.remaining(), 5);
    let mut short = ByteReader::new(vec![0xFF, 0xFF, 0xFF, 0xFF]);
    assert_eq!(
        FixedHeader::decode_remaining_length(&mut short),
        Err(PacketError::InvalidRemainingLength)
    );
}

#[test]
fn remaining_length_that_is_cut_short_is_an_error() {
    let mut reader = ByteReader::new(vec![0x80, 0x80]);
    assert_eq!(
        FixedHeader::decode_remaining_length(&mut reader),
        Err(PacketError::UnexpectedEof)
    );
    let mut empty = ByteReader::new(Vec::new());
    assert_eq!(FixedHeader::read_fixed_header(&mut empty), Err(PacketError::UnexpectedEof));
}

#[test]
fn fixed_header_holds_type_flags_and_length() {
    let header = FixedHeader { packet_type: 3, packet_type_flags: 0b1011, remaining_length: 200 };
    let mut out: Vec<u8> = Vec::new();
    assert_eq!(header.write_fixed_header(&mut out), Ok(()));
    assert_eq!(out, vec![0x3B, 0xC8, 0x01]);
    let mut reader = ByteReader::new(out);
    assert_eq!(FixedHeader::read_fixed_header(&mut reader), Ok(header));
    assert_eq!(reader.remaining(), 0);
}

#[test]
fn packet_types_have_their_codes() {
    assert_eq!(PacketType::Connect.code(), 1);
    assert_eq!(PacketType::Connack.code(), 2);
    assert_eq!(PacketType::Publish.code(), 3);
    assert_eq!(PacketType::Puback.code(), 4);
    assert_eq!(PacketType::Subscribe.code(), 8);
    assert_eq!(PacketType::Suback.code(), 9);
    assert_eq!(PacketType::Unsubscribe.code(), 10);
    assert_eq!(PacketType::Unsuback.code(), 11);
    assert_eq!(PacketType::Pingreq.code(), 12);
    assert_eq!(PacketType::Pingresp.code(), 13);
    assert_eq!(PacketType::Disconnect.code(), 14);
    for code in 0_u8..=255 {
        match PacketType::from_u8(code) {
            Some(packet_type) => assert_eq!(packet_type.code(), code),
            None => assert!(code == 0 || (5..=7).contains(&code) || code >= 15),
        }
    }
}

#[test]
fn unknown_packet_type_is_malformed() {
    let mut reader = ByteReader::new(vec![0x00, 0x00]);
    assert_eq!(dispatch_packet(&mut reader), Err(PacketError::UnknownPacketType));
    assert_eq!(reader.remaining(), 2);
    let mut other = ByteReader::new(vec![0xF0, 0x00]);
    assert_eq!(dispatch_packet(&mut other), Err(PacketError::UnknownPacketType));
    assert!(PacketError::UnknownPacketType.is_malformed());
}

#[test]
fn packet_that_is_cut_short_leaves_the_stream_where_it_was() {
    let packet = Packet::Puback(Puback { acknowledged_packet_id: 9 });
    let mut wire: Vec<u8> = Vec::new();
    assert_eq!(packet.write_to(&mut wire), Ok(()));
    wire.pop();
    let length = wire.len();
    let mut reader = ByteReader::new(wire);
    assert_eq!(dispatch_packet(&mut reader), Err(PacketError::UnexpectedEof));
    assert_eq!(reader.remaining(), length);
}

#[test]
fn connect_round_trip() {
    round_trip(Packet::Connect(Connect {
        client_id: "c1".to_owned(),
        username: "alice".to_owned(),
        password: "pw1".to_owned(),
        last_will_topic: "status/c1".to_owned(),
        last_will_message: "down".to_owned(),
        keep_alive: 300,
        last_will_qos: 2,
        clean_session: 1,
        last_will_retain: 1,
        last_will_flag: 1,
    }));
    round_trip(Packet::Connect(Connect {
        client_id: String::new(),
        username: String::new(),
        password: String::new(),
        last_will_topic: String::new(),
        last_will_message: String::new(),
        keep_alive: 0,
        last_will_qos: 0,
        clean_session: 0,
        last_will_retain: 0,
        last_will_flag: 0,
    }));
}

#[test]
fn connack_round_trip() {
    round_trip(Packet::Connack(Connack { return_code: 0, session_present: 1 }));
    round_trip(Packet::Connack(Connack { return_code: 5, session_present: 0 }));
}

#[test]
fn publish_round_trip() {
    round_trip(Packet::Publish(Publish {
        topic_name: "room/a".to_owned(),
        payload: "hello".to_owned(),
        packet_id: 0,
        qos: 0,
        retain_flag: 0,
        dup_flag: 0,
    }));
    round_trip(Packet::Publish(Publish {
        topic_name: "caf\u{e9}".to_owned(),
        payload: "x".repeat(200),
        packet_id: 65535,
        qos: 1,
        retain_flag: 1,
        dup_flag: 1,
    }));
    round_trip(Packet::Publish(Publish {
        topic_name: "t".to_owned(),
        payload: String::new(),
        packet_id: 2,
        qos: 2,
        retain_flag: 0,
        dup_flag: 0,
    }));
}

#[test]
fn puback_round_trip() {
    round_trip(Packet::Puback(Puback { acknowledged_packet_id: 7 }));
}

#[test]
fn subscribe_round_trip() {
    round_trip(Packet::Subscribe(Subscribe {
        packet_id: 10,
        topic_filters: vec!["a/d".to_owned(), "topic/+/temperature".to_owned(), "#".to_owned()],
        requested_qos: vec![0, 1, 2],
    }));
    round_trip(Packet::Subscribe(Subscribe {
        packet_id: 11,
        topic_filters: Vec::new(),
        requested_qos: Vec::new(),
    }));
}

#[test]
fn suback_round_trip() {
    round_trip(Packet::Suback(Suback { packet_id: 10, return_codes: vec![0, 1, 0x80] }));
    round_trip(Packet::Suback(Suback { packet_id: 10, return_codes: vec![1; 130] }));
}

#[test]
fn unsubscribe_round_trip() {
    round_trip(Packet::Unsubscribe(Unsubscribe {
        packet_id: 3,
        topic_filters: vec!["a/d".to_owned(), "b".to_owned()],
    }));
}

#[test]
fn unsuback_round_trip() {
    round_trip(Packet::Unsuback(Unsuback { packet_id: 3 }));
}

#[test]
fn packets_without_a_body_round_trip() {
    round_trip(Packet::Pingreq(Pingreq {}));
    round_trip(Packet::Pingresp(Pingresp {}));
    round_trip(Packet::Disconnect(Disconnect {}));
    let mut wire: Vec<u8> = Vec::new();
    assert_eq!(Pingreq {}.write_to(&mut wire), Ok(()));
    assert_eq!(Pingresp {}.write_to(&mut wire), Ok(()));
    assert_eq!(Disconnect {}.write_to(&mut wire), Ok(()));
    assert_eq!(wire, vec![0xC0, 0x00, 0xD0, 0x00, 0xE0, 0x00]);
}

#[test]
fn remaining_length_is_the_length_of_the_body() {
    let subscribe = Subscribe {
        packet_id: 10,
        topic_filters: vec!["a/d".to_owned(), "bc".to_owned()],
        requested_qos: vec![0, 1],
    };
    assert_eq!(subscribe.calculate_remaining_length(), 13);
    let unsubscribe =
        Unsubscribe { packet_id: 10, topic_filters: vec!["a/d".to_owned(), "bc".to_owned()] };
    assert_eq!(unsubscribe.calculate_remaining_length(), 11);
    let suback = Suback { packet_id: 1, return_codes: vec![0, 1, 2] };
    assert_eq!(suback.calculate_remaining_length(), 5);
    assert_eq!(Connack { return_code: 0, session_present: 0 }.calculate_remaining_length(), 2);
    assert_eq!(Puback { acknowledged_packet_id: 1 }.calculate_remaining_length(), 2);
    assert_eq!(Unsuback { packet_id: 1 }.calculate_remaining_length(), 2);
    assert_eq!(Disconnect {}.calculate_remaining_length(), 0);
    assert_eq!(Packet::Suback(suback).calculate_remaining_length(), 5);
}
