use mqtt_broker::connack::Connack;
use mqtt_broker::connect::Connect;
use mqtt_broker::disconnect::Disconnect;
use mqtt_broker::error::PacketError;
use mqtt_broker::packet::FixedHeader;
use mqtt_broker::packet::PacketType;
use mqtt_broker::packet::ReadablePacket;
use mqtt_broker::packet::WritablePacket;
use mqtt_broker::pingreq::Pingreq;
use mqtt_broker::pingresp::Pingresp;
use mqtt_broker::puback::Puback;
use mqtt_broker::publish::Publish;
use mqtt_broker::reader::ByteReader;
use mqtt_broker::suback::Suback;
use mqtt_broker::subscribe::Subscribe;
use mqtt_broker::unsuback::Unsuback;
use mqtt_broker::unsubscribe::Unsubscribe;
use mqtt_broker::utils::read_utf8_string;

fn generate_mock_connect_header() -> FixedHeader {
    FixedHeader {
        packet_type: PacketType::Connect.code(),
        packet_type_flags: 0x00,
        remaining_length: 10,
    }
}

fn generate_mock_connect_packet() -> Connect {
    Connect {
        client_id: "ID".to_owned(),
        username: "user".to_owned(),
        password: "passwd".to_owned(),
        last_will_topic: "lastWillTopic".to_owned(),
        last_will_message: "lastWillMessage".to_owned(),
        keep_alive: 10 as u16,
        last_will_qos: 0 as u8,
        clean_session: 0 as u8,
        last_will_retain: 0 as u8,
        last_will_flag: 1 as u8,
    }
}

fn generate_mock_connect_raw(source: Connect) -> Vec<u8> {
    let mut buffer = Vec::new();

    // Variable Header
    let protocol_name_length = 4 as u16;
    buffer.extend_from_slice(&protocol_name_length.to_be_bytes());
    let protocol_name = "MQTT".to_owned();
    buffer.extend_from_slice(protocol_name.as_bytes());
    let protocol_level = 4 as u8; // MQTT 3.1.1
    buffer.extend_from_slice(&protocol_level.to_be_bytes());
    let connect_flags = 0b11000100 as u8;
    buffer.extend_from_slice(&connect_flags.to_be_bytes());
    let keep_alive = 10 as u16; // time in seconds
    buffer.extend_from_slice(&keep_alive.to_be_bytes());

    // Payload
    buffer.extend_from_slice(&((source.client_id.len() as u16).to_be_bytes()));
    buffer.extend_from_slice(source.client_id.as_bytes());
    buffer.extend_from_slice(&((source.last_will_topic.len() as u16).to_be_bytes()));
    buffer.extend_from_slice(source.last_will_topic.as_bytes());
    buffer.extend_from_slice(&((source.last_will_message.len() as u16).to_be_bytes()));
    buffer.extend_from_slice(source.last_will_message.as_bytes());
    buffer.extend_from_slice(&((source.username.len() as u16).to_be_bytes()));
    buffer.extend_from_slice(source.username.as_bytes());
    buffer.extend_from_slice(&((source.password.len() as u16).to_be_bytes()));
    buffer.extend_from_slice(source.password.as_bytes());
    buffer
}

#[test]
fn test_mock_connect_package_valid() {
    let packet = generate_mock_connect_raw(generate_mock_connect_packet());
    let pointer = &packet[..];

    let mut reader = ByteReader::new(pointer.to_vec());

    match Connect::read_from(&mut reader, generate_mock_connect_header()) {
        Ok(_) => {
            assert_eq!(2 + 2, 4)
        }
        Err(e) => {
            panic!("TEST: Error de handler client: {:?}", e)
        }
    }
}

#[test]
fn test_mock_connect_package_read_valid() {
    let connect_in = generate_mock_connect_packet();
    let packet = generate_mock_connect_raw(connect_in);
    let pointer = &packet[..];
    let mut reader = ByteReader::new(pointer.to_vec());

    match Connect::read_from(&mut reader, generate_mock_connect_header()) {
        Ok(connect_out) => {
            assert_eq!(generate_mock_connect_packet(), connect_out);
        }
        Err(e) => {
            panic!("TEST: Error de Connect::read_from : {:?}", e)
        }
    }
}

#[test]
fn test_mock_connect_package_invalid() {
    let packet = generate_mock_connect_raw(generate_mock_connect_packet());
    let pointer = &packet[1..];

    let mut reader = ByteReader::new(pointer.to_vec());

    match Connect::read_from(&mut reader, generate_mock_connect_header()) {
        Ok(_) => {
            panic!("TEST: paquete Connect mal formado deberia fallar")
        }
        Err(_) => {
            assert_eq!(2 + 2, 4);
        }
    }
}

fn generate_mock_disconnect_header() -> FixedHeader {
    FixedHeader {
        packet_type: PacketType::Disconnect.code(),
        packet_type_flags: 0x00,
        remaining_length: 10,
    }
}

fn generate_mock_contentless_packet_raw() -> Vec<u8> {
    // This packet has no variable Header or payload
    Vec::new()
}

#[test]
fn test_mock_disconnect_package_valid() {
    let packet = generate_mock_contentless_packet_raw();
    let pointer = &packet[..];

    let mut reader = ByteReader::new(pointer.to_vec());

    match Disconnect::read_from(&mut reader, generate_mock_disconnect_header()) {
        Ok(_) => {
            assert_eq!(2 + 2, 4)
        }
        Err(e) => {
            panic!("TEST: Error de Disconnect::read_from: {:?}", e)
        }
    }
}

#[test]
fn test_decode_remaining_length_1byte_valid() {
    const EXPECTED_LENGTH: u8 = 10;

    let buffer: [u8; 1] = [EXPECTED_LENGTH];
    let pointer = &buffer[..];

    let mut reader = ByteReader::new(pointer.to_vec());

    match FixedHeader::decode_remaining_length(&mut reader) {
        Ok(remaining_length) => {
            assert_eq!(remaining_length, EXPECTED_LENGTH as u32)
        }
        Err(e) => {
            panic!("TEST: Error al decodificar longitud: {:?}", e)
        }
    }
}

#[test]
fn test_mock_pingreq_package_valid() {
    let packet = generate_mock_contentless_packet_raw();
    let pointer = &packet[..];

    let mut reader = ByteReader::new(pointer.to_vec());
    let header = FixedHeader {
        packet_type: PacketType::Pingreq.code(),
        packet_type_flags: 0x00,
        remaining_length: 10,
    };

    match Pingreq::read_from(&mut reader, header) {
        Ok(_) => {
            assert_eq!(2 + 2, 4)
        }
        Err(e) => {
            panic!("TEST: Error de Pingreq::read_from: {:?}", e)
        }
    }
}

#[test]
fn test_mock_pingresp_package_valid() {
    let packet = generate_mock_contentless_packet_raw();
    let pointer = &packet[..];

    let mut reader = ByteReader::new(pointer.to_vec());
    let header = FixedHeader {
        packet_type: PacketType::Pingresp.code(),
        packet_type_flags: 0x00,
        remaining_length: 10,
    };

    match Pingresp::read_from(&mut reader, header) {
        Ok(_) => {
            assert_eq!(2 + 2, 4)
        }
        Err(e) => {
            panic!("TEST: Error de Pingresp::read_from: {:?}", e)
        }
    }
}

fn generate_mock_puback_header() -> FixedHeader {
    FixedHeader {
        packet_type: PacketType::Puback.code(),
        packet_type_flags: 0x00,
        remaining_length: 10,
    }
}

fn generate_mock_puback_packet() -> Puback {
    Puback {
        acknowledged_packet_id: 10_u16,
    }
}

fn generate_mock_puback_raw(source: Puback) -> Vec<u8> {
    let mut buffer = Vec::new();

    // Variable Header
    buffer.extend_from_slice(&((source.acknowledged_packet_id as u16).to_be_bytes()));
    buffer
}

#[test]
fn test_mock_puback_package_valid() {
    let packet = generate_mock_puback_raw(generate_mock_puback_packet());
    let pointer = &packet[..];

    let mut reader = ByteReader::new(pointer.to_vec());

    match Puback::read_from(&mut reader, generate_mock_puback_header()) {
        Ok(_) => {
            assert_eq!(2 + 2, 4)
        }
        Err(e) => {
            panic!("TEST: Error de Puback::read_from: {:?}", e)
        }
    }
}

fn generate_mock_publish_header() -> FixedHeader {
    FixedHeader {
        packet_type: PacketType::Publish.code(),
        packet_type_flags: 0b00001000_u8,
        remaining_length: 16,
    }
}

fn generate_mock_publish_packet() -> Publish {
    Publish {
        topic_name: "topic".to_owned(),
        payload: "a message".to_owned(),
        packet_id: 0_u16,
        qos: 0_u8,
        retain_flag: 0_u8,
        dup_flag: 1_u8,
    }
}

fn generate_mock_publish_raw(source: Publish, include_header: bool) -> Vec<u8> {
    let mut buffer = Vec::new();

    // Fixed header
    if include_header {
        let header = generate_mock_publish_header();
        let control_packet_byte = (header.packet_type << 4) | header.packet_type_flags & 0x0F as u8;
        buffer.extend_from_slice(&((control_packet_byte as u8).to_be_bytes()));
        buffer.extend_from_slice(&((header.remaining_length as u8).to_be_bytes()));
    }

    // Variable Header
    buffer.extend_from_slice(&((source.topic_name.len() as u16).to_be_bytes()));
    buffer.extend_from_slice(source.topic_name.as_bytes());
    if source.qos > 0 {
        buffer.extend_from_slice(&((source.packet_id as u16).to_be_bytes()));
    }

    // Payload
    buffer.extend_from_slice(source.payload.as_bytes());
    buffer
}

#[test]
fn test_mock_publish_package_valid() {
    let packet = generate_mock_publish_raw(generate_mock_publish_packet(), false);
    let pointer = &packet[..];

    let mut reader = ByteReader::new(pointer.to_vec());

    match Publish::read_from(&mut reader, generate_mock_publish_header()) {
        Ok(_) => {
            assert_eq!(2 + 2, 4)
        }
        Err(e) => {
            panic!("TEST: Error de Publish::read_from: {:?}", e)
        }
    }
}

#[test]
fn test_mock_publish_package_read_valid() {
    let publish_in = generate_mock_publish_packet();
    let packet = generate_mock_publish_raw(publish_in, false);
    let pointer = &packet[..];
    let mut reader = ByteReader::new(pointer.to_vec());

    match Publish::read_from(&mut reader, generate_mock_publish_header()) {
        Ok(publish_out) => {
            assert_eq!(generate_mock_publish_packet(), publish_out);
        }
        Err(e) => {
            panic!("TEST: Error de Publish::read_from : {:?}", e)
        }
    }
}

#[test]
fn test_mock_publish_package_write_valid() {
    let publish_in = generate_mock_publish_packet();
    let mut writer: Vec<u8> = Vec::new();

    match publish_in.write_to(&mut writer) {
        Ok(_) => {
            assert_eq!(
                generate_mock_publish_raw(generate_mock_publish_packet(), true),
                writer
            );
        }
        Err(e) => {
            panic!("TEST: Error de Publish::write_to : {:?}", e)
        }
    }
}

#[test]
fn test_mock_publish_package_echo_valid() {
    let publish_in = generate_mock_publish_packet();
    let mut writer: Vec<u8> = Vec::new();

    match publish_in.write_to(&mut writer) {
        Ok(_) => {
            const FIXED_HEADER_SIZE: usize = 2;

            let packet = writer;
            let pointer = &packet[..];
            let mut reader = ByteReader::new(pointer.to_vec());

            println!("len: {}, Content: {:?}", packet.len(), packet);
            // Remove Fixed Header
            reader.advance(FIXED_HEADER_SIZE);

            match Publish::read_from(&mut reader, generate_mock_publish_header()) {
                Ok(publish_out) => {
                    assert_eq!(generate_mock_publish_packet(), publish_out);
                }
                Err(e) => {
                    panic!("TEST: Error de Publish::read_from : {:?}", e)
                }
            }
        }
        Err(e) => {
            panic!("TEST: Error de Publish::write_to : {:?}", e)
        }
    }
}

fn generate_mock_suback_header() -> FixedHeader {
    FixedHeader {
        packet_type: PacketType::Suback.code(),
        packet_type_flags: 0x00,
        remaining_length: 3,
    }
}

fn generate_mock_suback_packet() -> Suback {
    Suback {
        packet_id: 10_u16,
        return_codes: vec![0_u8],
    }
}

fn generate_mock_suback_raw(source: Suback) -> Vec<u8> {
    let mut buffer = Vec::new();

    // Variable Header
    buffer.extend_from_slice(&((source.packet_id as u16).to_be_bytes()));

    // Payload
    for i in 0..source.return_codes.len() {
        buffer.extend_from_slice(&((source.return_codes[i] as u8).to_be_bytes()));
    }
    buffer
}

#[test]
fn test_mock_suback_package_valid() {
    let packet = generate_mock_suback_raw(generate_mock_suback_packet());
    let pointer = &packet[..];

    let mut reader = ByteReader::new(pointer.to_vec());

    match Suback::read_from(&mut reader, generate_mock_suback_header()) {
        Ok(_) => {
            assert_eq!(2 + 2, 4)
        }
        Err(e) => {
            panic!("TEST: Error de Suback::read_from: {:?}", e)
        }
    }
}

fn generate_mock_subscribe_header() -> FixedHeader {
    FixedHeader {
        packet_type: PacketType::Subscribe.code(),
        packet_type_flags: 0x00,
        remaining_length: 8,
    }
}

fn generate_mock_subscribe_packet() -> Subscribe {
    Subscribe {
        packet_id: 10_u16,
        topic_filters: vec!["a/d".to_owned()],
        requested_qos: vec![0_u8],
    }
}

fn generate_mock_subscribe_raw(source: Subscribe) -> Vec<u8> {
    let mut buffer = Vec::new();

    // Variable Header
    buffer.extend_from_slice(&((source.packet_id as u16).to_be_bytes()));

    // Payload
    for i in 0..source.topic_filters.len() {
        buffer.extend_from_slice(&((source.topic_filters[i].len() as u16).to_be_bytes()));
        buffer.extend_from_slice(source.topic_filters[i].as_bytes());
        buffer.extend_from_slice(&((source.requested_qos[i] as u8).to_be_bytes()));
    }
    buffer
}

#[test]
fn test_mock_subscribe_package_valid() {
    let packet = generate_mock_subscribe_raw(generate_mock_subscribe_packet());
    let pointer = &packet[..];

    let mut reader = ByteReader::new(pointer.to_vec());

    match Subscribe::read_from(&mut reader, generate_mock_subscribe_header()) {
        Ok(_) => {
            assert_eq!(2 + 2, 4)
        }
        Err(e) => {
            panic!("TEST: Error de Subscribe::read_from: {:?}", e)
        }
    }
}

fn generate_mock_unsuback_header() -> FixedHeader {
    FixedHeader {
        packet_type: PacketType::Unsuback.code(),
        packet_type_flags: 0x00,
        remaining_length: 2,
    }
}

fn generate_mock_unsuback_packet() -> Unsuback {
    Unsuback { packet_id: 10_u16 }
}

fn generate_mock_unsuback_raw(source: Unsuback) -> Vec<u8> {
    let mut buffer = Vec::new();

    // Variable Header
    buffer.extend_from_slice(&((source.packet_id as u16).to_be_bytes()));

    buffer
}

#[test]
fn test_mock_unsuback_package_valid() {
    let packet = generate_mock_unsuback_raw(generate_mock_unsuback_packet());
    let pointer = &packet[..];

    let mut reader = ByteReader::new(pointer.to_vec());

    match Unsuback::read_from(&mut reader, generate_mock_unsuback_header()) {
        Ok(_) => {
            assert_eq!(2 + 2, 4)
        }
        Err(e) => {
            panic!("TEST: Error de Unsuback::read_from: {:?}", e)
        }
    }
}

fn generate_mock_unsubscribe_header() -> FixedHeader {
    FixedHeader {
        packet_type: PacketType::Unsubscribe.code(),
        packet_type_flags: 0x00,
        remaining_length: 7,
    }
}

fn generate_mock_unsubscribe_packet() -> Unsubscribe {
    Unsubscribe {
        packet_id: 10_u16,
        topic_filters: vec!["a/d".to_owned()],
    }
}

fn generate_mock_unsubscribe_raw(source: Unsubscribe) -> Vec<u8> {
    let mut buffer = Vec::new();

    // Variable Header
    buffer.extend_from_slice(&((source.packet_id as u16).to_be_bytes()));

    // Payload
    for i in 0..source.topic_filters.len() {
        buffer.extend_from_slice(&((source.topic_filters[i].len() as u16).to_be_bytes()));
        buffer.extend_from_slice(source.topic_filters[i].as_bytes());
    }
    buffer
}

#[test]
fn test_mock_unsubscribe_package_valid() {
    let packet = generate_mock_unsubscribe_raw(generate_mock_unsubscribe_packet());
    let pointer = &packet[..];

    let mut reader = ByteReader::new(pointer.to_vec());

    match Unsubscribe::read_from(&mut reader, generate_mock_unsubscribe_header()) {
        Ok(_) => {
            assert_eq!(2 + 2, 4)
        }
        Err(e) => {
            panic!("TEST: Error de Unsubscribe::read_from: {:?}", e)
        }
    }
}

#[test]
fn subscribe_body_is_read_back_with_its_filters() {
    let raw = generate_mock_subscribe_raw(generate_mock_subscribe_packet());
    let mut reader = ByteReader::new(raw);
    let read = Subscribe::read_from(&mut reader, generate_mock_subscribe_header());
    assert_eq!(read, Ok(generate_mock_subscribe_packet()));
    assert_eq!(reader.remaining(), 0);
}

#[test]
fn unsubscribe_body_is_read_back_with_its_filters() {
    let raw = generate_mock_unsubscribe_raw(generate_mock_unsubscribe_packet());
    let mut reader = ByteReader::new(raw);
    let read = Unsubscribe::read_from(&mut reader, generate_mock_unsubscribe_header());
    assert_eq!(read, Ok(generate_mock_unsubscribe_packet()));
}

#[test]
fn suback_body_is_read_back_with_its_codes() {
    let raw = generate_mock_suback_raw(generate_mock_suback_packet());
    let mut reader = ByteReader::new(raw);
    let read = Suback::read_from(&mut reader, generate_mock_suback_header());
    assert_eq!(read, Ok(generate_mock_suback_packet()));
}

#[test]
fn connack_is_written_as_four_bytes() {
    let mut out: Vec<u8> = Vec::new();
    let packet = Connack { return_code: 4, session_present: 0 };
    assert_eq!(packet.write_to(&mut out), Ok(()));
    assert_eq!(out, vec![0x20, 0x02, 0x00, 0x04]);
}

#[test]
fn connect_is_written_with_protocol_name_and_flags() {
    let mut out: Vec<u8> = Vec::new();
    let packet = Connect {
        client_id: "c1".to_owned(),
        username: "alice".to_owned(),
        password: "pw1".to_owned(),
        last_will_topic: String::new(),
        last_will_message: String::new(),
        keep_alive: 60,
        last_will_qos: 0,
        clean_session: 1,
        last_will_retain: 0,
        last_will_flag: 0,
    };
    assert_eq!(packet.get_flags(), 0b1100_0010);
    assert_eq!(packet.calculate_remaining_length(), 26);
    assert_eq!(packet.write_to(&mut out), Ok(()));
    let mut expected: Vec<u8> = vec![0x10, 26, 0, 4, b'M', b'Q', b'T', b'T', 4, 0b1100_0010, 0, 60];
    expected.extend_from_slice(&[0, 2, b'c', b'1']);
    expected.extend_from_slice(&[0, 5, b'a', b'l', b'i', b'c', b'e']);
    expected.extend_from_slice(&[0, 3, b'p', b'w', b'1']);
    assert_eq!(out, expected);
}

#[test]
fn string_field_is_read_as_text() {
    let mut reader = ByteReader::new(vec![0, 5, 0x68, 0xC3, 0xA9, 0x6C, 0x6F, 0xFF]);
    assert_eq!(read_utf8_string(&mut reader), Ok("h\u{e9}lo".to_owned()));
    assert_eq!(reader.remaining(), 1);
}

#[test]
fn string_field_that_is_not_utf8_is_an_error() {
    let mut reader = ByteReader::new(vec![0, 2, 0xC3, 0x28]);
    assert_eq!(read_utf8_string(&mut reader), Err(PacketError::InvalidUtf8));
    assert_eq!(reader.remaining(), 4);
}

#[test]
fn string_field_that_is_cut_short_is_an_error() {
    let mut reader = ByteReader::new(vec![0, 3, b'a', b'b']);
    assert_eq!(read_utf8_string(&mut reader), Err(PacketError::UnexpectedEof));
    assert_eq!(reader.remaining(), 4);
}

#[test]
fn string_longer_than_a_field_cannot_be_written() {
    let mut out: Vec<u8> = vec![7];
    let packet = Publish {
        topic_name: "t".repeat(65536),
        payload: String::new(),
        packet_id: 0,
        qos: 0,
        retain_flag: 0,
        dup_flag: 0,
    };
    assert_eq!(packet.write_to(&mut out), Err(PacketError::Unencodable));
    assert_eq!(out, vec![7]);
    assert!(!PacketError::Unencodable.is_malformed());
    assert!(PacketError::UnexpectedEof.is_malformed());
}

#[test]
fn subscribe_without_a_quality_of_service_cannot_be_written() {
    let mut out: Vec<u8> = Vec::new();
    let packet = Subscribe {
        packet_id: 1,
        topic_filters: vec!["a".to_owned(), "b".to_owned()],
        requested_qos: vec![0],
    };
    assert_eq!(packet.write_to(&mut out), Err(PacketError::Unencodable));
    assert!(out.is_empty());
}

#[test]
fn publish_with_a_remaining_length_that_is_too_short_is_an_error() {
    let header = FixedHeader {
        packet_type: PacketType::Publish.code(),
        packet_type_flags: 0,
        remaining_length: 3,
    };
    let mut reader = ByteReader::new(vec![0, 2, b'a', b'b', b'x']);
    assert_eq!(
        Publish::read_from(&mut reader, header),
        Err(PacketError::InvalidRemainingLength)
    );
}

#[test]
fn subscribe_filter_that_runs_past_the_remaining_length_is_an_error() {
    let header = FixedHeader {
        packet_type: PacketType::Subscribe.code(),
        packet_type_flags: 0,
        remaining_length: 5,
    };
    let mut reader = ByteReader::new(vec![0, 10, 0, 3, b'a', b'/', b'd', 0]);
    assert_eq!(
        Subscribe::read_from(&mut reader, header),
        Err(PacketError::InvalidRemainingLength)
    );
}

#[test]
fn publish_of_quality_of_service_one_carries_its_packet_id() {
    let packet = Publish {
        topic_name: "t".to_owned(),
        payload: "x".to_owned(),
        packet_id: 7,
        qos: 1,
        retain_flag: 1,
        dup_flag: 0,
    };
    let mut out: Vec<u8> = Vec::new();
    assert_eq!(packet.write_to(&mut out), Ok(()));
    assert_eq!(out, vec![0x33, 6, 0, 1, b't', 0, 7, b'x']);
    assert_eq!(packet.calculate_remaining_length(), 6);
}
