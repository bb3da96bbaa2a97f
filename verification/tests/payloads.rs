use engine_protocol::DecodingError;
use engine_protocol::Packet;
use engine_protocol::PacketError;
use engine_protocol::PacketOptions;
use engine_protocol::PacketType;
use engine_protocol::RawData;

fn sample_packets() -> Vec<Packet> {
    let mut packets = vec![Packet::new(PacketType::Open)];
    let mut with_options = Packet::new(PacketType::Message);
    with_options.with_options(PacketOptions::new(true, false, Some(1), Some(3)).unwrap());
    with_options.with_data(RawData::Text("première".to_string())).unwrap();
    packets.push(with_options);
    let mut bytes = Packet::new(PacketType::Message);
    bytes.with_data(RawData::Binary(vec![0, 1, 2, 253, 254, 255])).unwrap();
    packets.push(bytes);
    let mut long = Packet::new(PacketType::Pong);
    long.with_data(RawData::Text("z".repeat(70_000))).unwrap();
    packets.push(long);
    packets.push(Packet::error("went wrong"));
    packets
}

#[test]
fn payload_round_trips_in_both_forms() {
    let packets = sample_packets();
    for supports_binary in [true, false] {
        let encoded = Packet::encode_payload(&packets, supports_binary);
        assert_eq!(encoded.is_binary(), supports_binary);
        assert_eq!(Packet::decode_payload(encoded), Ok(packets.clone()));
    }
    let none: Vec<Packet> = Vec::new();
    for supports_binary in [true, false] {
        assert_eq!(
            Packet::decode_payload(Packet::encode_payload(&none, supports_binary)),
            Ok(vec![])
        );
    }
}

#[test]
fn binary_frames_carry_a_four_byte_length() {
    let mut packet = Packet::new(PacketType::Message);
    packet.with_data(RawData::Binary(vec![7; 300])).unwrap();
    let encoded = Packet::encode_payload(&[Packet::new(PacketType::Ping), packet], true);
    let mut expected = vec![0, 0, 0, 3, 2, 0, 0];
    // 3 bytes of head, the mask and 300 bytes of data: 304 = 0x0130
    expected.extend([0, 0, 1, 0x30, 4, 0, 1, 0x80]);
    expected.extend(vec![7; 300]);
    assert_eq!(encoded, RawData::Binary(expected));
}

#[test]
fn text_frames_count_characters() {
    let mut packet = Packet::new(PacketType::Message);
    packet.with_data(RawData::Text("äöü".to_string())).unwrap();
    let encoded = Packet::encode_payload(&[packet.clone(), packet.clone()], false);
    assert_eq!(encoded, RawData::Text("00000008401-täöü00000008401-täöü".to_string()));
    assert_eq!(Packet::decode_payload(encoded), Ok(vec![packet.clone(), packet]));
}

#[test]
fn a_frame_that_is_cut_short_is_a_mismatch() {
    for bytes in [
        vec![0u8],
        vec![0, 0, 0],
        vec![0, 0, 0, 4, 2, 0, 0],
        vec![0, 0, 0, 3, 2, 0, 0, 0],
        vec![0, 0, 0, 3, 2, 0, 0, 0, 0, 0, 3, 2, 0],
        vec![255, 255, 255, 255, 2, 0, 0],
    ] {
        assert_eq!(
            Packet::decode_payload(RawData::Binary(bytes.clone())),
            Err(DecodingError::PayloadDataMismatch),
            "{:?}",
            bytes
        );
    }
    for text in
        ["0", "0000000", "00000004200", "000000032", "00000003200000", "0000000x200", "-0000003200"]
    {
        assert_eq!(
            Packet::decode_payload(RawData::Text(text.to_string())),
            Err(DecodingError::PayloadDataMismatch),
            "{}",
            text
        );
    }
}

#[test]
fn a_frame_with_a_bad_packet_fails_as_the_packet_does() {
    assert_eq!(
        Packet::decode_payload(RawData::Binary(vec![0, 0, 0, 3, 2, 0, 0, 0, 0, 0, 3, 7, 0, 0])),
        Err(DecodingError::Packet(PacketError::InvalidPacketType))
    );
    assert_eq!(
        Packet::decode_payload(RawData::Binary(vec![0, 0, 0, 0])),
        Err(DecodingError::MissingField)
    );
    assert_eq!(
        Packet::decode_payload(RawData::Text("0000000320000000003x00".to_string())),
        Err(DecodingError::Packet(PacketError::InvalidPacketType))
    );
    assert!(matches!(
        Packet::decode_payload(RawData::Text("00000006401-b!".to_string())),
        Err(DecodingError::Base64(_))
    ));
}

#[test]
fn a_length_may_carry_a_plus_sign() {
    assert_eq!(
        Packet::decode_payload(RawData::Text("+0000003200".to_string())),
        Ok(vec![Packet::new(PacketType::Ping)])
    );
}
