use engine_protocol::DecodingError;
use engine_protocol::Packet;
use engine_protocol::PacketError;
use engine_protocol::PacketOptions;
use engine_protocol::PacketType;
use engine_protocol::RawData;
use engine_protocol::MAX_PACKET_SIZE;

fn message_with(data: RawData) -> Packet {
    let mut packet = Packet::new(PacketType::Message);
    packet.with_data(data).unwrap();
    packet
}

#[test]
fn ping_in_both_forms() {
    let ping = Packet::new(PacketType::Ping);
    assert_eq!(ping.encode(true), RawData::Binary(vec![2, 0, 0]));
    assert_eq!(ping.encode(false), RawData::Text("200".to_string()));
    assert_eq!(Packet::decode(RawData::Binary(vec![2, 0, 0])), Ok(Packet::new(PacketType::Ping)));
    assert_eq!(
        Packet::decode(RawData::Text("200".to_string())),
        Ok(Packet::new(PacketType::Ping))
    );
}

#[test]
fn message_with_full_options_and_no_data() {
    let mut packet = Packet::new(PacketType::Message);
    packet.with_options(PacketOptions::new(true, true, Some(2), Some(4)).unwrap());
    assert_eq!(packet.encode(true), RawData::Binary(vec![4, 1, 0, 1, 1, 0, 2, 0, 4]));
    assert_eq!(packet.encode(false), RawData::Text("4101:1:2:4".to_string()));
    assert_eq!(Packet::decode(packet.encode(true)), Ok(packet.clone()));
    assert_eq!(Packet::decode(packet.encode(false)), Ok(packet));
}

#[test]
fn message_with_binary_payload() {
    let packet = message_with(RawData::Binary(vec![1, 2, 3]));
    assert_eq!(packet.encode(true), RawData::Binary(vec![4, 0, 1, 0x80, 1, 2, 3]));
    assert_eq!(packet.encode(false), RawData::Text("401-bAQID".to_string()));
    assert_eq!(Packet::decode(RawData::Text("401-bAQID".to_string())), Ok(packet));
}

#[test]
fn message_with_text_payload() {
    let packet = message_with(RawData::Text("abc".to_string()));
    assert_eq!(packet.encode(false), RawData::Text("401-tabc".to_string()));
    assert_eq!(packet.encode(true), RawData::Binary(vec![4, 0, 1, 0x00, b'a', b'b', b'c']));
    assert_eq!(Packet::decode(RawData::Binary(vec![4, 0, 1, 0, b'a', b'b', b'c'])), Ok(packet));
}

#[test]
fn three_pings_as_text_payload() {
    let pings = vec![
        Packet::new(PacketType::Ping),
        Packet::new(PacketType::Ping),
        Packet::new(PacketType::Ping),
    ];
    let expected = "00000003200".repeat(3);
    assert_eq!(expected, "000000032000000000320000000003200");
    assert_eq!(Packet::encode_payload(&pings, false), RawData::Text(expected.clone()));
    assert_eq!(Packet::decode_payload(RawData::Text(expected)), Ok(pings));
}

#[test]
fn invalid_base64_body_is_reported() {
    for body in ["401-b!!!!", "401-bAQI", "401-bAQID=", "401-bA", "401-b AQID"] {
        let decoded = Packet::decode(RawData::Text(body.to_string()));
        assert!(matches!(decoded, Err(DecodingError::Base64(_))), "{}", body);
    }
    // the standard alphabet is not the URL-safe one
    assert!(matches!(
        Packet::decode(RawData::Text("401-b+/+/".to_string())),
        Err(DecodingError::Base64(_))
    ));
    assert_eq!(
        Packet::decode(RawData::Text("401-b-_-_".to_string())),
        Ok(message_with(RawData::Binary(vec![0xfb, 0xff, 0xbf])))
    );
}

#[test]
fn base64_error_is_described_in_the_engines_words() {
    let error = Packet::decode(RawData::Text("401-b!!!!".to_string())).unwrap_err();
    assert_eq!(error.clone(), error);
    assert_eq!(
        error,
        DecodingError::Base64(base64::DecodeError::InvalidByte(0, b'!'))
    );
    let text = error.to_string();
    assert!(text.starts_with("Base64 decoding failed: "));
    assert!(text.len() > "Base64 decoding failed: ".len());
}

#[test]
fn round_trip_in_both_forms() {
    let mut options = vec![None, Some(PacketOptions::default())];
    options.push(Some(PacketOptions::new(true, false, Some(1), Some(1)).unwrap()));
    options.push(Some(PacketOptions::new(false, true, Some(3), Some(9)).unwrap()));
    let payloads = vec![
        None,
        Some(RawData::Binary(vec![])),
        Some(RawData::Binary(vec![0, 255, 128, 7])),
        Some(RawData::Binary((0..=255u8).collect())),
        Some(RawData::Text(String::new())),
        Some(RawData::Text("plain".to_string())),
        Some(RawData::Text("dé-jà \u{1F600} vu -t -b 0:0:0:0".to_string())),
    ];
    for n in [0u8, 1, 2, 3, 4, 5, 6, 9] {
        for o in &options {
            for d in &payloads {
                let mut packet = Packet::new(PacketType::try_from(n).unwrap());
                if let Some(o) = o {
                    packet.with_options(*o);
                }
                if let Some(d) = d {
                    packet.with_data(d.clone()).unwrap();
                }
                assert_eq!(Packet::decode(packet.encode(true)), Ok(packet.clone()));
                assert_eq!(Packet::decode(packet.encode(false)), Ok(packet.clone()));
            }
        }
    }
}

#[test]
fn binary_form_round_trips_with_any_chunking() {
    for (sequence, total) in [(10u16, 10u16), (2, 10), (1337, 2560), (u16::MAX, u16::MAX)] {
        let mut packet = message_with(RawData::Text("chunk".to_string()));
        packet.with_options(PacketOptions::new(true, true, Some(sequence), Some(total)).unwrap());
        assert_eq!(Packet::decode(packet.encode(true)), Ok(packet));
    }
}

#[test]
fn text_form_gives_the_options_seven_characters() {
    // with a chunking number of two digits the options take eight
    // characters, of which the decoder reads seven
    let mut packet = Packet::new(PacketType::Message);
    packet.with_options(PacketOptions::new(false, false, Some(2), Some(10)).unwrap());
    assert_eq!(packet.encode(false), RawData::Text("4100:0:2:10".to_string()));
    assert_eq!(
        Packet::decode(RawData::Text("4100:0:2:10".to_string())),
        Err(DecodingError::Packet(PacketError::InvalidChunkingParameters))
    );
    let mut wide = Packet::new(PacketType::Message);
    wide.with_options(PacketOptions::new(false, false, Some(1), Some(10)).unwrap());
    wide.with_data(RawData::Text("x".to_string())).unwrap();
    assert_eq!(wide.encode(false), RawData::Text("4110:0:1:10-tx".to_string()));
    // the options are read as 0:0:1:1, and the payload starts with the 0
    assert_eq!(Packet::decode(wide.encode(false)), Err(DecodingError::InvalidFormat));
}

#[test]
fn cross_encoding_keeps_the_payload() {
    let bytes = message_with(RawData::Binary(vec![9, 8, 7, 6]));
    let text = message_with(RawData::Text("nine eight".to_string()));
    assert!(matches!(bytes.encode(false), RawData::Text(_)));
    assert!(matches!(text.encode(true), RawData::Binary(_)));
    assert_eq!(Packet::decode(bytes.encode(false)), Ok(bytes));
    assert_eq!(Packet::decode(text.encode(true)), Ok(text));
}

#[test]
fn payload_at_the_limit_passes_and_one_more_byte_fails() {
    let full = message_with(RawData::Binary(vec![1; MAX_PACKET_SIZE]));
    assert_eq!(Packet::decode(full.encode(true)), Ok(full.clone()));
    assert_eq!(Packet::decode(full.encode(false)), Ok(full));

    let mut bytes = vec![4, 0, 1, 0x80];
    bytes.extend(vec![1; MAX_PACKET_SIZE + 1]);
    assert_eq!(
        Packet::decode(RawData::Binary(bytes)),
        Err(DecodingError::Packet(PacketError::DataTooLarge))
    );
    let mut text_bytes = vec![4, 0, 1, 0x00];
    text_bytes.extend(vec![b'a'; MAX_PACKET_SIZE + 1]);
    assert_eq!(
        Packet::decode(RawData::Binary(text_bytes)),
        Err(DecodingError::Packet(PacketError::DataTooLarge))
    );
    let too_much = base64::Engine::encode(
        &base64::engine::general_purpose::URL_SAFE,
        vec![1; MAX_PACKET_SIZE + 1],
    );
    assert_eq!(
        Packet::decode(RawData::Text(format!("401-b{}", too_much))),
        Err(DecodingError::Packet(PacketError::DataTooLarge))
    );
}

#[test]
fn invalid_utf8_in_a_text_payload_is_replaced() {
    let decoded = Packet::decode(RawData::Binary(vec![4, 0, 1, 0, b'a', 0xff, b'b'])).unwrap();
    assert_eq!(decoded.data(), Some(&RawData::Text("a\u{fffd}b".to_string())));
    let valid = Packet::decode(RawData::Binary(vec![4, 0, 1, 0, 0xc3, 0xa9])).unwrap();
    assert_eq!(valid.data(), Some(&RawData::Text("é".to_string())));
}

#[test]
fn malformed_binary_is_refused() {
    let cases: Vec<(Vec<u8>, DecodingError)> = vec![
        (vec![], DecodingError::MissingField),
        (vec![4, 0], DecodingError::MissingField),
        (vec![7, 0, 0], DecodingError::Packet(PacketError::InvalidPacketType)),
        (vec![8, 0, 0], DecodingError::Packet(PacketError::InvalidPacketType)),
        (vec![255, 2, 0], DecodingError::Packet(PacketError::InvalidPacketType)),
        (vec![4, 2, 0], DecodingError::InvalidFormat),
        (vec![4, 0, 2], DecodingError::InvalidFormat),
        (vec![4, 1, 0, 1, 1, 0, 0, 0], DecodingError::Packet(PacketError::InvalidPacketOptions)),
        (
            vec![4, 1, 0, 2, 0, 0, 0, 0, 0],
            DecodingError::Packet(PacketError::InvalidPacketOptions),
        ),
        (
            vec![4, 1, 0, 0, 0, 0, 5, 0, 4],
            DecodingError::Packet(PacketError::InvalidChunkingParameters),
        ),
        (
            vec![4, 1, 0, 0, 0, 0, 0, 0, 4],
            DecodingError::Packet(PacketError::InvalidChunkingParameters),
        ),
        (vec![4, 0, 1], DecodingError::MissingField),
        (vec![4, 1, 1, 0, 0, 0, 0, 0, 0], DecodingError::MissingField),
        (vec![4, 0, 1, 0x40, 1], DecodingError::InvalidFormat),
        (vec![4, 0, 1, 0x01], DecodingError::InvalidFormat),
    ];
    for (bytes, error) in cases {
        assert_eq!(Packet::decode(RawData::Binary(bytes.clone())), Err(error), "{:?}", bytes);
    }
    // what follows a packet without data is not read
    assert_eq!(
        Packet::decode(RawData::Binary(vec![2, 0, 0, 9, 9])),
        Ok(Packet::new(PacketType::Ping))
    );
    // an empty payload is a payload
    assert_eq!(
        Packet::decode(RawData::Binary(vec![4, 0, 1, 0x80])),
        Ok(message_with(RawData::Binary(vec![])))
    );
}

#[test]
fn malformed_text_is_refused() {
    let cases: Vec<(&str, DecodingError)> = vec![
        ("", DecodingError::MissingField),
        ("40", DecodingError::MissingField),
        ("4é", DecodingError::MissingField),
        ("700", DecodingError::Packet(PacketError::InvalidPacketType)),
        ("e00", DecodingError::Packet(PacketError::InvalidPacketType)),
        ("420", DecodingError::InvalidFormat),
        ("40x", DecodingError::InvalidFormat),
        ("4101:1:0:", DecodingError::Packet(PacketError::InvalidPacketOptions)),
        ("410:1:0:0:", DecodingError::Packet(PacketError::InvalidPacketOptions)),
        ("4102:1:0:0", DecodingError::Packet(PacketError::InvalidPacketOptions)),
        ("4101:1:x:0", DecodingError::Packet(PacketError::InvalidPacketOptions)),
        ("4101:1:5:4", DecodingError::Packet(PacketError::InvalidChunkingParameters)),
        ("4101:1:0:4", DecodingError::Packet(PacketError::InvalidChunkingParameters)),
        ("401", DecodingError::MissingField),
        ("401-", DecodingError::MissingField),
        ("401tabc", DecodingError::InvalidFormat),
        ("401-xabc", DecodingError::InvalidFormat),
        ("4111:0:2:4", DecodingError::MissingField),
    ];
    for (text, error) in cases {
        assert_eq!(Packet::decode(RawData::Text(text.to_string())), Err(error), "{}", text);
    }
    assert_eq!(
        Packet::decode(RawData::Text("200 and more".to_string())),
        Ok(Packet::new(PacketType::Ping))
    );
    assert!(Packet::decode(RawData::Text("4101:1:0:0:".to_string())).is_ok());
    assert_eq!(
        Packet::decode(RawData::Text("401-t".to_string())),
        Ok(message_with(RawData::Text(String::new())))
    );
    assert_eq!(
        Packet::decode(RawData::Text("401-b".to_string())),
        Ok(message_with(RawData::Binary(vec![])))
    );
}

#[test]
fn errors_describe_themselves() {
    assert_eq!(
        PacketError::DataTooLarge.to_string(),
        "Packet data exceeds maximum allowed size"
    );
    assert_eq!(PacketError::InvalidPacketType.to_string(), "Packet type is invalid or unknown");
    assert_eq!(
        PacketError::InvalidPacketOptions.to_string(),
        "Packet options are invalid or inconsistent"
    );
    assert_eq!(PacketError::InvalidChunkingParameters.to_string(), "Invalid chunking parameters");
    assert_eq!(
        DecodingError::Packet(PacketError::DataTooLarge).to_string(),
        "Packet decoding failed: Packet data exceeds maximum allowed size"
    );
    assert_eq!(DecodingError::MissingField.to_string(), "Packet is missing required fields");
    assert_eq!(DecodingError::InvalidFormat.to_string(), "Packet data is invalid or malformed");
    assert_eq!(DecodingError::UnknownError.to_string(), "Unknown decoding error");
    assert_eq!(
        DecodingError::PayloadDataMismatch.to_string(),
        "Payload length prefix does not match actual data"
    );
    assert_eq!(
        engine_protocol::EncodingError::EncodingError.to_string(),
        "Packet encoding failed"
    );
    assert_eq!(
        engine_protocol::ProtocolError::MissingField.to_string(),
        "Packet is missing required fields"
    );
    assert_eq!(engine_protocol::ProtocolError::DecodeError.to_string(), "Packet decoding failed");
}
