use base64::engine::general_purpose;
use base64::Engine;
use engine_protocol::BinaryType;
use engine_protocol::DecodingError;
use engine_protocol::Packet;
use engine_protocol::PacketType;
use engine_protocol::RawData;
use engine_protocol::BINARY_MASK;
use engine_protocol::PLAIN_TEXT_MASK;

fn packet(packet_type: PacketType, data: Option<RawData>) -> Packet {
    let mut packet = Packet::new(packet_type);
    if let Some(data) = data {
        packet.with_data(data).unwrap();
    }
    packet
}

fn type_of(i: u32) -> PacketType {
    PacketType::from_char(char::from_digit(i % 6, 10).unwrap()).unwrap()
}

#[test]
fn decode_empty_binary_packet() {
    let encoded_data = RawData::Binary(vec![]);

    assert_eq!(Packet::decode(encoded_data), Err(DecodingError::MissingField));
}

#[test]
fn decode_empty_text_packet() {
    let encoded_data = RawData::Text(String::new());

    assert_eq!(Packet::decode(encoded_data), Err(DecodingError::MissingField));
}

#[test]
fn decode_no_data_binary_packet() {
    let encoded_data = RawData::Binary(vec![3, 0, 0]);

    let packet = Packet::decode(encoded_data).unwrap();
    assert_eq!(packet._type(), &PacketType::Pong);
    assert_eq!(packet.data(), None);
}

#[test]
fn decode_no_data_text_packet() {
    let encoded_data = RawData::Text(String::from("500"));

    let packet = Packet::decode(encoded_data).unwrap();
    assert_eq!(packet._type(), &PacketType::Upgrade);
    assert_eq!(packet.data(), None);
}

#[test]
fn decode_text_encoded_binary_packet() {
    let encoded_data = RawData::Text(format!(
        "{}01-b{}",
        PacketType::Close.as_char(),
        general_purpose::URL_SAFE.encode(vec![0x02, 0x00, 0x00])
    ));

    let packet = Packet::decode(encoded_data).unwrap();
    if let Some(RawData::Binary(data)) = packet.data() {
        assert_eq!(data.clone(), vec![0x02, 0x00, 0x00]);
    } else {
        panic!("Expected Binary Packet data")
    }

    assert_eq!(packet.data(), Some(&RawData::Binary(vec![0x02, 0x00, 0x00])));
    assert_eq!(packet._type(), &PacketType::Close);
}

#[test]
fn decode_text_encoded_text_packet() {
    let encoded_data = RawData::Text(String::from("401-tHello, world!"));

    let packet = Packet::decode(encoded_data).unwrap();
    assert_eq!(packet._type(), &PacketType::Message);
    assert_eq!(packet.data(), Some(&RawData::Text(String::from("Hello, world!"))));
}

#[test]
fn decode_binary_encoded_binary_packet() {
    let encoded_data = RawData::Binary(vec![0, 0, 1, BINARY_MASK, 0x02, 0x00, 0x00]);

    let packet = Packet::decode(encoded_data).unwrap();
    assert_eq!(packet._type(), &PacketType::Open);
    assert_eq!(packet.data(), Some(&RawData::Binary(vec![0x02, 0x00, 0x00])));
}

#[test]
fn decode_binary_encoded_text_packet() {
    let mut binary = vec![9, 0, 1, PLAIN_TEXT_MASK];
    binary.extend_from_slice("501".as_bytes());
    let encoded_data = RawData::Binary(binary);

    let packet = Packet::decode(encoded_data).unwrap();
    assert_eq!(packet._type(), &PacketType::Error);
    assert_eq!(packet.data(), Some(&RawData::Text(String::from("501"))));
}

#[test]
fn decode_all_packet_types() {
    for t in [0u8, 1, 2, 3, 4, 5, 6, 9] {
        let encoded_data = RawData::Binary(vec![t, 0, 1, BINARY_MASK, 0x44, 0x44, 0x44]);

        let packet = Packet::decode(encoded_data).unwrap();
        assert_eq!(packet._type(), &PacketType::try_from(t).unwrap());
        assert_eq!(packet.data(), Some(&RawData::Binary(vec![0x44, 0x44, 0x44])));
    }
}

fn binary(i: u32, bin: BinaryType) -> BinaryType {
    let mut body = vec![type_of(i).as_int(), 0, if bin.is_empty() { 0 } else { 1 }];
    if !bin.is_empty() {
        body.push(BINARY_MASK);
        body.extend(bin);
    }
    let mut data = (body.len() as u32).to_be_bytes().to_vec();
    data.extend(body);
    data
}

fn binary_as_text(i: u32, bin: BinaryType) -> String {
    let body = format!("{}01-b{}", type_of(i).as_char(), general_purpose::URL_SAFE.encode(bin));
    format!("{:08}{}", body.chars().count(), body)
}

fn text(i: u32, text: &str) -> String {
    let body = if text.is_empty() {
        format!("{}00", type_of(i).as_char())
    } else {
        format!("{}01-t{}", type_of(i).as_char(), text)
    };
    format!("{:08}{}", body.chars().count(), body)
}

#[test]
fn decode_empty_payload() {
    assert_eq!(Packet::decode_payload(RawData::Text(String::new())), Ok(Vec::new()));
    assert_eq!(Packet::decode_payload(RawData::Binary(Vec::new())), Ok(Vec::new()));
}

#[test]
fn decode_payload_with_no_data_binary_packets() {
    let payload = (0..20).map(|i| binary(i, Vec::new())).flatten().collect::<BinaryType>();

    let decoded_payload = Packet::decode_payload(RawData::Binary(payload)).unwrap();
    assert_eq!(decoded_payload.len(), 20);
    for i in 0..20u32 {
        assert_eq!(
            decoded_payload[i as usize],
            packet(type_of(i), None),
            "Packet {} has failed. {:?}",
            i,
            decoded_payload[i as usize]
        )
    }
}

#[test]
fn decode_payload_with_no_data_text_packets() {
    let payload = (0..20).map(|i| text(i, "")).collect::<Vec<String>>().join("");
    let decoded_payload = Packet::decode_payload(RawData::Text(payload)).unwrap();
    assert_eq!(decoded_payload.len(), 20);
    for i in 0..20u32 {
        assert_eq!(
            decoded_payload[i as usize],
            packet(type_of(i), None),
            "Packet {} has failed. {:?}",
            i,
            decoded_payload[i as usize]
        )
    }
}

#[test]
fn decode_payload_with_binary_packets() {
    let payload = (0..20)
        .map(|i| binary_as_text(i, Vec::from("Hello".as_bytes())))
        .collect::<Vec<String>>()
        .join("");
    let decoded_payload = Packet::decode_payload(RawData::Text(payload)).unwrap();
    assert_eq!(decoded_payload.len(), 20);
    for i in 0..20u32 {
        assert_eq!(
            decoded_payload[i as usize],
            packet(type_of(i), Some(RawData::Binary(Vec::from("Hello".as_bytes())))),
            "Packet {} has failed.",
            i
        )
    }
}

#[test]
fn decode_payload_with_text_packets() {
    let payload = (0..20).map(|i| text(i, "Hello")).collect::<Vec<String>>().join("");
    let decoded_payload = Packet::decode_payload(RawData::Text(payload)).unwrap();
    assert_eq!(decoded_payload.len(), 20);
    for i in 0..20u32 {
        assert_eq!(
            decoded_payload[i as usize],
            packet(type_of(i), Some(RawData::Text("Hello".into()))),
            "Packet {} has failed.",
            i
        )
    }
}

#[test]
fn decode_payload_packets_with_mixed_data_packets() {
    let payload = (0..20)
        .map(|i: u32| {
            if i % 2 == 0 {
                binary_as_text(i, "Binary".as_bytes().into())
            } else {
                text(i, "Text")
            }
        })
        .collect::<Vec<String>>()
        .join("");
    let decoded_payload = Packet::decode_payload(RawData::Text(payload)).unwrap();
    assert_eq!(decoded_payload.len(), 20);

    for i in 0..20u32 {
        assert_eq!(
            decoded_payload[i as usize],
            packet(
                type_of(i),
                if i % 2 == 0 {
                    Some(RawData::Binary(Vec::from("Binary".as_bytes())))
                } else {
                    Some(RawData::Text("Text".into()))
                }
            ),
            "Packet {} has failed.",
            i
        )
    }
}

#[test]
fn decode_payload_packets_with_large_data_binary_packets() {
    let payload = (0..20)
        .map(|i| binary(i, vec![0x44].repeat(i16::MAX as usize)))
        .flatten()
        .collect::<BinaryType>();
    let decoded_payload = Packet::decode_payload(RawData::Binary(payload)).unwrap();
    assert_eq!(decoded_payload.len(), 20);
    for i in 0..20u32 {
        assert_eq!(
            decoded_payload[i as usize],
            packet(type_of(i), Some(RawData::Binary(vec![0x44].repeat(i16::MAX as usize)))),
            "Packet {} has failed.",
            i
        )
    }
}

#[test]
fn decode_payload_packets_with_large_data_text_packets() {
    let payload = (0..20)
        .map(|i| text(i, &"Hello".repeat(i8::MAX as usize)))
        .collect::<Vec<String>>()
        .join("");
    let decoded_payload = Packet::decode_payload(RawData::Text(payload)).unwrap();
    assert_eq!(decoded_payload.len(), 20);
    for i in 0..20u32 {
        assert_eq!(
            decoded_payload[i as usize],
            packet(type_of(i), Some(RawData::Text("Hello".repeat(i8::MAX as usize)))),
            "Packet {} has failed.",
            i
        )
    }
}

#[test]
fn decode_payload_packets_with_large_data_mixed_packets() {
    let payload = (0..20)
        .map(|i: u32| {
            if i % 2 == 0 {
                binary_as_text(i, vec![0x44].repeat(i16::MAX as usize))
            } else {
                text(i, &"Hello".repeat(i8::MAX as usize))
            }
        })
        .collect::<Vec<String>>()
        .join("");
    let decoded_payload = Packet::decode_payload(RawData::Text(payload)).unwrap();
    assert_eq!(decoded_payload.len(), 20);

    for i in 0..20u32 {
        assert_eq!(
            decoded_payload[i as usize],
            packet(
                type_of(i),
                if i % 2 == 0 {
                    Some(RawData::Binary(vec![0x44].repeat(i16::MAX as usize)))
                } else {
                    Some(RawData::Text("Hello".repeat(i8::MAX as usize)))
                }
            ),
            "Packet {} has failed.",
            i
        )
    }
}

#[test]
fn decode_large_mixed_payload() {
    let payload = (0..i16::MAX as u32)
        .map(|i| if i % 2 == 0 { binary_as_text(i, vec![0x44]) } else { text(i, &"Hello") })
        .collect::<Vec<String>>()
        .join("");
    let decoded_payload = Packet::decode_payload(RawData::Text(payload)).unwrap();
    assert_eq!(decoded_payload.len(), i16::MAX as usize);

    for i in 0..i16::MAX as u32 {
        assert_eq!(
            decoded_payload[i as usize],
            packet(
                type_of(i),
                if i % 2 == 0 {
                    Some(RawData::Binary(vec![0x44]))
                } else {
                    Some(RawData::Text("Hello".into()))
                }
            ),
            "Packet {} has failed.",
            i
        )
    }
}
