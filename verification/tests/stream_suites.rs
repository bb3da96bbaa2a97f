use engine_protocol::BinaryType;
use engine_protocol::Packet;
use engine_protocol::PacketDecoderStream;
use engine_protocol::PacketEncoderStream;
use engine_protocol::PacketType;
use engine_protocol::RawData;
use engine_protocol::BINARY_MASK;
use engine_protocol::PLAIN_TEXT_MASK;

fn message(data: Option<RawData>) -> Packet {
    let mut packet = Packet::new(PacketType::Message);
    if let Some(data) = data {
        packet.with_data(data).unwrap();
    }
    packet
}

fn encode_all(packets: Vec<Packet>) -> Vec<BinaryType> {
    let encoder = PacketEncoderStream::new();
    packets.iter().map(|packet| encoder.encode_frame(packet)).collect()
}

#[test]
fn encoding_stream_functions_with_packets() {
    let packets =
        (0..20).map(|_| message(Some(RawData::Text("Hello".into())))).collect::<Vec<Packet>>();

    let mut count = 0;
    for encoded in encode_all(packets) {
        assert!(!encoded.is_empty(), "Encoded packet should not be empty");
        assert_eq!(encoded[0], 9, "three bytes of head, the mask and five bytes for Hello");
        assert_eq!(&encoded[1..4], &[4, 0, 1]);
        assert_eq!(encoded[4], PLAIN_TEXT_MASK, "Fifth byte should be the text mask");
        assert_eq!(&encoded[5..], "Hello".as_bytes(), "Last bytes should be \"Hello\" as bytes");
        count += 1;
    }
    assert_eq!(count, 20, "There should be twenty encoded packets");
}

#[test]
fn encoding_stream_functions_with_empty_data_packets() {
    let packets = (0..20).map(|_| Packet::new(PacketType::Ping)).collect::<Vec<Packet>>();

    let mut count = 0;
    for encoded in encode_all(packets) {
        assert!(!encoded.is_empty(), "Encoded packet should not be empty");
        assert_eq!(encoded[0], 3, "First byte should be 3, the length of the packet");
        assert_eq!(&encoded[1..], &[2, 0, 0]);
        count += 1;
    }
    assert_eq!(count, 20, "There should be twenty encoded packets");
}

#[test]
fn encoding_stream_functions_with_large_data_packets() {
    let packets = (0..20)
        .map(|_| {
            message(Some(RawData::Binary((0..i16::MAX).map(|_| 0x44).collect::<Vec<u8>>())))
        })
        .collect::<Vec<Packet>>();

    let data_length = i16::MAX as i32;
    let mut count = 0;
    for encoded in encode_all(packets) {
        assert!(!encoded.is_empty(), "Encoded packet should not be empty");
        // 3 bytes of header, 3 of head, the mask and the data
        assert_eq!(encoded.len() as i32, data_length + 7);

        assert_eq!(encoded[0], 126 | BINARY_MASK);
        assert_eq!(encoded[1], ((data_length + 4) >> 8) as u8);
        assert_eq!(encoded[2], (data_length + 4) as u8);

        assert_eq!(&encoded[3..6], &[PacketType::Message.as_int(), 0, 1]);
        assert_eq!(encoded[6], BINARY_MASK);
        assert_eq!(encoded[7..], (0..data_length).map(|_| 0x44).collect::<Vec<u8>>());

        count += 1;
    }
    assert_eq!(count, 20, "There should be twenty encoded packets");
}

#[test]
fn encoding_stream_functions_with_large_packet_streams() {
    let packets = (0..i16::MAX)
        .map(|_| message(Some(RawData::Text("Hello".into()))))
        .collect::<Vec<Packet>>();

    let mut count = 0;
    for encoded in encode_all(packets) {
        assert!(!encoded.is_empty(), "Encoded packet should not be empty");
        // 1 byte of header, 3 of head, the mask and 5 bytes for "Hello"
        assert_eq!(encoded.len(), 1 + 3 + 1 + 5);
        assert_eq!(encoded[0], 9);
        assert_eq!(encoded[1], PacketType::Message.as_int());
        assert_eq!(encoded[4], PLAIN_TEXT_MASK);
        assert_eq!(encoded[5..], Vec::from("Hello".as_bytes()));
        count += 1;
    }
    assert_eq!(count, i16::MAX, "There should be i16::MAX encoded packets");
}

#[test]
fn test_encoding_with_async_channel() {
    let (tx, rx) = std::sync::mpsc::channel();
    let sender = tx.clone();
    for _ in 0..3 {
        sender.send(message(Some(RawData::Text("Async".into())))).unwrap();
    }
    drop(sender);
    drop(tx);

    let encoder = PacketEncoderStream::new();
    let mut count = 0;
    for packet in rx {
        let encoded = encoder.encode_frame(&packet);
        assert!(!encoded.is_empty(), "Encoded packet should not be empty");
        assert_eq!(encoded.len(), 1 + 3 + 1 + 5);
        assert_eq!(encoded[0], 9);
        assert_eq!(encoded[1], PacketType::Message.as_int());
        assert_eq!(encoded[4], PLAIN_TEXT_MASK);
        assert_eq!(encoded[5..], Vec::from("Async".as_bytes()));
        count += 1;
    }

    assert_eq!(count, 3, "All packets should be received and encoded");
}

fn type_of(i: u32) -> PacketType {
    PacketType::from_char(char::from_digit(i % 6, 10).unwrap()).unwrap()
}

fn build_header(binary: bool, data_length: usize) -> BinaryType {
    let mut header: BinaryType = Vec::new();
    if data_length < 126 {
        header.push(data_length as u8);
    } else if data_length < 65536 {
        header.push(126);
        header.push((data_length >> 8) as u8);
        header.push(data_length as u8);
    } else {
        header.push(127);
        header.extend((data_length as u64).to_be_bytes());
    }
    if binary {
        header[0] |= BINARY_MASK;
    }
    header
}

fn build_packet(i: u32, mask: u8, filler: u8, data_length: usize) -> BinaryType {
    if data_length == 0 {
        let mut v = build_header(false, 3);
        v.extend([type_of(i).as_int(), 0, 0]);
        return v;
    }
    let mut v = build_header(mask == BINARY_MASK, data_length + 4);
    v.extend([type_of(i).as_int(), 0, 1, mask]);
    v.extend([filler].repeat(data_length));
    v
}

fn build_bin_packets(count: u32, data_length: usize) -> Vec<BinaryType> {
    (0..count).map(|i| build_packet(i, BINARY_MASK, 0x44, data_length)).collect()
}

fn build_text_packets(count: u32, data_length: usize) -> Vec<BinaryType> {
    (0..count).map(|i| build_packet(i, PLAIN_TEXT_MASK, b'G', data_length)).collect()
}

fn build_stream(count: u32, data_length: usize, mixed: bool, binary: bool) -> Vec<BinaryType> {
    if mixed {
        let bin = build_bin_packets(count, data_length);
        let text = build_text_packets(count, data_length);
        (0..count as usize)
            .map(|i| if i % 2 == 0 { bin[i].clone() } else { text[i].clone() })
            .collect()
    } else if binary {
        build_bin_packets(count, data_length)
    } else {
        build_text_packets(count, data_length)
    }
}

fn decode_all(chunks: Vec<BinaryType>) -> Vec<Packet> {
    let mut decoder = PacketDecoderStream::new();
    let mut packets = Vec::new();
    for chunk in chunks {
        for decoded in decoder.feed_chunk(chunk) {
            packets.push(decoded.unwrap());
        }
    }
    assert_eq!(decoder.buffered(), 0);
    packets
}

fn check_stream(count: u32, data_length: usize, mixed: bool, binary: bool) {
    let packets = decode_all(build_stream(count, data_length, mixed, binary));
    assert_eq!(packets.len(), count as usize);
    for (i, packet) in packets.iter().enumerate() {
        assert_eq!(packet._type(), &type_of(i as u32));
        let is_binary = if mixed { i % 2 == 0 } else { binary };
        let expected = if data_length == 0 {
            None
        } else if is_binary {
            Some(RawData::Binary([0x44u8].repeat(data_length)))
        } else {
            Some(RawData::Text("G".repeat(data_length)))
        };
        assert_eq!(packet.data(), expected.as_ref());
    }
}

#[test]
fn decoding_stream_functions_with_empty_binary_packet_streams() {
    check_stream(20, 0, false, true);
}

#[test]
fn decoding_stream_functions_with_empty_text_packet_streams() {
    check_stream(20, 0, false, false);
}

#[test]
fn decoding_stream_functions_with_empty_mixed_packet_streams() {
    check_stream(20, 0, true, false);
}

#[test]
fn decoding_stream_functions_with_large_binary_packet_streams() {
    check_stream(20, 2_000usize, false, true);
}

#[test]
fn decoding_stream_functions_with_large_text_packet_streams() {
    check_stream(20, 2_000usize, false, false);
}

#[test]
fn decoding_stream_functions_with_large_mixed_packet_streams() {
    check_stream(20, 2_000usize, true, false);
}

#[test]
fn decoding_stream_functions_with_large_streams_of_binary_packets() {
    check_stream(i16::MAX as u32, 200usize, false, true);
}

#[test]
fn decoding_stream_functions_with_large_streams_of_text_packets() {
    check_stream(2_000u32, 200usize, false, false);
}

#[test]
fn decoding_stream_functions_with_large_streams_of_mixed_packets() {
    check_stream(2_000u32, 200usize, true, false);
}

fn through_a_channel(packets: Vec<BinaryType>) -> Vec<Packet> {
    let (tx, rx) = std::sync::mpsc::channel::<BinaryType>();
    for packet in packets {
        tx.send(packet).unwrap();
    }
    drop(tx);
    let mut decoder = PacketDecoderStream::new();
    let mut decoded = Vec::new();
    for chunk in rx {
        decoded.extend(decoder.feed_chunk(chunk).into_iter().map(|r| r.unwrap()));
    }
    decoded
}

#[test]
fn decoding_binary_packets_with_async_stream_channel() {
    let decoded = through_a_channel(build_bin_packets(200, 100));
    for (count, packet) in decoded.iter().enumerate() {
        assert_eq!(packet._type(), &type_of(count as u32));
        assert_eq!(packet.data(), Some(&RawData::Binary([0x44u8].repeat(100usize))));
    }
    assert_eq!(decoded.len(), 200, "Should have received all 200 packets");
}

#[test]
fn decoding_text_packets_with_async_stream_channel() {
    let decoded = through_a_channel(build_text_packets(200, 100));
    for (count, packet) in decoded.iter().enumerate() {
        assert_eq!(packet._type(), &type_of(count as u32));
        assert_eq!(packet.data(), Some(&RawData::Text("G".repeat(100usize))));
    }
    assert_eq!(decoded.len(), 200, "Should have received all 200 packets");
}

#[test]
fn decoding_high_throughput_with_async_channel() {
    let decoded = through_a_channel(build_bin_packets(2_000, 20_000));
    for (count, packet) in decoded.iter().enumerate() {
        assert_eq!(packet._type(), &type_of(count as u32));
        assert_eq!(packet.data(), Some(&RawData::Binary([0x44u8].repeat(20_000usize))));
    }
    assert_eq!(decoded.len(), 2_000, "Should have received all packets");
}
