use engine_protocol::decoding_stream::concat_chunks;
use engine_protocol::decoding_stream::total_length;
use engine_protocol::decoding_stream::State;
use engine_protocol::DecodingError;
use engine_protocol::Packet;
use engine_protocol::PacketDecoderStream;
use engine_protocol::PacketEncoderStream;
use engine_protocol::PacketError;
use engine_protocol::PacketType;
use engine_protocol::RawData;
use engine_protocol::BINARY_MASK;
use engine_protocol::PLAIN_TEXT_MASK;
use std::collections::VecDeque;

fn message(data: RawData) -> Packet {
    let mut packet = Packet::new(PacketType::Message);
    packet.with_data(data).unwrap();
    packet
}

fn drain(decoder: &mut PacketDecoderStream) -> Vec<Result<Packet, DecodingError>> {
    let mut out = Vec::new();
    while let Some(result) = decoder.next_packet() {
        out.push(result);
    }
    out
}

#[test]
fn frame_of_a_short_text_packet() {
    let encoder = PacketEncoderStream::new();
    let frame = encoder.encode_frame(&message(RawData::Text("Hello".into())));
    assert_eq!(frame[0], 9, "three bytes of head, the mask and five bytes of text");
    assert_eq!(&frame[1..5], &[4, 0, 1, PLAIN_TEXT_MASK]);
    assert_eq!(&frame[5..], "Hello".as_bytes());
}

#[test]
fn frame_of_an_empty_packet() {
    let encoder = PacketEncoderStream::new();
    let frame = encoder.encode_frame(&Packet::new(PacketType::Ping));
    assert_eq!(frame, vec![3, 2, 0, 0]);
}

#[test]
fn frame_of_a_binary_packet_sets_the_top_bit() {
    let encoder = PacketEncoderStream::new();
    let frame = encoder.encode_frame(&message(RawData::Binary(vec![1, 2])));
    assert_eq!(frame, vec![6 | BINARY_MASK, 4, 0, 1, BINARY_MASK, 1, 2]);
}

#[test]
fn frame_with_a_two_byte_length() {
    let encoder = PacketEncoderStream::new();
    let data_length = i16::MAX as usize;
    let frame = encoder.encode_frame(&message(RawData::Binary(vec![0x44; data_length])));
    assert_eq!(frame.len(), data_length + 4 + 3);
    assert_eq!(frame[0], 126 | BINARY_MASK);
    assert_eq!(frame[1], ((data_length + 4) >> 8) as u8);
    assert_eq!(frame[2], (data_length + 4) as u8);
    assert_eq!(&frame[3..7], &[4, 0, 1, BINARY_MASK]);
    assert_eq!(frame[7..], vec![0x44; data_length]);

    let edge = encoder.encode_frame(&message(RawData::Text("x".repeat(122))));
    assert_eq!(&edge[..3], &[126, 0, 126]);
    let below = encoder.encode_frame(&message(RawData::Text("x".repeat(121))));
    assert_eq!(below[0], 125);
}

#[test]
fn frame_with_an_eight_byte_length() {
    let encoder = PacketEncoderStream::new();
    let frame = encoder.encode_frame(&message(RawData::Text("y".repeat(65_532))));
    assert_eq!(&frame[..9], &[127, 0, 0, 0, 0, 0, 1, 0, 0]);
    assert_eq!(frame.len(), 9 + 65_536);
    let below = encoder.encode_frame(&message(RawData::Text("y".repeat(65_531))));
    assert_eq!(&below[..3], &[126, 255, 255]);
}

fn sample_packets() -> Vec<Packet> {
    vec![
        Packet::new(PacketType::Open),
        message(RawData::Text("Hello".into())),
        message(RawData::Binary(vec![0x44; 2_000])),
        message(RawData::Binary(vec![])),
        message(RawData::Text("G".repeat(70_000))),
        Packet::new(PacketType::Close),
    ]
}

fn sample_stream() -> Vec<u8> {
    let encoder = PacketEncoderStream::new();
    sample_packets().iter().flat_map(|p| encoder.encode_frame(p)).collect()
}

#[test]
fn decoder_yields_the_packets_of_the_frames() {
    let mut decoder = PacketDecoderStream::new();
    assert_eq!(decoder.state(), State::ReadHeader);
    decoder.push_chunk(sample_stream());
    let packets: Vec<Packet> = drain(&mut decoder).into_iter().map(|r| r.unwrap()).collect();
    assert_eq!(packets, sample_packets());
    assert_eq!(decoder.buffered(), 0);
    assert_eq!(decoder.state(), State::ReadHeader);
}

#[test]
fn decoder_yields_the_same_packets_for_any_chunking() {
    let bytes = sample_stream();
    for size in [1usize, 2, 3, 7, 8, 9, 64, 1_000, 65_536, bytes.len()] {
        let mut decoder = PacketDecoderStream::new();
        let mut packets = Vec::new();
        for chunk in bytes.chunks(size) {
            decoder.push_chunk(chunk.to_vec());
            packets.extend(drain(&mut decoder).into_iter().map(|r| r.unwrap()));
        }
        assert_eq!(packets, sample_packets(), "chunks of {}", size);
        assert_eq!(decoder.buffered(), 0);
    }
    // uneven chunks, empty ones among them
    let mut decoder = PacketDecoderStream::new();
    let mut packets = Vec::new();
    let mut rest = &bytes[..];
    let mut step = 0;
    while !rest.is_empty() {
        let take = (step * 37 % 11).min(rest.len());
        decoder.push_chunk(rest[..take].to_vec());
        rest = &rest[take..];
        step += 1;
        packets.extend(drain(&mut decoder).into_iter().map(|r| r.unwrap()));
    }
    assert_eq!(packets, sample_packets());
}

#[test]
fn decoder_waits_in_the_state_the_bytes_leave_it_in() {
    let mut decoder = PacketDecoderStream::new();
    assert_eq!(decoder.next_packet(), None);
    decoder.push_chunk(vec![126 | BINARY_MASK]);
    assert_eq!(decoder.next_packet(), None);
    assert_eq!(decoder.state(), State::ReadExtendedLength16);
    assert!(decoder.is_binary());
    decoder.push_chunk(vec![0]);
    assert_eq!(decoder.next_packet(), None);
    assert_eq!(decoder.state(), State::ReadExtendedLength16);
    decoder.push_chunk(vec![126, 4]);
    assert_eq!(decoder.next_packet(), None);
    assert_eq!(decoder.state(), State::ReadPayload);
    assert_eq!(decoder.expected_length(), 126);
    assert_eq!(decoder.buffered(), 1);

    let mut wide = PacketDecoderStream::new();
    wide.push_chunk(vec![127, 0, 0, 0, 0, 0, 0, 1]);
    assert_eq!(wide.next_packet(), None);
    assert_eq!(wide.state(), State::ReadExtendedLength64);
    assert!(!wide.is_binary());
    wide.push_chunk(vec![2]);
    assert_eq!(wide.next_packet(), None);
    assert_eq!(wide.state(), State::ReadPayload);
    assert_eq!(wide.expected_length(), 258);
}

#[test]
fn decoder_ends_without_a_partial_packet() {
    let bytes = sample_stream();
    let mut decoder = PacketDecoderStream::new();
    decoder.push_chunk(bytes[..bytes.len() - 1].to_vec());
    let packets = drain(&mut decoder);
    assert_eq!(packets.len(), sample_packets().len() - 1);
    assert_eq!(decoder.next_packet(), None);
}

#[test]
fn decoder_hands_out_failures_and_goes_on() {
    let mut decoder = PacketDecoderStream::new();
    decoder.push_chunk(vec![3, 7, 0, 0, 0, 3, 2, 0, 0]);
    assert_eq!(
        drain(&mut decoder),
        vec![
            Err(DecodingError::Packet(PacketError::InvalidPacketType)),
            Err(DecodingError::MissingField),
            Ok(Packet::new(PacketType::Ping)),
        ]
    );
}

#[test]
fn buffered_chunks_are_taken_across_their_boundaries() {
    let mut chunks: VecDeque<Vec<u8>> = VecDeque::new();
    chunks.push_back(vec![1, 2, 3]);
    chunks.push_back(vec![]);
    chunks.push_back(vec![4]);
    chunks.push_back(vec![5, 6, 7, 8]);
    assert_eq!(total_length(&chunks), 8);
    assert_eq!(concat_chunks(&mut chunks, 2), vec![1, 2]);
    assert_eq!(total_length(&chunks), 6);
    assert_eq!(concat_chunks(&mut chunks, 0), Vec::<u8>::new());
    assert_eq!(concat_chunks(&mut chunks, 4), vec![3, 4, 5, 6]);
    assert_eq!(chunks, VecDeque::from(vec![vec![7, 8]]));
    assert_eq!(concat_chunks(&mut chunks, 5), vec![7, 8]);
    assert_eq!(total_length(&chunks), 0);
}

#[test]
fn feeding_chunk_by_chunk_yields_what_feeding_at_once_yields() {
    let bytes = sample_stream();
    let mut at_once = PacketDecoderStream::new();
    let expected = at_once.feed_chunk(bytes.clone());
    assert_eq!(expected.len(), sample_packets().len());
    for size in [1usize, 5, 13, 4_096] {
        let mut decoder = PacketDecoderStream::new();
        let mut got = Vec::new();
        for chunk in bytes.chunks(size) {
            got.extend(decoder.feed_chunk(chunk.to_vec()));
        }
        assert_eq!(got, expected, "chunks of {}", size);
        assert_eq!(decoder.state(), at_once.state());
        assert_eq!(decoder.buffered(), at_once.buffered());
        assert_eq!(decoder.drain_packets(), vec![]);
    }
}
