//! The streaming encoder: packets in, length-framed byte chunks out.

use vstd::prelude::*;
use crate::decode::parse_packet_bytes;
use crate::decoding_stream::DecoderModel;
use crate::decoding_stream::advance;
use crate::decoding_stream::be_value;
use crate::decoding_stream::drain;
use crate::decoding_stream::lemma_advance;
use crate::decoding_stream::step;
use crate::encode::packet_bytes;
use crate::error::DecodeFailure;
use crate::packet::Packet;
use crate::packet::PacketView;
use crate::payload::all_wf;
use crate::payload::lemma_packet_bytes_len;
use crate::raw_data::BinaryType;
use crate::raw_data::RawData;
use crate::raw_data::RawDataView;
use crate::round_trip::law_binary_round_trip;

verus! {

/// The value of the mask bit in a frame's first byte.
pub open spec fn mask_of(binary: bool) -> nat {
    if binary {
        128
    } else {
        0
    }
}

/// The header of a frame whose packet has `length` bytes: the length in
/// seven bits where it is below 126; else 126 and the length in two bytes
/// where it is below 65536; else 127 and the length in eight bytes. The top
/// bit of the first byte is set where the packet's payload is binary.
pub open spec fn frame_header(length: nat, binary: bool) -> Seq<u8> {
    if length < 126 {
        seq![(length + mask_of(binary)) as u8]
    } else if length < 65536 {
        seq![(126 + mask_of(binary)) as u8, (length / 256 % 256) as u8, (length % 256) as u8]
    } else {
        seq![
            (127 + mask_of(binary)) as u8,
            (length / 72057594037927936 % 256) as u8,
            (length / 281474976710656 % 256) as u8,
            (length / 1099511627776 % 256) as u8,
            (length / 4294967296 % 256) as u8,
            (length / 16777216 % 256) as u8,
            (length / 65536 % 256) as u8,
            (length / 256 % 256) as u8,
            (length % 256) as u8,
        ]
    }
}

/// Whether the payload of `p` is binary.
pub open spec fn has_binary_payload(p: PacketView) -> bool {
    p.payload matches Some(RawDataView::Binary(_))
}

/// The frame of a packet: its header, then the packet's binary form.
pub open spec fn frame_bytes(p: PacketView) -> Seq<u8> {
    frame_header(packet_bytes(p).len(), has_binary_payload(p)) + packet_bytes(p)
}

/// The frames of packets, in order.
pub open spec fn stream_bytes(ps: Seq<PacketView>) -> Seq<u8>
    decreases ps.len(),
{
    if ps.len() == 0 {
        Seq::<u8>::empty()
    } else {
        frame_bytes(ps[0]) + stream_bytes(ps.drop_first())
    }
}

/// The binary forms of packets.
pub open spec fn all_packet_bytes(ps: Seq<PacketView>) -> Seq<Seq<u8>> {
    Seq::new(ps.len(), |i: int| packet_bytes(ps[i]))
}

/// Turns packets into frames for a byte-stream transport.
#[derive(Debug, Clone, Copy, PartialEq, Eq, Structural)]
pub struct PacketEncoderStream {}

impl PacketEncoderStream {
    /// An encoder.
    pub fn new() -> (encoder: Self) {
        PacketEncoderStream {  }
    }

    /// The frame of `packet`: a length header whose top bit says whether
    /// the payload is binary, then the packet's binary form.
    pub fn encode_frame(&self, packet: &Packet) -> (frame: BinaryType)
        ensures
            frame@ == frame_bytes(packet@),
            packet@.wf(),
    {
        let encoded: Vec<u8> = packet.encode_binary();
        let length: usize = encoded.len();
        proof {
            lemma_packet_bytes_len(packet@);
        }
        let mask: u8 = match packet.data() {
            Some(RawData::Binary(_)) => 128,
            _ => 0,
        };
        let mut frame: Vec<u8> = Vec::new();
        if length < 126 {
            frame.push(length as u8 + mask);
        } else if length < 65536 {
            frame.push(126 + mask);
            frame.push((length / 256 % 256) as u8);
            frame.push((length % 256) as u8);
        } else {
            let wide: u64 = length as u64;
            frame.push(127 + mask);
            frame.push((wide / 72057594037927936 % 256) as u8);
            frame.push((wide / 281474976710656 % 256) as u8);
            frame.push((wide / 1099511627776 % 256) as u8);
            frame.push((wide / 4294967296 % 256) as u8);
            frame.push((wide / 16777216 % 256) as u8);
            frame.push((wide / 65536 % 256) as u8);
            frame.push((wide / 256 % 256) as u8);
            frame.push((wide % 256) as u8);
        }
        assert(frame@ =~= frame_header(length as nat, has_binary_payload(packet@)));
        frame.extend_from_slice(encoded.as_slice());
        assert(frame@ =~= frame_bytes(packet@));
        frame
    }
}

/// The eight bytes of a number below 2^64, most significant first, denote
/// that number.
pub proof fn lemma_be_value_64(n: nat)
    requires
        n < 0x1_0000_0000_0000_0000,
    ensures
        ((((((((n / 72057594037927936 % 256) * 256 + n / 281474976710656 % 256) * 256 + n
            / 1099511627776 % 256) * 256 + n / 4294967296 % 256) * 256 + n / 16777216 % 256) * 256
            + n / 65536 % 256) * 256 + n / 256 % 256) * 256 + n % 256) == n,
{
    let v0 = n / 72057594037927936;
    let v1 = n / 281474976710656;
    let v2 = n / 1099511627776;
    let v3 = n / 4294967296;
    let v4 = n / 16777216;
    let v5 = n / 65536;
    let v6 = n / 256;
    assert(v0 < 256);
    assert(v1 == v0 * 256 + v1 % 256);
    assert(v2 == v1 * 256 + v2 % 256);
    assert(v3 == v2 * 256 + v3 % 256);
    assert(v4 == v3 * 256 + v4 % 256);
    assert(v5 == v4 * 256 + v5 % 256);
    assert(v6 == v5 * 256 + v6 % 256);
    assert(n == v6 * 256 + n % 256);
}

/// A decoder in `ReadPayload` that has the expected bytes buffered,
/// followed by anything, hands them out and is left with what followed.
pub proof fn lemma_payload_step(m: DecoderModel, body: Seq<u8>, rest: Seq<u8>)
    requires
        m.state is ReadPayload,
        m.expected_length == body.len(),
        m.pending == body + rest,
    ensures
        advance(m).1 == Some(body),
        advance(m).0.state is ReadHeader,
        advance(m).0.pending == rest,
{
    assert(m.pending.take(body.len() as int) =~= body);
    assert(m.pending.skip(body.len() as int) =~= rest);
}

/// What reading the first byte of a frame's header leaves the decoder in.
pub proof fn lemma_header_step(m: DecoderModel, first: u8, tail: Seq<u8>)
    requires
        m.state is ReadHeader,
        m.pending == seq![first] + tail,
    ensures
        advance(m) == advance(step(m).0),
        step(m).0.pending == tail,
        step(m).0.expected_length == first % 128,
        first % 128 < 126 ==> step(m).0.state is ReadPayload,
        first % 128 == 126 ==> step(m).0.state is ReadExtendedLength16,
        first % 128 == 127 ==> step(m).0.state is ReadExtendedLength64,
{
    assert(m.pending[0] == first);
    assert(m.pending.skip(1) =~= tail);
}

/// What reading a sixteen-bit length leaves the decoder in.
pub proof fn lemma_length16_step(m: DecoderModel, n: nat, tail: Seq<u8>)
    requires
        m.state is ReadExtendedLength16,
        n < 65536,
        m.pending == seq![(n / 256 % 256) as u8, (n % 256) as u8] + tail,
    ensures
        advance(m) == advance(step(m).0),
        step(m).0.pending == tail,
        step(m).0.expected_length == n,
        step(m).0.state is ReadPayload,
{
    assert(m.pending[0] == (n / 256 % 256) as u8 && m.pending[1] == (n % 256) as u8);
    assert(m.pending.skip(2) =~= tail);
    reveal_with_fuel(be_value, 3);
}

/// What reading a sixty-four-bit length leaves the decoder in.
pub proof fn lemma_length64_step(m: DecoderModel, n: nat, tail: Seq<u8>)
    requires
        m.state is ReadExtendedLength64,
        n < 0x1_0000_0000_0000_0000,
        m.pending == seq![
            (n / 72057594037927936 % 256) as u8,
            (n / 281474976710656 % 256) as u8,
            (n / 1099511627776 % 256) as u8,
            (n / 4294967296 % 256) as u8,
            (n / 16777216 % 256) as u8,
            (n / 65536 % 256) as u8,
            (n / 256 % 256) as u8,
            (n % 256) as u8,
        ] + tail,
    ensures
        advance(m) == advance(step(m).0),
        step(m).0.pending == tail,
        step(m).0.expected_length == n,
        step(m).0.state is ReadPayload,
{
    let b = m.pending;
    assert(b[0] == (n / 72057594037927936 % 256) as u8 && b[1] == (n / 281474976710656 % 256) as u8
        && b[2] == (n / 1099511627776 % 256) as u8 && b[3] == (n / 4294967296 % 256) as u8 && b[4]
        == (n / 16777216 % 256) as u8 && b[5] == (n / 65536 % 256) as u8 && b[6] == (n / 256
        % 256) as u8 && b[7] == (n % 256) as u8);
    assert(b.skip(8) =~= tail);
    lemma_be_value_64(n);
    assert(be_value(b, 8) == n) by {
        reveal_with_fuel(be_value, 9);
    }
}

/// A decoder that waits for a header and has the frame of a packet
/// buffered, followed by anything, hands out the packet's binary form and
/// is left with what followed.
pub proof fn lemma_frame_round_trip(m: DecoderModel, body: Seq<u8>, binary: bool, rest: Seq<u8>)
    requires
        m.state is ReadHeader,
        body.len() < 0x1_0000_0000_0000_0000,
        m.pending == frame_header(body.len(), binary) + body + rest,
    ensures
        advance(m).1 == Some(body),
        advance(m).0.state is ReadHeader,
        advance(m).0.pending == rest,
{
    let header = frame_header(body.len(), binary);
    let n = body.len();
    let first = header[0];
    let tail = header.skip(1) + body + rest;
    assert(m.pending =~= seq![first] + tail);
    lemma_header_step(m, first, tail);
    let m1 = step(m).0;
    if n < 126 {
        assert(tail =~= body + rest);
        lemma_payload_step(m1, body, rest);
    } else if n < 65536 {
        assert(tail =~= seq![(n / 256 % 256) as u8, (n % 256) as u8] + (body + rest));
        lemma_length16_step(m1, n, body + rest);
        lemma_payload_step(step(m1).0, body, rest);
    } else {
        assert(tail =~= seq![
            (n / 72057594037927936 % 256) as u8,
            (n / 281474976710656 % 256) as u8,
            (n / 1099511627776 % 256) as u8,
            (n / 4294967296 % 256) as u8,
            (n / 16777216 % 256) as u8,
            (n / 65536 % 256) as u8,
            (n / 256 % 256) as u8,
            (n % 256) as u8,
        ] + (body + rest));
        lemma_length64_step(m1, n, body + rest);
        lemma_payload_step(step(m1).0, body, rest);
    }
}

/// Stream round-trip law: a decoder that waits for a header and is fed the
/// frames of well-formed packets hands out the binary forms of exactly
/// those packets, each of which decodes to its packet, and is left with
/// nothing buffered.
pub proof fn law_stream_round_trip(m: DecoderModel, ps: Seq<PacketView>)
    requires
        m.state is ReadHeader,
        m.pending == stream_bytes(ps),
        all_wf(ps),
    ensures
        drain(m).0 == all_packet_bytes(ps),
        drain(m).1.pending.len() == 0,
        forall|i: int|
            0 <= i < ps.len() ==> parse_packet_bytes(#[trigger] drain(m).0[i]) == Ok::<
                PacketView,
                DecodeFailure,
            >(ps[i]),
    decreases ps.len(),
{
    if ps.len() == 0 {
        assert(drain(m).0 =~= all_packet_bytes(ps));
    } else {
        let p = ps[0];
        let rest = ps.drop_first();
        let body = packet_bytes(p);
        lemma_packet_bytes_len(p);
        lemma_frame_round_trip(m, body, has_binary_payload(p), stream_bytes(rest));
        lemma_advance(m);
        let next = advance(m).0;
        assert(all_wf(rest)) by {
            assert forall|i: int| 0 <= i < rest.len() implies (#[trigger] rest[i]).wf() by {
                assert(rest[i] == ps[i + 1]);
            }
        }
        law_stream_round_trip(next, rest);
        law_binary_round_trip(p);
        assert(drain(m).0 =~= seq![body] + drain(next).0);
        assert(drain(m).0 =~= all_packet_bytes(ps)) by {
            assert forall|i: int| 0 <= i < ps.len() implies (seq![body] + all_packet_bytes(
                rest,
            ))[i] == all_packet_bytes(ps)[i] by {
                if i > 0 {
                    assert(rest[i - 1] == ps[i]);
                }
            }
        }
        assert forall|i: int| 0 <= i < ps.len() implies parse_packet_bytes(
            #[trigger] drain(m).0[i],
        ) == Ok::<PacketView, DecodeFailure>(ps[i]) by {
            if i > 0 {
                assert(rest[i - 1] == ps[i]);
                assert(drain(m).0[i] == drain(next).0[i - 1]);
            }
        }
    }
}

} // verus!
