//! Payloads: several packets in one transfer, each behind a length prefix.

use vstd::prelude::*;
use vstd::utf8::encode_utf8;
use crate::decimal::decimal;
use crate::decimal::lemma_padded_decimal;
use crate::decimal::padded_decimal;
use crate::decimal::parse_decimal;
use crate::decimal::parse_number;
use crate::decimal::pow10;
use crate::decimal::push_padded_decimal;
use crate::decode::parse_packet_bytes;
use crate::decode::parse_packet_text;
use crate::encode::base64_sized_payload;
use crate::encode::packet_bytes;
use crate::encode::packet_text;
use crate::error::DecodeFailure;
use crate::error::DecodingError;
use crate::packet::Packet;
use crate::packet::PacketView;
use crate::raw_data::MAX_PACKET_SIZE;
use crate::raw_data::RawData;
use crate::raw_data::RawDataView;
use crate::round_trip::base64_recovers_payload;
use crate::round_trip::has_short_options;
use crate::round_trip::law_binary_round_trip;
use crate::round_trip::law_text_round_trip;
use crate::text::chars_of;

verus! {

/// Number of bytes of the length prefix of a binary frame.
pub const BINARY_PREFIX: usize = 4;

/// Number of digits of the length prefix of a text frame.
pub const TEXT_PREFIX: usize = 8;

/// The largest length that the prefix of a text frame can hold.
pub const TEXT_FRAME_MAX: usize = 99999999;

/// The four bytes of `n`, most significant first.
pub open spec fn be32(n: nat) -> Seq<u8> {
    seq![
        (n / 16777216 % 256) as u8,
        (n / 65536 % 256) as u8,
        (n / 256 % 256) as u8,
        (n % 256) as u8,
    ]
}

/// The number whose four bytes, most significant first, are these.
pub open spec fn from_be32(b0: u8, b1: u8, b2: u8, b3: u8) -> nat {
    (b0 * 16777216 + b1 * 65536 + b2 * 256 + b3) as nat
}

/// One packet in a binary payload: the length of its binary form in four
/// big-endian bytes, then that form.
pub open spec fn binary_frame(p: PacketView) -> Seq<u8> {
    be32(packet_bytes(p).len()) + packet_bytes(p)
}

/// One packet in a text payload: the length of its text form in eight
/// zero-padded digits, counted in characters, then that form.
pub open spec fn text_frame(p: PacketView) -> Seq<char> {
    padded_decimal(packet_text(p).len(), TEXT_PREFIX as nat) + packet_text(p)
}

/// A binary payload: the frames of the packets, in order.
pub open spec fn frames_bytes(ps: Seq<PacketView>) -> Seq<u8>
    decreases ps.len(),
{
    if ps.len() == 0 {
        Seq::<u8>::empty()
    } else {
        frames_bytes(ps.drop_last()) + binary_frame(ps.last())
    }
}

/// A text payload: the frames of the packets, in order.
pub open spec fn frames_text(ps: Seq<PacketView>) -> Seq<char>
    decreases ps.len(),
{
    if ps.len() == 0 {
        Seq::<char>::empty()
    } else {
        frames_text(ps.drop_last()) + text_frame(ps.last())
    }
}

/// Either kind of payload, as a transport's support for binary decides.
pub open spec fn payload_encoding(ps: Seq<PacketView>, supports_binary: bool) -> RawDataView {
    if supports_binary {
        RawDataView::Binary(frames_bytes(ps))
    } else {
        RawDataView::Text(frames_text(ps))
    }
}

/// A decoded packet in front of the decoded rest, or the first failure.
pub open spec fn prepend(
    first: Result<PacketView, DecodeFailure>,
    rest: Result<Seq<PacketView>, DecodeFailure>,
) -> Result<Seq<PacketView>, DecodeFailure> {
    match first {
        Err(e) => Err(e),
        Ok(p) => match rest {
            Err(e) => Err(e),
            Ok(ps) => Ok(seq![p] + ps),
        },
    }
}

/// What a binary payload decodes to: frame after frame until the input is
/// exhausted. A prefix or a frame that is cut short is a mismatch.
pub open spec fn parse_frames_bytes(b: Seq<u8>) -> Result<Seq<PacketView>, DecodeFailure>
    decreases b.len(),
{
    if b.len() == 0 {
        Ok(Seq::<PacketView>::empty())
    } else if b.len() < BINARY_PREFIX {
        Err(DecodeFailure::PayloadDataMismatch)
    } else {
        let n = from_be32(b[0], b[1], b[2], b[3]);
        if b.len() - BINARY_PREFIX < n {
            Err(DecodeFailure::PayloadDataMismatch)
        } else {
            match parse_packet_bytes(b.subrange(BINARY_PREFIX as int, BINARY_PREFIX + n)) {
                Err(e) => Err(e),
                Ok(p) => prepend(Ok(p), parse_frames_bytes(b.skip(BINARY_PREFIX + n))),
            }
        }
    }
}

/// What a text payload decodes to: frame after frame until the input is
/// exhausted. A prefix that is cut short or is no number, and a frame that
/// is cut short, are mismatches.
pub open spec fn parse_frames_text(s: Seq<char>) -> Result<Seq<PacketView>, DecodeFailure>
    decreases s.len(),
{
    if s.len() == 0 {
        Ok(Seq::<PacketView>::empty())
    } else if s.len() < TEXT_PREFIX {
        Err(DecodeFailure::PayloadDataMismatch)
    } else {
        match parse_decimal(s.subrange(0, TEXT_PREFIX as int)) {
            None => Err(DecodeFailure::PayloadDataMismatch),
            Some(n) => {
                if s.len() - TEXT_PREFIX < n {
                    Err(DecodeFailure::PayloadDataMismatch)
                } else {
                    match parse_packet_text(s.subrange(TEXT_PREFIX as int, TEXT_PREFIX + n)) {
                        Err(e) => Err(e),
                        Ok(p) => prepend(Ok(p), parse_frames_text(s.skip(TEXT_PREFIX + n))),
                    }
                }
            },
        }
    }
}

/// What an encoded payload decodes to, in the form that its kind says.
pub open spec fn parse_payload(encoded: RawDataView) -> Result<Seq<PacketView>, DecodeFailure> {
    match encoded {
        RawDataView::Binary(b) => parse_frames_bytes(b),
        RawDataView::Text(s) => parse_frames_text(s),
    }
}

/// The contents of a sequence of packets.
pub open spec fn views(packets: Seq<Packet>) -> Seq<PacketView> {
    Seq::new(packets.len(), |i: int| packets[i]@)
}

/// The outcome of decoding a payload, as mathematical values.
pub open spec fn payload_outcome(r: Result<Vec<Packet>, DecodingError>) -> Result<
    Seq<PacketView>,
    DecodeFailure,
> {
    match r {
        Ok(v) => Ok(views(v@)),
        Err(e) => Err(e@),
    }
}

/// Whether every packet of `ps` is well formed.
pub open spec fn all_wf(ps: Seq<PacketView>) -> bool {
    forall|i: int| 0 <= i < ps.len() ==> (#[trigger] ps[i]).wf()
}

/// Whether the options of every packet of `ps` fit the text options block.
pub open spec fn all_short_options(ps: Seq<PacketView>) -> bool {
    forall|i: int| 0 <= i < ps.len() ==> has_short_options(#[trigger] ps[i])
}

/// Whether the length of the text form of every packet of `ps` can be
/// written in the eight digits of a text frame's prefix.
pub open spec fn all_fit_text_frame(ps: Seq<PacketView>) -> bool {
    forall|i: int| 0 <= i < ps.len() ==> packet_text(#[trigger] ps[i]).len() <= TEXT_FRAME_MAX
}

/// Whether base64 decoding recovers the binary payload of every packet of
/// `ps`.
pub open spec fn all_base64_recovered(ps: Seq<PacketView>) -> bool {
    forall|i: int| 0 <= i < ps.len() ==> base64_recovers_payload(#[trigger] ps[i])
}

/// A text has at most as many characters as its UTF-8 encoding has bytes.
pub proof fn lemma_chars_at_most_bytes(s: Seq<char>)
    ensures
        s.len() <= encode_utf8(s).len(),
    decreases s.len(),
{
    if s.len() > 0 {
        lemma_chars_at_most_bytes(s.drop_first());
    }
}

/// A number of sixteen bits has at most five decimal digits.
pub proof fn lemma_decimal_u16_len(n: u16)
    ensures
        1 <= decimal(n as nat).len() <= 5,
{
    reveal_with_fuel(decimal, 6);
}

/// The binary form of a well-formed packet is at most ten bytes longer than
/// the size limit of a payload.
pub proof fn lemma_packet_bytes_len(p: PacketView)
    requires
        p.wf(),
    ensures
        3 <= packet_bytes(p).len() <= MAX_PACKET_SIZE + 10,
{
}

/// The length of the text form of a well-formed packet fits the eight
/// digits of a frame's prefix, given the size of base64 text.
pub proof fn lemma_packet_text_len(p: PacketView)
    requires
        p.wf(),
        base64_sized_payload(p),
    ensures
        3 <= packet_text(p).len() <= TEXT_FRAME_MAX,
{
    match p.options {
        Some(o) => {
            lemma_decimal_u16_len(o.wire_sequence());
            lemma_decimal_u16_len(o.wire_total());
        },
        None => {},
    }
    match p.payload {
        Some(RawDataView::Text(t)) => {
            lemma_chars_at_most_bytes(t);
        },
        _ => {},
    }
}

/// A payload that starts with one more packet starts with that packet's
/// frame.
pub proof fn lemma_frames_bytes_front(p: PacketView, rest: Seq<PacketView>)
    ensures
        frames_bytes(seq![p] + rest) == binary_frame(p) + frames_bytes(rest),
    decreases rest.len(),
{
    let all = seq![p] + rest;
    if rest.len() == 0 {
        assert(all.drop_last() =~= Seq::<PacketView>::empty());
        assert(frames_bytes(all.drop_last()) =~= Seq::<u8>::empty());
        assert(frames_bytes(all) =~= binary_frame(p) + frames_bytes(rest));
    } else {
        lemma_frames_bytes_front(p, rest.drop_last());
        assert(all.drop_last() =~= seq![p] + rest.drop_last());
        assert(frames_bytes(all) =~= binary_frame(p) + frames_bytes(rest));
    }
}

/// A payload that starts with one more packet starts with that packet's
/// frame.
pub proof fn lemma_frames_text_front(p: PacketView, rest: Seq<PacketView>)
    ensures
        frames_text(seq![p] + rest) == text_frame(p) + frames_text(rest),
    decreases rest.len(),
{
    let all = seq![p] + rest;
    if rest.len() == 0 {
        assert(all.drop_last() =~= Seq::<PacketView>::empty());
        assert(frames_text(all.drop_last()) =~= Seq::<char>::empty());
        assert(frames_text(all) =~= text_frame(p) + frames_text(rest));
    } else {
        lemma_frames_text_front(p, rest.drop_last());
        assert(all.drop_last() =~= seq![p] + rest.drop_last());
        assert(frames_text(all) =~= text_frame(p) + frames_text(rest));
    }
}

/// The prefix of a binary frame holds the length of the frame's packet.
pub proof fn lemma_be32_round_trip(n: nat)
    requires
        n < 4294967296,
    ensures
        be32(n).len() == 4,
        from_be32(be32(n)[0], be32(n)[1], be32(n)[2], be32(n)[3]) == n,
{
}

/// The prefix of a text frame holds the length of the frame's packet.
pub proof fn lemma_text_prefix_round_trip(n: nat)
    requires
        n <= TEXT_FRAME_MAX,
    ensures
        padded_decimal(n, TEXT_PREFIX as nat).len() == TEXT_PREFIX,
        parse_decimal(padded_decimal(n, TEXT_PREFIX as nat)) == Some(n),
{
    assert(pow10(8) == 100000000) by {
        reveal_with_fuel(pow10, 9);
    }
    lemma_padded_decimal(n, TEXT_PREFIX as nat);
}

/// Payload round-trip law, binary form: the binary payload of well-formed
/// packets decodes to those packets.
pub proof fn law_payload_binary_round_trip(ps: Seq<PacketView>)
    requires
        all_wf(ps),
    ensures
        parse_frames_bytes(frames_bytes(ps)) == Ok::<Seq<PacketView>, DecodeFailure>(ps),
    decreases ps.len(),
{
    if ps.len() > 0 {
        let p = ps[0];
        let rest = ps.skip(1);
        assert(ps =~= seq![p] + rest);
        lemma_frames_bytes_front(p, rest);
        assert(p.wf());
        assert(all_wf(rest)) by {
            assert forall|i: int| 0 <= i < rest.len() implies (#[trigger] rest[i]).wf() by {
                assert(rest[i] == ps[i + 1]);
            }
        }
        law_payload_binary_round_trip(rest);
        law_binary_round_trip(p);
        lemma_packet_bytes_len(p);
        let body = packet_bytes(p);
        lemma_be32_round_trip(body.len());
        let b = frames_bytes(ps);
        assert(b =~= be32(body.len()) + body + frames_bytes(rest));
        assert(b.subrange(BINARY_PREFIX as int, BINARY_PREFIX + body.len()) =~= body);
        assert(b.skip(BINARY_PREFIX + body.len()) =~= frames_bytes(rest));
        assert(b[0] == be32(body.len())[0] && b[1] == be32(body.len())[1] && b[2] == be32(
            body.len(),
        )[2] && b[3] == be32(body.len())[3]);
        assert(from_be32(b[0], b[1], b[2], b[3]) == body.len());
        assert(parse_frames_bytes(b) == prepend(
            Ok(p),
            Ok::<Seq<PacketView>, DecodeFailure>(rest),
        ));
    } else {
        assert(ps =~= Seq::<PacketView>::empty());
    }
}

/// Payload round-trip law, text form: the text payload of well-formed
/// packets whose options fit the text options block decodes to those
/// packets, where their text forms fit a frame and base64 decoding
/// recovers their binary payloads, which the base64 engine vouches for.
pub proof fn law_payload_text_round_trip(ps: Seq<PacketView>)
    requires
        all_wf(ps),
        all_short_options(ps),
    ensures
        all_fit_text_frame(ps) && all_base64_recovered(ps) ==> parse_frames_text(frames_text(ps))
            == Ok::<Seq<PacketView>, DecodeFailure>(ps),
    decreases ps.len(),
{
    if ps.len() > 0 && all_fit_text_frame(ps) && all_base64_recovered(ps) {
        let p = ps[0];
        let rest = ps.skip(1);
        assert(ps =~= seq![p] + rest);
        lemma_frames_text_front(p, rest);
        assert(p.wf() && has_short_options(p) && base64_recovers_payload(p));
        assert(packet_text(p).len() <= TEXT_FRAME_MAX);
        assert(all_wf(rest) && all_short_options(rest) && all_fit_text_frame(rest)
            && all_base64_recovered(rest)) by {
            assert forall|i: int| 0 <= i < rest.len() implies (#[trigger] rest[i]).wf()
                && has_short_options(rest[i]) && packet_text(rest[i]).len() <= TEXT_FRAME_MAX
                && base64_recovers_payload(rest[i]) by {
                assert(rest[i] == ps[i + 1]);
            }
        }
        law_payload_text_round_trip(rest);
        law_text_round_trip(p);
        let body = packet_text(p);
        lemma_text_prefix_round_trip(body.len());
        let prefix = padded_decimal(body.len(), TEXT_PREFIX as nat);
        let s = frames_text(ps);
        assert(s =~= prefix + body + frames_text(rest));
        assert(s.subrange(0, TEXT_PREFIX as int) =~= prefix);
        assert(s.subrange(TEXT_PREFIX as int, TEXT_PREFIX + body.len()) =~= body);
        assert(s.skip(TEXT_PREFIX + body.len()) =~= frames_text(rest));
        assert(parse_frames_text(s) == prepend(
            Ok(p),
            Ok::<Seq<PacketView>, DecodeFailure>(rest),
        ));
    } else if ps.len() == 0 {
        assert(ps =~= Seq::<PacketView>::empty());
    }
}

/// Payload round-trip law: whichever form a transport asks for, decoding
/// the payload of well-formed packets yields the packets. The text form
/// asks for options that fit its block; it holds where the text forms fit
/// a frame and base64 decoding recovers binary payloads, which the base64
/// engine vouches for.
pub proof fn law_payload_round_trip(ps: Seq<PacketView>, supports_binary: bool)
    requires
        all_wf(ps),
        supports_binary || all_short_options(ps),
    ensures
        supports_binary || (all_fit_text_frame(ps) && all_base64_recovered(ps))
            ==> parse_payload(payload_encoding(ps, supports_binary)) == Ok::<
            Seq<PacketView>,
            DecodeFailure,
        >(ps),
{
    if supports_binary {
        law_payload_binary_round_trip(ps);
    } else {
        law_payload_text_round_trip(ps);
    }
}

/// The packets decoded so far in front of what the rest decodes to.
pub open spec fn joined(
    done: Seq<PacketView>,
    rest: Result<Seq<PacketView>, DecodeFailure>,
) -> Result<Seq<PacketView>, DecodeFailure> {
    match rest {
        Ok(ps) => Ok(done + ps),
        Err(e) => Err(e),
    }
}

/// Whether `s` begins with `prefix`.
pub open spec fn starts_with(s: Seq<char>, prefix: Seq<char>) -> bool {
    prefix.len() <= s.len() && s.subrange(0, prefix.len() as int) == prefix
}

/// What is left of a text payload after `k` packets begins with the frame
/// of the next packet, and the rest follows that frame.
pub proof fn lemma_next_text_frame(ps: Seq<PacketView>, k: int, tail: Seq<char>)
    requires
        0 <= k <= ps.len(),
        tail == frames_text(ps.skip(k)),
        tail.len() > 0,
    ensures
        k < ps.len(),
        starts_with(tail, text_frame(ps[k])),
        tail.skip(text_frame(ps[k]).len() as int) == frames_text(ps.skip(k + 1)),
{
    if k == ps.len() {
        assert(ps.skip(k) =~= Seq::<PacketView>::empty());
    } else {
        let p = ps[k];
        let rest = ps.skip(k + 1);
        assert(ps.skip(k) =~= seq![p] + rest);
        lemma_frames_text_front(p, rest);
        assert(tail.subrange(0, text_frame(p).len() as int) =~= text_frame(p));
        assert(tail.skip(text_frame(p).len() as int) =~= frames_text(rest));
    }
}

impl Packet {
    /// Encodes a payload of packets: in binary, each packet's binary form
    /// behind its length in four big-endian bytes; in text, each packet's
    /// text form behind its length in eight zero-padded digits.
    pub fn encode_payload(packets: &[Packet], supports_binary: bool) -> (data: RawData)
        ensures
            data@ == payload_encoding(views(packets@), supports_binary),
            all_wf(views(packets@)),
            !supports_binary ==> all_fit_text_frame(views(packets@)),
    {
        let ghost vs = views(packets@);
        if supports_binary {
            let mut out: Vec<u8> = Vec::new();
            let mut i: usize = 0;
            while i < packets.len()
                invariant
                    i <= packets@.len(),
                    vs == views(packets@),
                    out@ == frames_bytes(vs.take(i as int)),
                    forall|j: int| 0 <= j < i ==> (#[trigger] vs[j]).wf(),
                decreases packets@.len() - i,
            {
                let encoded: Vec<u8> = packets[i].encode_binary();
                let n: usize = encoded.len();
                proof {
                    lemma_packet_bytes_len(vs[i as int]);
                    assert(vs.take(i + 1).drop_last() =~= vs.take(i as int));
                    assert(vs.take(i + 1).last() == vs[i as int]);
                }
                let ghost before = out@;
                out.push((n / 16777216 % 256) as u8);
                out.push((n / 65536 % 256) as u8);
                out.push((n / 256 % 256) as u8);
                out.push((n % 256) as u8);
                out.extend_from_slice(encoded.as_slice());
                assert(out@ =~= before + binary_frame(vs[i as int]));
                i = i + 1;
            }
            assert(vs.take(i as int) =~= vs);
            RawData::Binary(out)
        } else {
            let mut out: String = String::new();
            let mut i: usize = 0;
            while i < packets.len()
                invariant
                    i <= packets@.len(),
                    vs == views(packets@),
                    out@ == frames_text(vs.take(i as int)),
                    forall|j: int| 0 <= j < i ==> (#[trigger] vs[j]).wf(),
                    forall|j: int|
                        0 <= j < i ==> packet_text(#[trigger] vs[j]).len() <= TEXT_FRAME_MAX,
                decreases packets@.len() - i,
            {
                let text: String = packets[i].encode_text();
                let n: usize = text.as_str().unicode_len();
                proof {
                    lemma_packet_text_len(vs[i as int]);
                    assert(vs.take(i + 1).drop_last() =~= vs.take(i as int));
                    assert(vs.take(i + 1).last() == vs[i as int]);
                }
                let ghost before = out@;
                push_padded_decimal(&mut out, n as u64, 8);
                out.append(text.as_str());
                assert(out@ =~= before + text_frame(vs[i as int]));
                i = i + 1;
            }
            assert(vs.take(i as int) =~= vs);
            RawData::Text(out)
        }
    }

    /// Decodes the frames of a binary payload.
    fn read_binary_frames(bytes: &Vec<u8>) -> (r: Result<Vec<Packet>, DecodingError>)
        ensures
            payload_outcome(r) == parse_frames_bytes(bytes@),
            r matches Ok(v) ==> all_wf(views(v@)),
    {
        let ghost b = bytes@;
        let len: usize = bytes.len();
        let mut out: Vec<Packet> = Vec::new();
        let mut pos: usize = 0;
        assert(b.skip(0) =~= b);
        assert(views(out@) =~= Seq::<PacketView>::empty());
        assert(parse_frames_bytes(b) == joined(views(out@), parse_frames_bytes(b.skip(0)))) by {
            match parse_frames_bytes(b) {
                Ok(ps) => {
                    assert(Seq::<PacketView>::empty() + ps =~= ps);
                },
                Err(_) => {},
            }
        }
        while pos < len
            invariant
                pos <= len,
                len == bytes@.len(),
                b == bytes@,
                parse_frames_bytes(b) == joined(views(out@), parse_frames_bytes(b.skip(pos as int))),
                all_wf(views(out@)),
            decreases len - pos,
        {
            let ghost tail = b.skip(pos as int);
            if len - pos < BINARY_PREFIX {
                return Err(DecodingError::PayloadDataMismatch);
            }
            assert(tail[0] == b[pos + 0] && tail[1] == b[pos + 1] && tail[2] == b[pos + 2]
                && tail[3] == b[pos + 3]);
            let n: u64 = (bytes[pos] as u64) * 16777216 + (bytes[pos + 1] as u64) * 65536 + (
            bytes[pos + 2] as u64) * 256 + (bytes[pos + 3] as u64);
            if n > (len - pos - BINARY_PREFIX) as u64 {
                return Err(DecodingError::PayloadDataMismatch);
            }
            let start: usize = pos + BINARY_PREFIX;
            let end: usize = start + n as usize;
            assert(tail.subrange(BINARY_PREFIX as int, BINARY_PREFIX + n) =~= b.subrange(
                start as int,
                end as int,
            ));
            assert(tail.skip(BINARY_PREFIX + n) =~= b.skip(end as int));
            match Packet::read_binary(bytes, start, end) {
                Err(e) => {
                    return Err(e);
                },
                Ok(p) => {
                    let ghost done = views(out@);
                    out.push(p);
                    proof {
                        assert(views(out@) =~= done.push(p@));
                        match parse_frames_bytes(b.skip(end as int)) {
                            Ok(ps) => {
                                assert(done + (seq![p@] + ps) =~= done.push(p@) + ps);
                            },
                            Err(_) => {},
                        }
                    }
                    pos = end;
                },
            }
        }
        assert(b.skip(pos as int) =~= Seq::<u8>::empty());
        assert(views(out@) + Seq::<PacketView>::empty() =~= views(out@));
        Ok(out)
    }

    /// Decodes the frame that starts at `chars[pos]`: the packet in it and
    /// the place where the next frame starts.
    fn read_text_frame(chars: &Vec<char>, pos: usize) -> (r: Result<(Packet, usize), DecodingError>)
        requires
            pos < chars@.len(),
        ensures
            match r {
                Ok((p, next)) => pos + TEXT_PREFIX <= next <= chars@.len() && p@.wf()
                    && parse_frames_text(chars@.skip(pos as int)) == prepend(
                    Ok(p@),
                    parse_frames_text(chars@.skip(next as int)),
                ),
                Err(e) => parse_frames_text(chars@.skip(pos as int)) == Err::<
                    Seq<PacketView>,
                    DecodeFailure,
                >(e@),
            },
            forall|p: PacketView|
                p.wf() && has_short_options(p) && packet_text(p).len() <= TEXT_FRAME_MAX
                    && starts_with(chars@.skip(pos as int), #[trigger] text_frame(p)) ==> (
                r matches Ok((q, next)) && q@ == p && next == pos + text_frame(p).len()),
    {
        let ghost tail = chars@.skip(pos as int);
        let len: usize = chars.len();
        let r: Result<(Packet, usize), DecodingError> = if len - pos < TEXT_PREFIX {
            Err(DecodingError::PayloadDataMismatch)
        } else {
            let start: usize = pos + TEXT_PREFIX;
            assert(tail.subrange(0, TEXT_PREFIX as int) =~= chars@.subrange(
                pos as int,
                start as int,
            ));
            match parse_number(chars, pos, start, (len - start) as u64) {
                None => Err(DecodingError::PayloadDataMismatch),
                Some(n) => {
                    let end: usize = start + n as usize;
                    assert(tail.subrange(TEXT_PREFIX as int, TEXT_PREFIX + n) =~= chars@.subrange(
                        start as int,
                        end as int,
                    ));
                    assert(tail.skip(TEXT_PREFIX + n) =~= chars@.skip(end as int));
                    match Packet::read_text(chars, start, end) {
                        Err(e) => Err(e),
                        Ok(p) => Ok((p, end)),
                    }
                },
            }
        };
        proof {
            assert forall|p: PacketView|
                p.wf() && has_short_options(p) && packet_text(p).len() <= TEXT_FRAME_MAX
                    && starts_with(tail, #[trigger] text_frame(p)) implies (r matches Ok((q, next))
                && q@ == p && next == pos + text_frame(p).len()) by {
                let body = packet_text(p);
                let prefix = padded_decimal(body.len(), TEXT_PREFIX as nat);
                lemma_text_prefix_round_trip(body.len());
                let frame = text_frame(p);
                assert(frame.len() == TEXT_PREFIX + body.len());
                assert(tail.subrange(0, TEXT_PREFIX as int) =~= frame.subrange(
                    0,
                    TEXT_PREFIX as int,
                ));
                assert(frame.subrange(0, TEXT_PREFIX as int) =~= prefix);
                assert(tail.subrange(TEXT_PREFIX as int, TEXT_PREFIX + body.len())
                    =~= frame.subrange(TEXT_PREFIX as int, TEXT_PREFIX + body.len()));
                assert(frame.subrange(TEXT_PREFIX as int, TEXT_PREFIX + body.len()) =~= body);
                assert(chars@.subrange(pos + TEXT_PREFIX, pos + TEXT_PREFIX + body.len())
                    =~= tail.subrange(TEXT_PREFIX as int, TEXT_PREFIX + body.len()));
            }
        }
        r
    }

    /// Decodes the frames of a text payload. The text payload of
    /// well-formed packets whose options fit the options block decodes to
    /// those packets.
    fn read_text_frames(chars: &Vec<char>) -> (r: Result<Vec<Packet>, DecodingError>)
        ensures
            payload_outcome(r) == parse_frames_text(chars@),
            r matches Ok(v) ==> all_wf(views(v@)),
            forall|ps: Seq<PacketView>|
                all_wf(ps) && all_short_options(ps) && all_fit_text_frame(ps) && chars@
                    == #[trigger] frames_text(ps) ==> payload_outcome(r) == Ok::<
                    Seq<PacketView>,
                    DecodeFailure,
                >(ps),
    {
        let ghost s = chars@;
        let len: usize = chars.len();
        let mut out: Vec<Packet> = Vec::new();
        let mut pos: usize = 0;
        assert(s.skip(0) =~= s);
        assert(views(out@) =~= Seq::<PacketView>::empty());
        assert(parse_frames_text(s) == joined(views(out@), parse_frames_text(s.skip(0)))) by {
            match parse_frames_text(s) {
                Ok(ps) => {
                    assert(Seq::<PacketView>::empty() + ps =~= ps);
                },
                Err(_) => {},
            }
        }
        assert forall|ps: Seq<PacketView>| s == #[trigger] frames_text(ps) implies views(out@)
            == ps.take(0) && s.skip(0) == frames_text(ps.skip(0)) by {
            assert(ps.take(0) =~= Seq::<PacketView>::empty());
            assert(ps.skip(0) =~= ps);
        }
        while pos < len
            invariant
                pos <= len,
                len == chars@.len(),
                s == chars@,
                parse_frames_text(s) == joined(views(out@), parse_frames_text(s.skip(pos as int))),
                all_wf(views(out@)),
                forall|ps: Seq<PacketView>|
                    all_wf(ps) && all_short_options(ps) && all_fit_text_frame(ps) && s
                        == #[trigger] frames_text(ps) ==> out@.len() <= ps.len() && views(out@)
                        == ps.take(out@.len() as int) && s.skip(pos as int) == frames_text(
                        ps.skip(out@.len() as int),
                    ),
            decreases len - pos,
        {
            let ghost tail = s.skip(pos as int);
            let ghost k = out@.len() as int;
            let ghost done = views(out@);
            match Self::read_text_frame(chars, pos) {
                Err(e) => {
                    proof {
                        assert forall|ps: Seq<PacketView>|
                            all_wf(ps) && all_short_options(ps) && all_fit_text_frame(ps) && s
                                == #[trigger] frames_text(ps) implies false by {
                            lemma_next_text_frame(ps, k, tail);
                            let p = ps[k];
                            assert(p.wf() && has_short_options(p) && packet_text(p).len()
                                <= TEXT_FRAME_MAX);
                            assert(starts_with(tail, text_frame(p)));
                        }
                    }
                    return Err(e);
                },
                Ok((p, next)) => {
                    out.push(p);
                    proof {
                        assert(views(out@) =~= done.push(p@));
                        match parse_frames_text(s.skip(next as int)) {
                            Ok(ps) => {
                                assert(done + (seq![p@] + ps) =~= done.push(p@) + ps);
                            },
                            Err(_) => {},
                        }
                        assert forall|ps: Seq<PacketView>|
                            all_wf(ps) && all_short_options(ps) && all_fit_text_frame(ps) && s
                                == #[trigger] frames_text(ps) implies out@.len() <= ps.len()
                            && views(out@) == ps.take(out@.len() as int) && s.skip(next as int)
                            == frames_text(ps.skip(out@.len() as int)) by {
                            lemma_next_text_frame(ps, k, tail);
                            let q = ps[k];
                            assert(q.wf() && has_short_options(q) && packet_text(q).len()
                                <= TEXT_FRAME_MAX);
                            assert(starts_with(tail, text_frame(q)));
                            assert(p@ == q);
                            assert(ps.take(k + 1) =~= ps.take(k).push(q));
                            assert(tail.skip(text_frame(q).len() as int) =~= s.skip(next as int));
                        }
                    }
                    pos = next;
                },
            }
        }
        proof {
            assert(s.skip(pos as int) =~= Seq::<char>::empty());
            assert(views(out@) + Seq::<PacketView>::empty() =~= views(out@));
            assert forall|ps: Seq<PacketView>|
                all_wf(ps) && all_short_options(ps) && all_fit_text_frame(ps) && s
                    == #[trigger] frames_text(ps) implies views(out@) == ps by {
                let k = out@.len() as int;
                if k < ps.len() {
                    let p = ps[k];
                    let rest = ps.skip(k + 1);
                    assert(ps.skip(k) =~= seq![p] + rest);
                    lemma_frames_text_front(p, rest);
                    lemma_padded_decimal(packet_text(p).len(), TEXT_PREFIX as nat);
                    assert(frames_text(ps.skip(k)).len() >= TEXT_PREFIX);
                }
                assert(ps.take(ps.len() as int) =~= ps);
            }
        }
        Ok(out)
    }

    /// Decodes a payload of packets, in the form that the kind of `encoded`
    /// says. An empty payload holds no packet. What `encode_payload` makes
    /// of packets decodes to those packets; in text, where their options
    /// fit the seven-character block.
    pub fn decode_payload(encoded: RawData) -> (r: Result<Vec<Packet>, DecodingError>)
        ensures
            payload_outcome(r) == parse_payload(encoded@),
            r matches Ok(v) ==> all_wf(views(v@)),
            forall|ps: Seq<PacketView>, supports_binary: bool|
                all_wf(ps) && (supports_binary || (all_short_options(ps) && all_fit_text_frame(ps)))
                    && encoded@ == #[trigger] payload_encoding(ps, supports_binary)
                    ==> payload_outcome(r) == Ok::<Seq<PacketView>, DecodeFailure>(ps),
    {
        match encoded {
            RawData::Binary(bytes) => {
                let r: Result<Vec<Packet>, DecodingError> = Self::read_binary_frames(&bytes);
                proof {
                    assert forall|ps: Seq<PacketView>|
                        all_wf(ps) && bytes@ == #[trigger] frames_bytes(ps) implies payload_outcome(
                        r,
                    ) == Ok::<Seq<PacketView>, DecodeFailure>(ps) by {
                        law_payload_binary_round_trip(ps);
                    }
                }
                r
            },
            RawData::Text(text) => {
                let chars: Vec<char> = chars_of(text.as_str());
                Self::read_text_frames(&chars)
            },
        }
    }
}

} // verus!
