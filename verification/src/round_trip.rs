//! Decoding undoes encoding: the laws that tie the two halves of the codec
//! together.

use vstd::prelude::*;
use vstd::utf8::encode_utf8;
use vstd::utf8::encode_utf8_decode_utf8;
use vstd::utf8::encode_utf8_valid_utf8;
use crate::base64url::base64_bytes;
use crate::base64url::base64_text;
use crate::decimal::decimal;
use crate::decode::OPTIONS_CHARS;
use crate::decode::parse_packet;
use crate::decode::parse_packet_bytes;
use crate::decode::parse_packet_text;
use crate::decode::parse_payload_bytes;
use crate::decode::parse_payload_text;
use crate::decode::parse_text_head;
use crate::encode::packet_bytes;
use crate::encode::packet_encoding;
use crate::encode::packet_text;
use crate::encode::payload_bytes;
use crate::encode::payload_text;
use crate::error::DecodeFailure;
use crate::error::PacketError;
use crate::options::OptionsView;
use crate::options::law_options_binary_round_trip;
use crate::options::law_options_text_round_trip;
use crate::options::options_bytes;
use crate::options::options_text;
use crate::packet::PacketView;
use crate::packet_type::PacketType;
use crate::raw_data::MAX_PACKET_SIZE;
use crate::raw_data::RawDataView;

verus! {

/// Whether the text form of `o` has the seven characters that the text form
/// of a packet gives to its options block: both chunking numbers are
/// written with a single digit.
pub open spec fn fits_text_block(o: OptionsView) -> bool {
    o.wire_sequence() < 10 && o.wire_total() < 10
}

/// Whether the options of `p`, where it has any, fit the options block.
pub open spec fn has_short_options(p: PacketView) -> bool {
    p.options matches Some(o) ==> fits_text_block(o)
}

/// Whether base64 decoding recovers `data` from its base64 text. The base64
/// engine vouches for this of every byte sequence it is run on.
pub open spec fn base64_recovers(data: Seq<u8>) -> bool {
    base64_bytes(base64_text(data)) == Some(data)
}

/// Whether base64 decoding recovers the payload of `p`, where it is binary.
pub open spec fn base64_recovers_payload(p: PacketView) -> bool {
    p.payload matches Some(RawDataView::Binary(b)) ==> base64_recovers(b)
}

/// Options that fit the block have a text form of exactly seven characters.
pub proof fn lemma_short_options_text(o: OptionsView)
    requires
        fits_text_block(o),
    ensures
        options_text(o).len() == OPTIONS_CHARS,
{
    assert(decimal(o.wire_sequence() as nat).len() == 1);
    assert(decimal(o.wire_total() as nat).len() == 1);
}

/// A payload within the size limit is recovered from its binary form.
pub proof fn lemma_payload_bytes_round_trip(d: RawDataView)
    requires
        d.size() <= MAX_PACKET_SIZE,
    ensures
        parse_payload_bytes(payload_bytes(d)) == Ok::<RawDataView, DecodeFailure>(d),
{
    let b = payload_bytes(d);
    match d {
        RawDataView::Text(t) => {
            encode_utf8_valid_utf8(t);
            encode_utf8_decode_utf8(t);
            assert(b.skip(1) =~= encode_utf8(t));
        },
        RawDataView::Binary(bytes) => {
            assert(b.skip(1) =~= bytes);
        },
    }
}

/// A payload within the size limit is recovered from its text form, given
/// that base64 decoding recovers binary data.
pub proof fn lemma_payload_text_round_trip(d: RawDataView)
    requires
        d.size() <= MAX_PACKET_SIZE,
        d matches RawDataView::Binary(b) ==> base64_recovers(b),
    ensures
        parse_payload_text(payload_text(d)) == Ok::<RawDataView, DecodeFailure>(d),
{
    let s = payload_text(d);
    match d {
        RawDataView::Text(t) => {
            assert(s.skip(2) =~= t);
        },
        RawDataView::Binary(bytes) => {
            assert(s.skip(2) =~= base64_text(bytes));
        },
    }
}

/// Round-trip law, binary form: the binary encoding of a well-formed packet
/// decodes to that packet.
pub proof fn law_binary_round_trip(p: PacketView)
    requires
        p.wf(),
    ensures
        parse_packet_bytes(packet_bytes(p)) == Ok::<PacketView, DecodeFailure>(p),
{
    let b = packet_bytes(p);
    assert(b[0] == p.ptype.spec_int());
    let data_at: int = if p.options is Some {
        9
    } else {
        3
    };
    match p.options {
        Some(o) => {
            law_options_binary_round_trip(o);
            assert(b.subrange(3, 9) =~= options_bytes(o));
        },
        None => {},
    }
    match p.payload {
        Some(d) => {
            lemma_payload_bytes_round_trip(d);
            assert(b.skip(data_at) =~= payload_bytes(d));
        },
        None => {},
    }
}

/// The head of the text form of a well-formed packet with short options
/// decodes to the packet's type and options, and its payload starts where
/// the head ends.
pub proof fn lemma_text_head_round_trip(p: PacketView)
    requires
        p.wf(),
        has_short_options(p),
    ensures
        parse_text_head(packet_text(p)) == Ok::<
            (PacketType, Option<OptionsView>, Option<int>),
            DecodeFailure,
        >(
            (
                p.ptype,
                p.options,
                if p.payload is Some {
                    Some(
                        if p.options is Some {
                            3 + OPTIONS_CHARS as int
                        } else {
                            3int
                        },
                    )
                } else {
                    None
                },
            ),
        ),
        p.payload matches Some(d) ==> packet_text(p).skip(
            if p.options is Some {
                3 + OPTIONS_CHARS as int
            } else {
                3int
            },
        ) == payload_text(d),
{
    let s = packet_text(p);
    assert(s[0] == p.ptype.spec_char());
    let data_at: int = if p.options is Some {
        10
    } else {
        3
    };
    match p.options {
        Some(o) => {
            lemma_short_options_text(o);
            law_options_text_round_trip(o);
            assert(s.subrange(3, 10) =~= options_text(o));
        },
        None => {},
    }
    match p.payload {
        Some(d) => {
            assert(s.skip(data_at) =~= payload_text(d));
        },
        None => {},
    }
}

/// Round-trip law, text form: the text encoding of a well-formed packet
/// whose options fit the seven-character block decodes to that packet,
/// base64 decoding recovering its binary payload, as the base64 engine
/// vouches.
pub proof fn law_text_round_trip(p: PacketView)
    requires
        p.wf(),
        has_short_options(p),
    ensures
        base64_recovers_payload(p) ==> parse_packet_text(packet_text(p)) == Ok::<
            PacketView,
            DecodeFailure,
        >(p),
{
    lemma_text_head_round_trip(p);
    if base64_recovers_payload(p) {
        match p.payload {
            Some(d) => {
                lemma_payload_text_round_trip(d);
            },
            None => {},
        }
    }
}

/// Round-trip law: whichever form a transport asks for, decoding the
/// encoding of a well-formed packet yields the packet. The text form asks
/// for options that fit its block.
pub proof fn law_round_trip(p: PacketView, supports_binary: bool)
    requires
        p.wf(),
        supports_binary || has_short_options(p),
    ensures
        supports_binary || base64_recovers_payload(p) ==> parse_packet(
            packet_encoding(p, supports_binary),
        ) == Ok::<PacketView, DecodeFailure>(p),
{
    if supports_binary {
        law_binary_round_trip(p);
    } else {
        law_text_round_trip(p);
    }
}

/// Cross-encoding law: a binary payload survives the text form, and a text
/// payload survives the binary form.
pub proof fn law_cross_encoding(ptype: PacketType, bytes: Seq<u8>, text: Seq<char>)
    requires
        bytes.len() <= MAX_PACKET_SIZE,
        encode_utf8(text).len() <= MAX_PACKET_SIZE,
    ensures
        base64_recovers(bytes) ==> parse_packet_text(
            packet_text(
                PacketView { ptype, options: None, payload: Some(RawDataView::Binary(bytes)) },
            ),
        ) == Ok::<PacketView, DecodeFailure>(
            PacketView { ptype, options: None, payload: Some(RawDataView::Binary(bytes)) },
        ),
        parse_packet_bytes(
            packet_bytes(
                PacketView { ptype, options: None, payload: Some(RawDataView::Text(text)) },
            ),
        ) == Ok::<PacketView, DecodeFailure>(
            PacketView { ptype, options: None, payload: Some(RawDataView::Text(text)) },
        ),
{
    law_text_round_trip(
        PacketView { ptype, options: None, payload: Some(RawDataView::Binary(bytes)) },
    );
    law_binary_round_trip(
        PacketView { ptype, options: None, payload: Some(RawDataView::Text(text)) },
    );
}

/// Size-bound law, decoding side: an encoded packet whose payload exceeds
/// the size limit decodes to `DataTooLarge`, in either form.
pub proof fn law_oversized_payload_is_rejected(p: PacketView)
    requires
        p.options matches Some(o) ==> o.wf() && fits_text_block(o),
        p.payload matches Some(d) && d.size() > MAX_PACKET_SIZE,
    ensures
        parse_packet_bytes(packet_bytes(p)) == Err::<PacketView, DecodeFailure>(
            DecodeFailure::Packet(PacketError::DataTooLarge),
        ),
        base64_recovers_payload(p) ==> parse_packet_text(packet_text(p)) == Err::<
            PacketView,
            DecodeFailure,
        >(DecodeFailure::Packet(PacketError::DataTooLarge)),
{
    let d = p.payload->0;
    let b = packet_bytes(p);
    let s = packet_text(p);
    assert(b[0] == p.ptype.spec_int());
    assert(s[0] == p.ptype.spec_char());
    let byte_at: int = if p.options is Some {
        9
    } else {
        3
    };
    let char_at: int = if p.options is Some {
        10
    } else {
        3
    };
    match p.options {
        Some(o) => {
            law_options_binary_round_trip(o);
            assert(b.subrange(3, 9) =~= options_bytes(o));
            lemma_short_options_text(o);
            law_options_text_round_trip(o);
            assert(s.subrange(3, 10) =~= options_text(o));
        },
        None => {},
    }
    assert(b.skip(byte_at) =~= payload_bytes(d));
    assert(s.skip(char_at) =~= payload_text(d));
    match d {
        RawDataView::Text(t) => {
            encode_utf8_valid_utf8(t);
            encode_utf8_decode_utf8(t);
            assert(payload_bytes(d).skip(1) =~= encode_utf8(t));
            assert(payload_text(d).skip(2) =~= t);
        },
        RawDataView::Binary(bytes) => {
            assert(payload_bytes(d).skip(1) =~= bytes);
            assert(payload_text(d).skip(2) =~= base64_text(bytes));
        },
    }
}

} // verus!
