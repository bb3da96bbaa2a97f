//! Decoding of a single packet, from binary and from text.

use vstd::prelude::*;
use vstd::slice::slice_subrange;
use vstd::slice::slice_to_vec;
use crate::base64url::base64_bytes;
use crate::base64url::decode_base64;
use crate::encode::packet_bytes;
use crate::encode::packet_encoding;
use crate::encode::packet_text;
use crate::error::DecodeFailure;
use crate::error::DecodingError;
use crate::error::PacketError;
use crate::options::OptionsView;
use crate::options::PacketOptions;
use crate::options::parse_options_bytes;
use crate::options::parse_options_text;
use crate::packet::Packet;
use crate::packet::PacketView;
use crate::packet_type::PacketType;
use crate::packet_type::type_of_char;
use crate::packet_type::type_of_int;
use crate::raw_data::BINARY_MASK;
use crate::raw_data::BinaryType;
use crate::raw_data::MAX_PACKET_SIZE;
use crate::raw_data::PLAIN_TEXT_MASK;
use crate::raw_data::RawData;
use crate::raw_data::RawDataView;
use crate::round_trip::has_short_options;
use crate::round_trip::law_binary_round_trip;
use crate::round_trip::lemma_payload_text_round_trip;
use crate::round_trip::lemma_text_head_round_trip;
use crate::text::chars_of;
use crate::text::string_of;
use crate::text::text_of_bytes;
use crate::text::utf8_text;

verus! {

/// Number of bytes of the binary form of options.
pub const OPTIONS_BYTES: usize = 6;

/// Number of characters of the options block in the text form of a packet.
pub const OPTIONS_CHARS: usize = 7;

/// Data within the size limit is accepted; larger data is `DataTooLarge`.
pub open spec fn sized(d: RawDataView) -> Result<RawDataView, DecodeFailure> {
    if d.size() <= MAX_PACKET_SIZE {
        Ok(d)
    } else {
        Err(DecodeFailure::Packet(PacketError::DataTooLarge))
    }
}

/// What the binary form of a payload decodes to: a mask byte, then the
/// data. Text bytes are decoded as UTF-8, lossily.
pub open spec fn parse_payload_bytes(b: Seq<u8>) -> Result<RawDataView, DecodeFailure> {
    if b.len() == 0 {
        Err(DecodeFailure::MissingField)
    } else if b[0] == BINARY_MASK {
        sized(RawDataView::Binary(b.skip(1)))
    } else if b[0] == PLAIN_TEXT_MASK {
        sized(RawDataView::Text(utf8_text(b.skip(1))))
    } else {
        Err(DecodeFailure::InvalidFormat)
    }
}

/// What the text form of a payload decodes to: the separator, a data tag,
/// then the text itself or base64.
pub open spec fn parse_payload_text(s: Seq<char>) -> Result<RawDataView, DecodeFailure> {
    if s.len() == 0 {
        Err(DecodeFailure::MissingField)
    } else if s[0] != '-' {
        Err(DecodeFailure::InvalidFormat)
    } else if s.len() == 1 {
        Err(DecodeFailure::MissingField)
    } else if s[1] == 'b' {
        match base64_bytes(s.skip(2)) {
            Some(bytes) => sized(RawDataView::Binary(bytes)),
            None => Err(DecodeFailure::Base64),
        }
    } else if s[1] == 't' {
        sized(RawDataView::Text(s.skip(2)))
    } else {
        Err(DecodeFailure::InvalidFormat)
    }
}

/// The packet made of decoded parts, or the first failure among them.
pub open spec fn assemble(
    ptype: PacketType,
    options: Result<Option<OptionsView>, DecodeFailure>,
    payload: Result<Option<RawDataView>, DecodeFailure>,
) -> Result<PacketView, DecodeFailure> {
    match options {
        Err(e) => Err(e),
        Ok(options) => match payload {
            Err(e) => Err(e),
            Ok(payload) => Ok(PacketView { ptype, options, payload }),
        },
    }
}

/// A decoded part that is present.
pub open spec fn present<A>(r: Result<A, DecodeFailure>) -> Result<Option<A>, DecodeFailure> {
    match r {
        Ok(a) => Ok(Some(a)),
        Err(e) => Err(e),
    }
}

/// What the binary form of a packet decodes to.
pub open spec fn parse_packet_bytes(b: Seq<u8>) -> Result<PacketView, DecodeFailure> {
    if b.len() < 3 {
        Err(DecodeFailure::MissingField)
    } else {
        match type_of_int(b[0]) {
            None => Err(DecodeFailure::Packet(PacketError::InvalidPacketType)),
            Some(ptype) => {
                if b[1] > 1 || b[2] > 1 {
                    Err(DecodeFailure::InvalidFormat)
                } else if b[1] == 1 && b.len() < 3 + OPTIONS_BYTES {
                    Err(DecodeFailure::Packet(PacketError::InvalidPacketOptions))
                } else {
                    let data_at: int = if b[1] == 1 {
                        3 + OPTIONS_BYTES
                    } else {
                        3
                    };
                    assemble(
                        ptype,
                        if b[1] == 1 {
                            present(parse_options_bytes(b.subrange(3, data_at)))
                        } else {
                            Ok(None)
                        },
                        if b[2] == 1 {
                            present(parse_payload_bytes(b.skip(data_at)))
                        } else {
                            Ok(None)
                        },
                    )
                }
            },
        }
    }
}

/// The presence flag that a character stands for.
pub open spec fn parse_flag_char(c: char) -> Option<bool> {
    if c == '0' {
        Some(false)
    } else if c == '1' {
        Some(true)
    } else {
        None
    }
}

/// What the head of the text form decodes to: the type, the options, and
/// the place where the payload starts, where the packet has one.
pub open spec fn parse_text_head(s: Seq<char>) -> Result<
    (PacketType, Option<OptionsView>, Option<int>),
    DecodeFailure,
> {
    if s.len() < 3 {
        Err(DecodeFailure::MissingField)
    } else {
        match type_of_char(s[0]) {
            None => Err(DecodeFailure::Packet(PacketError::InvalidPacketType)),
            Some(ptype) => match (parse_flag_char(s[1]), parse_flag_char(s[2])) {
                (Some(has_options), Some(has_data)) => {
                    if has_options && s.len() < 3 + OPTIONS_CHARS {
                        Err(DecodeFailure::Packet(PacketError::InvalidPacketOptions))
                    } else {
                        let data_at: int = if has_options {
                            3 + OPTIONS_CHARS
                        } else {
                            3
                        };
                        let payload_at: Option<int> = if has_data {
                            Some(data_at)
                        } else {
                            None
                        };
                        if has_options {
                            match parse_options_text(s.subrange(3, data_at)) {
                                Ok(o) => Ok((ptype, Some(o), payload_at)),
                                Err(e) => Err(e),
                            }
                        } else {
                            Ok((ptype, None, payload_at))
                        }
                    }
                },
                _ => Err(DecodeFailure::InvalidFormat),
            },
        }
    }
}

/// What the text form of a packet decodes to.
pub open spec fn parse_packet_text(s: Seq<char>) -> Result<PacketView, DecodeFailure> {
    match parse_text_head(s) {
        Err(e) => Err(e),
        Ok((ptype, options, None)) => Ok(PacketView { ptype, options, payload: None }),
        Ok((ptype, options, Some(at))) => assemble(
            ptype,
            Ok(options),
            present(parse_payload_text(s.skip(at))),
        ),
    }
}

/// What an encoded packet decodes to, in the form that its kind says.
pub open spec fn parse_packet(encoded: RawDataView) -> Result<PacketView, DecodeFailure> {
    match encoded {
        RawDataView::Binary(b) => parse_packet_bytes(b),
        RawDataView::Text(s) => parse_packet_text(s),
    }
}

/// The outcome of decoding a packet, as mathematical values.
pub open spec fn packet_outcome(r: Result<Packet, DecodingError>) -> Result<
    PacketView,
    DecodeFailure,
> {
    match r {
        Ok(p) => Ok(p@),
        Err(e) => Err(e@),
    }
}

/// What is known of base64 decoding once it has run on `text`: the base64
/// text of any bytes stands for those bytes.
pub open spec fn base64_is_exact_on(text: Seq<char>) -> bool {
    forall|data: Seq<u8>|
        text == #[trigger] crate::base64url::base64_text(data) ==> base64_bytes(text) == Some(
            data,
        )
}

impl Packet {
    /// Puts `data` into `packet`, refusing what is over the size limit.
    fn with_payload(packet: Packet, data: RawData) -> (r: Result<Packet, DecodingError>)
        ensures
            packet_outcome(r) == assemble(packet@.ptype, Ok(packet@.options), present(sized(data@))),
            r matches Ok(p) ==> p@.wf(),
    {
        let mut packet = packet;
        match packet.with_data(data) {
            Ok(()) => Ok(packet),
            Err(e) => Err(DecodingError::Packet(e)),
        }
    }

    /// Decodes the binary payload found in `bytes[from..to]` into `packet`.
    fn read_payload_binary(packet: Packet, bytes: &Vec<u8>, from: usize, to: usize) -> (r: Result<
        Packet,
        DecodingError,
    >)
        requires
            from <= to <= bytes@.len(),
        ensures
            packet_outcome(r) == assemble(
                packet@.ptype,
                Ok(packet@.options),
                present(parse_payload_bytes(bytes@.subrange(from as int, to as int))),
            ),
            r matches Ok(p) ==> p@.wf(),
    {
        let ghost b = bytes@.subrange(from as int, to as int);
        if from == to {
            return Err(DecodingError::MissingField);
        }
        assert(b[0] == bytes@[from as int]);
        assert(b.skip(1) =~= bytes@.subrange(from + 1, to as int));
        let mask: u8 = bytes[from];
        if mask == BINARY_MASK {
            let body: Vec<u8> = slice_to_vec(slice_subrange(bytes.as_slice(), from + 1, to));
            Self::with_payload(packet, RawData::Binary(body))
        } else if mask == PLAIN_TEXT_MASK {
            let body: String = text_of_bytes(slice_subrange(bytes.as_slice(), from + 1, to));
            Self::with_payload(packet, RawData::Text(body))
        } else {
            Err(DecodingError::InvalidFormat)
        }
    }

    /// Decodes the text payload found in `chars[from..to]` into `packet`.
    fn read_payload_text(packet: Packet, chars: &Vec<char>, from: usize, to: usize) -> (r: Result<
        Packet,
        DecodingError,
    >)
        requires
            from <= to <= chars@.len(),
        ensures
            packet_outcome(r) == assemble(
                packet@.ptype,
                Ok(packet@.options),
                present(parse_payload_text(chars@.subrange(from as int, to as int))),
            ),
            r matches Ok(p) ==> p@.wf(),
            from + 1 < to && chars@[from as int] == '-' && chars@[from + 1] == 'b'
                ==> base64_is_exact_on(chars@.subrange(from + 2, to as int)),
    {
        let ghost s = chars@.subrange(from as int, to as int);
        if from == to {
            return Err(DecodingError::MissingField);
        }
        assert(s[0] == chars@[from as int]);
        if chars[from] != '-' {
            return Err(DecodingError::InvalidFormat);
        }
        if to - from == 1 {
            return Err(DecodingError::MissingField);
        }
        assert(s[1] == chars@[from + 1]);
        assert(s.skip(2) =~= chars@.subrange(from + 2, to as int));
        let tag: char = chars[from + 1];
        if tag == 'b' {
            let body: String = string_of(chars, from + 2, to);
            match decode_base64(body.as_str()) {
                Ok(bytes) => Self::with_payload(packet, RawData::Binary(bytes)),
                Err(e) => Err(DecodingError::Base64(e)),
            }
        } else if tag == 't' {
            let body: String = string_of(chars, from + 2, to);
            Self::with_payload(packet, RawData::Text(body))
        } else {
            Err(DecodingError::InvalidFormat)
        }
    }

    /// Decodes the binary form found in `bytes[from..to]`.
    pub fn read_binary(bytes: &Vec<u8>, from: usize, to: usize) -> (r: Result<
        Packet,
        DecodingError,
    >)
        requires
            from <= to <= bytes@.len(),
        ensures
            packet_outcome(r) == parse_packet_bytes(bytes@.subrange(from as int, to as int)),
            r matches Ok(p) ==> p@.wf(),
    {
        let ghost b = bytes@.subrange(from as int, to as int);
        if to - from < 3 {
            return Err(DecodingError::MissingField);
        }
        assert(b[0] == bytes@[from + 0] && b[1] == bytes@[from + 1] && b[2] == bytes@[from + 2]);
        let ptype: PacketType = match PacketType::from_int(bytes[from]) {
            Some(t) => t,
            None => {
                return Err(DecodingError::Packet(PacketError::InvalidPacketType));
            },
        };
        let options_flag: u8 = bytes[from + 1];
        let data_flag: u8 = bytes[from + 2];
        if options_flag > 1 || data_flag > 1 {
            return Err(DecodingError::InvalidFormat);
        }
        let mut packet: Packet = Packet::new(ptype);
        let mut data_at: usize = from + 3;
        if options_flag == 1 {
            if to - from < 3 + OPTIONS_BYTES {
                return Err(DecodingError::Packet(PacketError::InvalidPacketOptions));
            }
            data_at = from + 3 + OPTIONS_BYTES;
            assert(b.subrange(3, 3 + OPTIONS_BYTES as int) =~= bytes@.subrange(
                from + 3,
                data_at as int,
            ));
            match PacketOptions::read_binary(bytes, from + 3, data_at) {
                Ok(o) => {
                    packet.with_options(o);
                },
                Err(e) => {
                    return Err(e);
                },
            }
        }
        assert(b.skip(data_at - from) =~= bytes@.subrange(data_at as int, to as int));
        if data_flag == 1 {
            Self::read_payload_binary(packet, bytes, data_at, to)
        } else {
            Ok(packet)
        }
    }

    /// Decodes the head of the text form found in `chars[from..to]`: a
    /// packet without payload, and the place where its payload starts.
    fn read_text_head(chars: &Vec<char>, from: usize, to: usize) -> (r: Result<
        (Packet, Option<usize>),
        DecodingError,
    >)
        requires
            from <= to <= chars@.len(),
        ensures
            match r {
                Ok((packet, at)) => parse_text_head(chars@.subrange(from as int, to as int)) == Ok::<
                    (PacketType, Option<OptionsView>, Option<int>),
                    DecodeFailure,
                >(
                    (
                        packet@.ptype,
                        packet@.options,
                        match at {
                            Some(a) => Some(a - from),
                            None => None,
                        },
                    ),
                ) && packet@.payload is None && packet@.wf() && (at matches Some(a) ==> from + 3
                    <= a <= to),
                Err(e) => parse_text_head(chars@.subrange(from as int, to as int)) == Err::<
                    (PacketType, Option<OptionsView>, Option<int>),
                    DecodeFailure,
                >(e@),
            },
    {
        let ghost s = chars@.subrange(from as int, to as int);
        if to - from < 3 {
            return Err(DecodingError::MissingField);
        }
        assert(s[0] == chars@[from + 0] && s[1] == chars@[from + 1] && s[2] == chars@[from + 2]);
        let ptype: PacketType = match PacketType::from_char(chars[from]) {
            Some(t) => t,
            None => {
                return Err(DecodingError::Packet(PacketError::InvalidPacketType));
            },
        };
        let has_options: bool = if chars[from + 1] == '1' {
            true
        } else if chars[from + 1] == '0' {
            false
        } else {
            return Err(DecodingError::InvalidFormat);
        };
        let has_data: bool = if chars[from + 2] == '1' {
            true
        } else if chars[from + 2] == '0' {
            false
        } else {
            return Err(DecodingError::InvalidFormat);
        };
        let mut packet: Packet = Packet::new(ptype);
        let mut data_at: usize = from + 3;
        if has_options {
            if to - from < 3 + OPTIONS_CHARS {
                return Err(DecodingError::Packet(PacketError::InvalidPacketOptions));
            }
            data_at = from + 3 + OPTIONS_CHARS;
            assert(s.subrange(3, 3 + OPTIONS_CHARS as int) =~= chars@.subrange(
                from + 3,
                data_at as int,
            ));
            match PacketOptions::read_text(chars, from + 3, data_at) {
                Ok(o) => {
                    packet.with_options(o);
                },
                Err(e) => {
                    return Err(e);
                },
            }
        }
        if has_data {
            Ok((packet, Some(data_at)))
        } else {
            Ok((packet, None))
        }
    }

    /// Decodes the text form found in `chars[from..to]`. The text form of
    /// a well-formed packet whose options block has seven characters
    /// decodes to that packet.
    pub fn read_text(chars: &Vec<char>, from: usize, to: usize) -> (r: Result<
        Packet,
        DecodingError,
    >)
        requires
            from <= to <= chars@.len(),
        ensures
            packet_outcome(r) == parse_packet_text(chars@.subrange(from as int, to as int)),
            r matches Ok(p) ==> p@.wf(),
            forall|p: PacketView|
                p.wf() && has_short_options(p) && chars@.subrange(from as int, to as int)
                    == #[trigger] packet_text(p) ==> packet_outcome(r) == Ok::<
                    PacketView,
                    DecodeFailure,
                >(p),
    {
        let ghost s = chars@.subrange(from as int, to as int);
        let r: Result<Packet, DecodingError> = match Self::read_text_head(chars, from, to) {
            Err(e) => Err(e),
            Ok((packet, None)) => Ok(packet),
            Ok((packet, Some(at))) => {
                assert(s.skip(at - from) =~= chars@.subrange(at as int, to as int));
                Self::read_payload_text(packet, chars, at, to)
            },
        };
        proof {
            assert forall|p: PacketView|
                p.wf() && has_short_options(p) && s == #[trigger] packet_text(p) implies packet_outcome(
                r,
            ) == Ok::<PacketView, DecodeFailure>(p) by {
                lemma_text_head_round_trip(p);
                match p.payload {
                    Some(d) => {
                        let at: int = if p.options is Some {
                            from + 3 + OPTIONS_CHARS
                        } else {
                            from + 3
                        };
                        let body = chars@.subrange(at, to as int);
                        assert(body =~= s.skip(at - from));
                        assert(body == crate::encode::payload_text(d));
                        assert(body[0] == chars@[at] && body[1] == chars@[at + 1]);
                        match d {
                            RawDataView::Binary(b) => {
                                assert(chars@.subrange(at + 2, to as int) =~= body.skip(2));
                                assert(body.skip(2) =~= crate::base64url::base64_text(b));
                                assert(base64_is_exact_on(chars@.subrange(at + 2, to as int)));
                            },
                            RawDataView::Text(_) => {},
                        }
                        lemma_payload_text_round_trip(d);
                    },
                    None => {},
                }
            }
        }
        r
    }

    /// Decodes a packet from its binary form. The binary form of a
    /// well-formed packet decodes to that packet.
    pub fn decode_binary(encoded: BinaryType) -> (r: Result<Packet, DecodingError>)
        ensures
            packet_outcome(r) == parse_packet_bytes(encoded@),
            r matches Ok(p) ==> p@.wf(),
            forall|p: PacketView|
                p.wf() && encoded@ == #[trigger] packet_bytes(p) ==> packet_outcome(r) == Ok::<
                    PacketView,
                    DecodeFailure,
                >(p),
    {
        assert(encoded@.subrange(0, encoded@.len() as int) =~= encoded@);
        let n: usize = encoded.len();
        let r: Result<Packet, DecodingError> = Self::read_binary(&encoded, 0, n);
        proof {
            assert forall|p: PacketView|
                p.wf() && encoded@ == #[trigger] packet_bytes(p) implies packet_outcome(r) == Ok::<
                PacketView,
                DecodeFailure,
            >(p) by {
                law_binary_round_trip(p);
            }
        }
        r
    }

    /// Decodes a packet from its text form. The text form of a well-formed
    /// packet whose options block has seven characters decodes to that
    /// packet.
    pub fn decode_text(encoded: String) -> (r: Result<Packet, DecodingError>)
        ensures
            packet_outcome(r) == parse_packet_text(encoded@),
            r matches Ok(p) ==> p@.wf(),
            forall|p: PacketView|
                p.wf() && has_short_options(p) && encoded@ == #[trigger] packet_text(p)
                    ==> packet_outcome(r) == Ok::<PacketView, DecodeFailure>(p),
    {
        let chars: Vec<char> = chars_of(encoded.as_str());
        assert(chars@.subrange(0, chars@.len() as int) =~= chars@);
        let n: usize = chars.len();
        Self::read_text(&chars, 0, n)
    }

    /// Decodes a packet from either form, as the kind of `encoded` says.
    /// What `encode` makes of a well-formed packet decodes to that packet;
    /// in text, where its options block has seven characters.
    pub fn decode(encoded: RawData) -> (r: Result<Packet, DecodingError>)
        ensures
            packet_outcome(r) == parse_packet(encoded@),
            r matches Ok(p) ==> p@.wf(),
            forall|p: PacketView, supports_binary: bool|
                p.wf() && (supports_binary || has_short_options(p)) && encoded@
                    == #[trigger] packet_encoding(p, supports_binary) ==> packet_outcome(r) == Ok::<
                    PacketView,
                    DecodeFailure,
                >(p),
    {
        match encoded {
            RawData::Binary(bytes) => Self::decode_binary(bytes),
            RawData::Text(text) => Self::decode_text(text),
        }
    }
}

} // verus!
