//! The fixed-shape header of a packet and its two encodings.

use vstd::prelude::*;
use crate::decimal::all_digits;
use crate::decimal::decimal;
use crate::decimal::is_digit;
use crate::decimal::lemma_decimal;
use crate::decimal::parse_decimal_up_to;
use crate::decimal::parse_number;
use crate::decimal::push_decimal;
use crate::error::DecodeFailure;
use crate::error::DecodingError;
use crate::error::PacketError;
use crate::raw_data::BinaryType;
use crate::raw_data::RawData;
use crate::raw_data::RawDataView;
use crate::text::chars_of;
use crate::text::free_of;
use crate::text::lemma_split_append;
use crate::text::lemma_split_single;
use crate::text::split;
use crate::text::split_fields;

verus! {

/// The mathematical content of a `PacketOptions`.
pub struct OptionsView {
    /// Whether the payload is compressed.
    pub compress: bool,
    /// Whether the payload is encrypted.
    pub encrypt: bool,
    /// The sequence number and the total number of chunks, where the packet
    /// is a fragment.
    pub chunking: Option<(u16, u16)>,
}

/// Whether `sequence` of `total` names a fragment: numbering starts at one
/// and ends at the total.
pub open spec fn valid_chunking(sequence: u16, total: u16) -> bool {
    1 <= sequence && sequence <= total
}

impl OptionsView {
    /// Chunking, where present, names a fragment.
    pub open spec fn wf(self) -> bool {
        self.chunking matches Some((s, t)) ==> valid_chunking(s, t)
    }

    /// The sequence number as it is written: 0 where chunking is unset.
    pub open spec fn wire_sequence(self) -> u16 {
        match self.chunking {
            Some((s, _)) => s,
            None => 0,
        }
    }

    /// The total number of chunks as it is written: 0 where chunking is unset.
    pub open spec fn wire_total(self) -> u16 {
        match self.chunking {
            Some((_, t)) => t,
            None => 0,
        }
    }
}

/// The byte that stands for a flag.
pub open spec fn flag_byte(b: bool) -> u8 {
    if b {
        1
    } else {
        0
    }
}

/// The character that stands for a flag.
pub open spec fn flag_char(b: bool) -> char {
    if b {
        '1'
    } else {
        '0'
    }
}

/// The two bytes of `n`, most significant first.
pub open spec fn be16(n: u16) -> Seq<u8> {
    seq![(n / 256) as u8, (n % 256) as u8]
}

/// The number whose two bytes, most significant first, are `hi` and `lo`.
pub open spec fn from_be16(hi: u8, lo: u8) -> u16 {
    (hi * 256 + lo) as u16
}

/// The binary form of options: six bytes.
pub open spec fn options_bytes(o: OptionsView) -> Seq<u8> {
    seq![flag_byte(o.compress), flag_byte(o.encrypt)] + be16(o.wire_sequence()) + be16(
        o.wire_total(),
    )
}

/// The text form of options: four decimal fields separated by colons.
pub open spec fn options_text(o: OptionsView) -> Seq<char> {
    seq![flag_char(o.compress), ':', flag_char(o.encrypt), ':'] + decimal(
        o.wire_sequence() as nat,
    ) + seq![':'] + decimal(o.wire_total() as nat)
}

/// The chunking that a written pair of numbers stands for: two zeros leave
/// it unset, any other pair must name a fragment.
pub open spec fn chunking_of(sequence: u16, total: u16) -> Result<Option<(u16, u16)>, DecodeFailure> {
    if sequence == 0 && total == 0 {
        Ok(None)
    } else if valid_chunking(sequence, total) {
        Ok(Some((sequence, total)))
    } else {
        Err(DecodeFailure::Packet(PacketError::InvalidChunkingParameters))
    }
}

/// The options with the given flags and written chunking numbers.
pub open spec fn options_of(compress: bool, encrypt: bool, sequence: u16, total: u16) -> Result<
    OptionsView,
    DecodeFailure,
> {
    match chunking_of(sequence, total) {
        Ok(chunking) => Ok(OptionsView { compress, encrypt, chunking }),
        Err(e) => Err(e),
    }
}

/// What decoding the binary form yields: exactly six bytes, flags 0 or 1.
pub open spec fn parse_options_bytes(b: Seq<u8>) -> Result<OptionsView, DecodeFailure> {
    if b.len() != 6 || b[0] > 1 || b[1] > 1 {
        Err(DecodeFailure::Packet(PacketError::InvalidPacketOptions))
    } else {
        options_of(b[0] == 1, b[1] == 1, from_be16(b[2], b[3]), from_be16(b[4], b[5]))
    }
}

/// The flag that a text field stands for.
pub open spec fn parse_flag(field: Seq<char>) -> Option<bool> {
    if field == seq!['0'] {
        Some(false)
    } else if field == seq!['1'] {
        Some(true)
    } else {
        None
    }
}

/// What decoding the text form yields: exactly four fields, flags `0` or
/// `1`, numbers that fit sixteen bits.
pub open spec fn parse_options_text(s: Seq<char>) -> Result<OptionsView, DecodeFailure> {
    let f = split(s, ':');
    if f.len() != 4 {
        Err(DecodeFailure::Packet(PacketError::InvalidPacketOptions))
    } else {
        match (
            parse_flag(f[0]),
            parse_flag(f[1]),
            parse_decimal_up_to(f[2], 65535),
            parse_decimal_up_to(f[3], 65535),
        ) {
            (Some(c), Some(e), Some(sequence), Some(total)) => options_of(
                c,
                e,
                sequence as u16,
                total as u16,
            ),
            _ => Err(DecodeFailure::Packet(PacketError::InvalidPacketOptions)),
        }
    }
}

/// The outcome of decoding options, as mathematical values.
pub open spec fn options_outcome(r: Result<PacketOptions, DecodingError>) -> Result<
    OptionsView,
    DecodeFailure,
> {
    match r {
        Ok(o) => Ok(o@),
        Err(e) => Err(e@),
    }
}

/// Options for packet transmission: the packet's header.
#[derive(Debug, Clone, Copy, PartialEq, Eq)]
pub struct PacketOptions {
    compress: bool,
    encrypt: bool,
    sequence: Option<u16>,
    total_chunks: Option<u16>,
}

impl View for PacketOptions {
    type V = OptionsView;

    closed spec fn view(&self) -> OptionsView {
        OptionsView {
            compress: self.compress,
            encrypt: self.encrypt,
            chunking: match (self.sequence, self.total_chunks) {
                (Some(s), Some(t)) => Some((s, t)),
                _ => None,
            },
        }
    }
}

impl Default for PacketOptions {
    /// Options with both flags off and chunking unset.
    fn default() -> (o: Self)
        ensures
            o@ == (OptionsView { compress: false, encrypt: false, chunking: None }),
            o@.wf(),
    {
        PacketOptions { compress: false, encrypt: false, sequence: None, total_chunks: None }
    }
}

impl PacketOptions {
    /// The chunking numbers are both absent, or both present and name a
    /// fragment. Every value of the type satisfies this.
    #[verifier::type_invariant]
    pub closed spec fn inv(self) -> bool {
        match (self.sequence, self.total_chunks) {
            (Some(s), Some(t)) => valid_chunking(s, t),
            (None, None) => true,
            _ => false,
        }
    }

    /// The content of options that satisfy the invariant is well formed.
    pub proof fn lemma_inv_wf(self)
        requires
            self.inv(),
        ensures
            self@.wf(),
    {
    }

    /// Options with the given flags and chunking. The two chunking numbers
    /// must be both absent, or both present and name a fragment.
    pub fn new(
        compress: bool,
        encrypt: bool,
        sequence: Option<u16>,
        total_chunks: Option<u16>,
    ) -> (r: Result<Self, PacketError>)
        ensures
            match (sequence, total_chunks) {
                (None, None) => r is Ok && r->Ok_0@ == (OptionsView {
                    compress,
                    encrypt,
                    chunking: None,
                }),
                (Some(s), Some(t)) => if valid_chunking(s, t) {
                    r is Ok && r->Ok_0@ == (OptionsView { compress, encrypt, chunking: Some((s, t)) })
                } else {
                    r == Err::<Self, PacketError>(PacketError::InvalidChunkingParameters)
                },
                _ => r == Err::<Self, PacketError>(PacketError::InvalidChunkingParameters),
            },
            r matches Ok(o) ==> o@.wf(),
    {
        match (sequence, total_chunks) {
            (None, None) => Ok(
                PacketOptions { compress, encrypt, sequence: None, total_chunks: None },
            ),
            (Some(s), Some(t)) => {
                if s == 0 || t == 0 || s > t {
                    Err(PacketError::InvalidChunkingParameters)
                } else {
                    Ok(PacketOptions { compress, encrypt, sequence: Some(s), total_chunks: Some(t) })
                }
            },
            _ => Err(PacketError::InvalidChunkingParameters),
        }
    }

    /// Whether compression is enabled.
    pub fn compress(&self) -> (b: bool)
        ensures
            b == self@.compress,
    {
        self.compress
    }

    /// The same options with compression enabled.
    pub fn with_compression(self) -> (o: Self)
        ensures
            o@ == (OptionsView { compress: true, ..self@ }),
            o@.wf(),
    {
        proof {
            use_type_invariant(&self);
        }
        PacketOptions {
            compress: true,
            encrypt: self.encrypt,
            sequence: self.sequence,
            total_chunks: self.total_chunks,
        }
    }

    /// Whether encryption is enabled.
    pub fn encrypt(&self) -> (b: bool)
        ensures
            b == self@.encrypt,
    {
        self.encrypt
    }

    /// The same options with encryption enabled.
    pub fn with_encryption(self) -> (o: Self)
        ensures
            o@ == (OptionsView { encrypt: true, ..self@ }),
            o@.wf(),
    {
        proof {
            use_type_invariant(&self);
        }
        PacketOptions {
            compress: self.compress,
            encrypt: true,
            sequence: self.sequence,
            total_chunks: self.total_chunks,
        }
    }

    /// The sequence number, where the packet is a fragment.
    pub fn sequence(&self) -> (s: Option<u16>)
        ensures
            s == match self@.chunking {
                Some((sequence, _)) => Some(sequence),
                None => None,
            },
    {
        proof {
            use_type_invariant(self);
        }
        self.sequence
    }

    /// The total number of chunks, where the packet is a fragment.
    pub fn total_chunks(&self) -> (t: Option<u16>)
        ensures
            t == match self@.chunking {
                Some((_, total)) => Some(total),
                None => None,
            },
    {
        proof {
            use_type_invariant(self);
        }
        self.total_chunks
    }

    /// Marks the packet as fragment `sequence` of `total_chunks`. Fails, and
    /// leaves the options as they were, unless `1 <= sequence <= total_chunks`.
    pub fn with_chunking(&mut self, sequence: u16, total_chunks: u16) -> (r: Result<
        (),
        PacketError,
    >)
        ensures
            valid_chunking(sequence, total_chunks) ==> r is Ok && final(self)@ == (OptionsView {
                chunking: Some((sequence, total_chunks)),
                ..old(self)@
            }),
            !valid_chunking(sequence, total_chunks) ==> r == Err::<(), PacketError>(
                PacketError::InvalidChunkingParameters,
            ) && *final(self) == *old(self),
            final(self)@.wf(),
    {
        proof {
            use_type_invariant(&*self);
        }
        if sequence == 0 || total_chunks == 0 || sequence > total_chunks {
            return Err(PacketError::InvalidChunkingParameters);
        }
        *self = PacketOptions {
            compress: self.compress,
            encrypt: self.encrypt,
            sequence: Some(sequence),
            total_chunks: Some(total_chunks),
        };
        Ok(())
    }

    /// Appends the six bytes of the binary form to `out`.
    pub fn write_binary(&self, out: &mut Vec<u8>)
        ensures
            final(out)@ == old(out)@ + options_bytes(self@),
    {
        proof {
            use_type_invariant(self);
        }
        let sequence: u16 = match self.sequence {
            Some(s) => s,
            None => 0,
        };
        let total: u16 = match self.total_chunks {
            Some(t) => t,
            None => 0,
        };
        let ghost before = out@;
        out.push(if self.compress { 1 } else { 0 });
        out.push(if self.encrypt { 1 } else { 0 });
        out.push((sequence / 256) as u8);
        out.push((sequence % 256) as u8);
        out.push((total / 256) as u8);
        out.push((total % 256) as u8);
        assert(out@ =~= before + options_bytes(self@));
    }

    /// Appends the text form to `out`.
    pub fn write_text(&self, out: &mut String)
        ensures
            final(out)@ == old(out)@ + options_text(self@),
    {
        proof {
            use_type_invariant(self);
        }
        let sequence: u16 = match self.sequence {
            Some(s) => s,
            None => 0,
        };
        let total: u16 = match self.total_chunks {
            Some(t) => t,
            None => 0,
        };
        let ghost before = out@;
        out.push(if self.compress { '1' } else { '0' });
        out.push(':');
        out.push(if self.encrypt { '1' } else { '0' });
        out.push(':');
        push_decimal(out, sequence as u64);
        out.push(':');
        push_decimal(out, total as u64);
        assert(out@ =~= before + options_text(self@));
    }

    /// The binary form: compress, encrypt, then sequence and total chunks as
    /// two big-endian bytes each.
    pub fn encode_binary(&self) -> (bytes: Vec<u8>)
        ensures
            bytes@ == options_bytes(self@),
    {
        let mut bytes: Vec<u8> = Vec::new();
        self.write_binary(&mut bytes);
        assert(bytes@ =~= options_bytes(self@));
        bytes
    }

    /// The text form: `compress:encrypt:sequence:total_chunks`, in decimal.
    pub fn encode_text(&self) -> (text: String)
        ensures
            text@ == options_text(self@),
    {
        let mut text: String = String::new();
        self.write_text(&mut text);
        assert(text@ =~= options_text(self@));
        text
    }

    /// The binary form where `supports_binary`, else the text form.
    pub fn encode(self, supports_binary: bool) -> (data: RawData)
        ensures
            data@ == if supports_binary {
                RawDataView::Binary(options_bytes(self@))
            } else {
                RawDataView::Text(options_text(self@))
            },
    {
        if supports_binary {
            RawData::Binary(self.encode_binary())
        } else {
            RawData::Text(self.encode_text())
        }
    }

    /// Builds options from flags and written chunking numbers.
    fn from_wire(compress: bool, encrypt: bool, sequence: u16, total: u16) -> (r: Result<
        Self,
        DecodingError,
    >)
        ensures
            options_outcome(r) == options_of(compress, encrypt, sequence, total),
    {
        if sequence == 0 && total == 0 {
            Ok(PacketOptions { compress, encrypt, sequence: None, total_chunks: None })
        } else if sequence == 0 || total == 0 || sequence > total {
            Err(DecodingError::Packet(PacketError::InvalidChunkingParameters))
        } else {
            Ok(
                PacketOptions {
                    compress,
                    encrypt,
                    sequence: Some(sequence),
                    total_chunks: Some(total),
                },
            )
        }
    }

    /// Decodes the binary form found in `bytes[from..to]`.
    pub fn read_binary(bytes: &Vec<u8>, from: usize, to: usize) -> (r: Result<Self, DecodingError>)
        requires
            from <= to <= bytes@.len(),
        ensures
            options_outcome(r) == parse_options_bytes(bytes@.subrange(from as int, to as int)),
    {
        let ghost b = bytes@.subrange(from as int, to as int);
        if to - from != 6 {
            return Err(DecodingError::Packet(PacketError::InvalidPacketOptions));
        }
        assert(b[0] == bytes@[from + 0] && b[1] == bytes@[from + 1] && b[2] == bytes@[from + 2]
            && b[3] == bytes@[from + 3] && b[4] == bytes@[from + 4] && b[5] == bytes@[from + 5]);
        if bytes[from] > 1 || bytes[from + 1] > 1 {
            return Err(DecodingError::Packet(PacketError::InvalidPacketOptions));
        }
        let sequence: u16 = (bytes[from + 2] as u16) * 256 + (bytes[from + 3] as u16);
        let total: u16 = (bytes[from + 4] as u16) * 256 + (bytes[from + 5] as u16);
        Self::from_wire(bytes[from] == 1, bytes[from + 1] == 1, sequence, total)
    }

    /// Decodes the text form found in `chars[from..to]`.
    pub fn read_text(chars: &Vec<char>, from: usize, to: usize) -> (r: Result<Self, DecodingError>)
        requires
            from <= to <= chars@.len(),
        ensures
            options_outcome(r) == parse_options_text(chars@.subrange(from as int, to as int)),
    {
        let ghost s = chars@.subrange(from as int, to as int);
        let bounds: Vec<(usize, usize)> = split_fields(chars, from, to, ':');
        if bounds.len() != 4 {
            return Err(DecodingError::Packet(PacketError::InvalidPacketOptions));
        }
        let ghost f = split(s, ':');
        let compress: bool = match Self::read_flag(chars, bounds[0].0, bounds[0].1) {
            Some(b) => b,
            None => {
                return Err(DecodingError::Packet(PacketError::InvalidPacketOptions));
            },
        };
        let encrypt: bool = match Self::read_flag(chars, bounds[1].0, bounds[1].1) {
            Some(b) => b,
            None => {
                return Err(DecodingError::Packet(PacketError::InvalidPacketOptions));
            },
        };
        let sequence: u64 = match parse_number(chars, bounds[2].0, bounds[2].1, 65535) {
            Some(n) => n,
            None => {
                return Err(DecodingError::Packet(PacketError::InvalidPacketOptions));
            },
        };
        let total: u64 = match parse_number(chars, bounds[3].0, bounds[3].1, 65535) {
            Some(n) => n,
            None => {
                return Err(DecodingError::Packet(PacketError::InvalidPacketOptions));
            },
        };
        Self::from_wire(compress, encrypt, sequence as u16, total as u16)
    }

    /// The flag that `chars[from..to]` stands for.
    fn read_flag(chars: &Vec<char>, from: usize, to: usize) -> (r: Option<bool>)
        requires
            from <= to <= chars@.len(),
        ensures
            r == parse_flag(chars@.subrange(from as int, to as int)),
    {
        let ghost field = chars@.subrange(from as int, to as int);
        if to - from != 1 {
            assert(seq!['0'].len() == 1 && seq!['1'].len() == 1);
            return None;
        }
        assert(field[0] == chars@[from as int]);
        if chars[from] == '0' {
            assert(field =~= seq!['0']);
            Some(false)
        } else if chars[from] == '1' {
            assert(field =~= seq!['1']);
            Some(true)
        } else {
            assert(seq!['0'][0] == '0' && seq!['1'][0] == '1');
            None
        }
    }

    /// Decodes options from their binary form: exactly six bytes, the first
    /// two of them 0 or 1.
    pub fn decode_binary(bytes: BinaryType) -> (r: Result<Self, DecodingError>)
        ensures
            options_outcome(r) == parse_options_bytes(bytes@),
            r matches Ok(o) ==> o@.wf(),
    {
        assert(bytes@.subrange(0, bytes@.len() as int) =~= bytes@);
        let n: usize = bytes.len();
        Self::read_binary(&bytes, 0, n)
    }

    /// Decodes options from their text form: exactly four colon-separated
    /// fields, two flags and two numbers of sixteen bits.
    pub fn decode_text(s: String) -> (r: Result<Self, DecodingError>)
        ensures
            options_outcome(r) == parse_options_text(s@),
            r matches Ok(o) ==> o@.wf(),
    {
        let chars: Vec<char> = chars_of(s.as_str());
        assert(chars@.subrange(0, chars@.len() as int) =~= chars@);
        let n: usize = chars.len();
        Self::read_text(&chars, 0, n)
    }

    /// Decodes options from either form, as the kind of `data` says.
    pub fn decode(data: RawData) -> (r: Result<Self, DecodingError>)
        ensures
            options_outcome(r) == match data@ {
                RawDataView::Binary(b) => parse_options_bytes(b),
                RawDataView::Text(s) => parse_options_text(s),
            },
            r matches Ok(o) ==> o@.wf(),
    {
        match data {
            RawData::Binary(bytes) => Self::decode_binary(bytes),
            RawData::Text(text) => Self::decode_text(text),
        }
    }
}

/// Decoding the binary form of well-formed options yields them again.
pub proof fn law_options_binary_round_trip(o: OptionsView)
    requires
        o.wf(),
    ensures
        options_bytes(o).len() == 6,
        parse_options_bytes(options_bytes(o)) == Ok::<OptionsView, DecodeFailure>(o),
{
    let b = options_bytes(o);
    let s = o.wire_sequence();
    let t = o.wire_total();
    assert(b[2] == (s / 256) as u8 && b[3] == (s % 256) as u8);
    assert(b[4] == (t / 256) as u8 && b[5] == (t % 256) as u8);
    assert(from_be16(b[2], b[3]) == s);
    assert(from_be16(b[4], b[5]) == t);
}

/// A run of digits holds no colon.
pub proof fn lemma_digits_free_of_colon(s: Seq<char>)
    requires
        all_digits(s),
    ensures
        free_of(s, ':'),
{
    assert forall|i: int| 0 <= i < s.len() implies #[trigger] s[i] != ':' by {
        assert(is_digit(s[i]));
    }
}

/// The fields of the text form are the two flags and the two numerals.
pub proof fn lemma_options_text_fields(o: OptionsView)
    ensures
        split(options_text(o), ':') == seq![
            seq![flag_char(o.compress)],
            seq![flag_char(o.encrypt)],
            decimal(o.wire_sequence() as nat),
            decimal(o.wire_total() as nat),
        ],
{
    let c = seq![flag_char(o.compress)];
    let e = seq![flag_char(o.encrypt)];
    let s = decimal(o.wire_sequence() as nat);
    let t = decimal(o.wire_total() as nat);
    lemma_decimal(o.wire_sequence() as nat);
    lemma_decimal(o.wire_total() as nat);
    lemma_digits_free_of_colon(s);
    lemma_digits_free_of_colon(t);
    assert(free_of(c, ':'));
    assert(free_of(e, ':'));
    lemma_split_single(c, ':');
    lemma_split_append(c, e, ':');
    lemma_split_append(c + seq![':'] + e, s, ':');
    lemma_split_append(c + seq![':'] + e + seq![':'] + s, t, ':');
    assert(options_text(o) =~= c + seq![':'] + e + seq![':'] + s + seq![':'] + t);
    assert(seq![c].push(e).push(s).push(t) =~= seq![c, e, s, t]);
}

/// Decoding the text form of well-formed options yields them again.
pub proof fn law_options_text_round_trip(o: OptionsView)
    requires
        o.wf(),
    ensures
        parse_options_text(options_text(o)) == Ok::<OptionsView, DecodeFailure>(o),
{
    lemma_options_text_fields(o);
    lemma_decimal(o.wire_sequence() as nat);
    lemma_decimal(o.wire_total() as nat);
    let f = split(options_text(o), ':');
    assert(f[0] == seq![flag_char(o.compress)]);
    assert(f[1] == seq![flag_char(o.encrypt)]);
    assert(seq!['0'][0] == '0' && seq!['1'][0] == '1');
    assert(parse_flag(f[0]) == Some(o.compress));
    assert(parse_flag(f[1]) == Some(o.encrypt));
}

/// Setting chunking fails exactly where the sequence number is zero, the
/// total is zero, or the sequence number exceeds the total.
pub proof fn law_chunking_invariant(sequence: u16, total: u16)
    ensures
        !valid_chunking(sequence, total) <==> sequence == 0 || total == 0 || sequence > total,
{
}

} // verus!
