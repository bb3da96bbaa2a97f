//! Encoding of a single packet, in binary and in text.

use vstd::prelude::*;
use vstd::utf8::encode_utf8;
use crate::base64url::base64_len;
use crate::base64url::base64_text;
use crate::base64url::encode_base64;
use crate::options::flag_byte;
use crate::options::flag_char;
use crate::options::options_bytes;
use crate::options::options_text;
use crate::packet::Packet;
use crate::packet::PacketView;
use crate::raw_data::BINARY_MASK;
use crate::raw_data::BinaryType;
use crate::raw_data::PLAIN_TEXT_MASK;
use crate::raw_data::RawData;
use crate::raw_data::RawDataView;

verus! {

/// The binary form of a payload: its data-kind mask, then its bytes.
pub open spec fn payload_bytes(d: RawDataView) -> Seq<u8> {
    match d {
        RawDataView::Text(s) => seq![PLAIN_TEXT_MASK] + encode_utf8(s),
        RawDataView::Binary(b) => seq![BINARY_MASK] + b,
    }
}

/// The text form of a payload: the separator, its data tag, then the text
/// itself or the base64 of the bytes.
pub open spec fn payload_text(d: RawDataView) -> Seq<char> {
    match d {
        RawDataView::Text(s) => seq!['-', 't'] + s,
        RawDataView::Binary(b) => seq!['-', 'b'] + base64_text(b),
    }
}

/// The binary form of a packet: type, two presence flags, then the options
/// and the payload that the flags announce.
pub open spec fn packet_bytes(p: PacketView) -> Seq<u8> {
    seq![p.ptype.spec_int(), flag_byte(p.options is Some), flag_byte(p.payload is Some)] + (
    match p.options {
        Some(o) => options_bytes(o),
        None => Seq::<u8>::empty(),
    }) + (match p.payload {
        Some(d) => payload_bytes(d),
        None => Seq::<u8>::empty(),
    })
}

/// The text form of a packet: type, two presence flags, then the options
/// and the payload that the flags announce.
pub open spec fn packet_text(p: PacketView) -> Seq<char> {
    seq![p.ptype.spec_char(), flag_char(p.options is Some), flag_char(p.payload is Some)] + (
    match p.options {
        Some(o) => options_text(o),
        None => Seq::<char>::empty(),
    }) + (match p.payload {
        Some(d) => payload_text(d),
        None => Seq::<char>::empty(),
    })
}

/// Whether the base64 text of the payload of `p`, where it is binary, has
/// four characters for every three bytes begun. The base64 engine vouches
/// for this of every byte sequence it encodes.
pub open spec fn base64_sized_payload(p: PacketView) -> bool {
    p.payload matches Some(RawDataView::Binary(b)) ==> base64_text(b).len() == base64_len(b.len())
}

/// Either form of a packet, as a transport's support for binary decides.
pub open spec fn packet_encoding(p: PacketView, supports_binary: bool) -> RawDataView {
    if supports_binary {
        RawDataView::Binary(packet_bytes(p))
    } else {
        RawDataView::Text(packet_text(p))
    }
}

impl Packet {
    /// Encodes the packet for a transport: in binary where it supports
    /// binary, else in text.
    pub fn encode(&self, supports_binary: bool) -> (data: RawData)
        ensures
            data@ == packet_encoding(self@, supports_binary),
            self@.wf(),
            !supports_binary ==> base64_sized_payload(self@),
    {
        if supports_binary {
            RawData::Binary(self.encode_binary())
        } else {
            RawData::Text(self.encode_text())
        }
    }

    /// Appends the binary form of the packet to `out`.
    pub fn write_binary(&self, out: &mut Vec<u8>)
        ensures
            final(out)@ == old(out)@ + packet_bytes(self@),
            self@.wf(),
    {
        proof {
            use_type_invariant(self);
            self.lemma_inv_wf();
        }
        let ghost before = out@;
        out.push(self._type().as_int());
        out.push(if self.options().is_some() { 1 } else { 0 });
        out.push(if self.data().is_some() { 1 } else { 0 });
        match self.options() {
            Some(o) => {
                o.write_binary(out);
            },
            None => {},
        }
        match self.data() {
            Some(RawData::Binary(b)) => {
                out.push(BINARY_MASK);
                out.extend_from_slice(b.as_slice());
            },
            Some(RawData::Text(s)) => {
                out.push(PLAIN_TEXT_MASK);
                out.extend_from_slice(s.as_str().as_bytes());
            },
            None => {},
        }
        assert(out@ =~= before + packet_bytes(self@));
    }

    /// Appends the text form of the packet to `out`.
    pub fn write_text(&self, out: &mut String)
        ensures
            final(out)@ == old(out)@ + packet_text(self@),
            self@.wf(),
            base64_sized_payload(self@),
    {
        proof {
            use_type_invariant(self);
            self.lemma_inv_wf();
        }
        let ghost before = out@;
        out.push(self._type().as_char());
        out.push(if self.options().is_some() { '1' } else { '0' });
        out.push(if self.data().is_some() { '1' } else { '0' });
        match self.options() {
            Some(o) => {
                o.write_text(out);
            },
            None => {},
        }
        match self.data() {
            Some(RawData::Binary(b)) => {
                out.push('-');
                out.push('b');
                assert(base64_len(b@.len()) <= usize::MAX);
                let body: String = encode_base64(b.as_slice());
                out.append(body.as_str());
            },
            Some(RawData::Text(s)) => {
                out.push('-');
                out.push('t');
                out.append(s.as_str());
            },
            None => {},
        }
        assert(out@ =~= before + packet_text(self@));
    }

    /// The binary form of the packet.
    pub fn encode_binary(&self) -> (bytes: BinaryType)
        ensures
            bytes@ == packet_bytes(self@),
            self@.wf(),
    {
        proof {
            use_type_invariant(self);
            self.lemma_inv_wf();
        }
        let mut bytes: Vec<u8> = Vec::new();
        self.write_binary(&mut bytes);
        assert(bytes@ =~= packet_bytes(self@));
        bytes
    }

    /// The text form of the packet.
    pub fn encode_text(&self) -> (text: String)
        ensures
            text@ == packet_text(self@),
            self@.wf(),
            base64_sized_payload(self@),
    {
        let mut text: String = String::new();
        self.write_text(&mut text);
        assert(text@ =~= packet_text(self@));
        text
    }
}

} // verus!
