//! Payload data: text or bytes.

use vstd::prelude::*;
use vstd::utf8::encode_utf8;

verus! {

/// Upper bound on the size of a packet's payload: 1 MiB.
pub const MAX_PACKET_SIZE: usize = 1048576;

/// Data-kind mask that announces a text payload.
pub const PLAIN_TEXT_MASK: u8 = 0x00;

/// Data-kind mask that announces a binary payload.
pub const BINARY_MASK: u8 = 0x80;

/// A sequence of raw bytes.
pub type BinaryType = Vec<u8>;

/// Data as it travels: a string or a byte sequence.
#[derive(Debug, PartialEq, Eq)]
pub enum RawData {
    /// Text, held as a string.
    Text(String),
    /// Bytes.
    Binary(BinaryType),
}

/// The mathematical content of a `RawData`.
pub enum RawDataView {
    /// The characters of a text.
    Text(Seq<char>),
    /// The bytes of a binary value.
    Binary(Seq<u8>),
}

impl RawDataView {
    /// The size of the data in bytes; a text counts with its UTF-8 encoding.
    pub open spec fn size(self) -> nat {
        match self {
            RawDataView::Text(s) => encode_utf8(s).len(),
            RawDataView::Binary(b) => b.len(),
        }
    }
}

impl View for RawData {
    type V = RawDataView;

    open spec fn view(&self) -> RawDataView {
        match self {
            RawData::Text(s) => RawDataView::Text(s@),
            RawData::Binary(b) => RawDataView::Binary(b@),
        }
    }
}

impl Clone for RawData {
    /// A copy with the same content.
    fn clone(&self) -> (copy: Self)
        ensures
            copy@ == self@,
    {
        match self {
            RawData::Text(s) => RawData::Text(s.clone()),
            RawData::Binary(b) => RawData::Binary(b.clone()),
        }
    }
}

impl RawData {
    /// The size of the data in bytes.
    pub fn len(&self) -> (n: usize)
        ensures
            n == self@.size(),
    {
        match self {
            RawData::Binary(b) => b.len(),
            RawData::Text(s) => s.as_str().as_bytes().len(),
        }
    }

    /// Whether the data is a byte sequence.
    pub fn is_binary(&self) -> (b: bool)
        ensures
            b == (self@ is Binary),
    {
        match self {
            RawData::Binary(_) => true,
            RawData::Text(_) => false,
        }
    }

    /// Whether the data is a text.
    pub fn is_text(&self) -> (b: bool)
        ensures
            b == (self@ is Text),
    {
        match self {
            RawData::Binary(_) => false,
            RawData::Text(_) => true,
        }
    }
}

} // verus!
