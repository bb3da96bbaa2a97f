//! Error families of the packet layer.

use vstd::prelude::*;

verus! {

/// The error the base64 engine reports for text it cannot decode. The
/// library carries it through unread.
#[verifier::external_type_specification]
#[verifier::external_body]
pub struct ExBase64DecodeError(base64::DecodeError);

/// `DecodeError::clone` returns a copy of the error it is called on.
pub assume_specification[ <base64::DecodeError as Clone>::clone ](
    e: &base64::DecodeError,
) -> (r: base64::DecodeError)
    ensures
        r == *e,
;

/// Failures that can arise while building a single packet.
#[derive(Debug, Clone, Copy, PartialEq, Eq, Structural)]
pub enum PacketError {
    /// Packet data exceeds the maximum allowed size.
    DataTooLarge,
    /// Packet type is invalid or unknown.
    InvalidPacketType,
    /// Packet options are invalid.
    InvalidPacketOptions,
    /// Chunking parameters are invalid.
    InvalidChunkingParameters,
}

/// Failures that can arise while parsing the wire format.
#[derive(Debug, Clone, PartialEq, Eq)]
pub enum DecodingError {
    /// The decoded parts do not form a valid packet.
    Packet(PacketError),
    /// A base64 body could not be decoded; the engine's own error is kept.
    Base64(base64::DecodeError),
    /// The input ends before the layout it declares is complete.
    MissingField,
    /// A flag or tag has a value the format does not know.
    InvalidFormat,
    /// Decoding failed for a reason none of the other variants names.
    UnknownError,
    /// A length prefix of a payload does not match the data that follows.
    PayloadDataMismatch,
}

/// What a `DecodingError` says, without the base64 engine's detail.
#[derive(Debug, Clone, Copy, PartialEq, Eq, Structural)]
pub enum DecodeFailure {
    /// The decoded parts do not form a valid packet.
    Packet(PacketError),
    /// A base64 body could not be decoded.
    Base64,
    /// The input ends before the layout it declares is complete.
    MissingField,
    /// A flag or tag has a value the format does not know.
    InvalidFormat,
    /// Decoding failed for a reason none of the other variants names.
    UnknownError,
    /// A length prefix of a payload does not match the data that follows.
    PayloadDataMismatch,
}

impl View for DecodingError {
    type V = DecodeFailure;

    open spec fn view(&self) -> DecodeFailure {
        match self {
            DecodingError::Packet(e) => DecodeFailure::Packet(*e),
            DecodingError::Base64(_) => DecodeFailure::Base64,
            DecodingError::MissingField => DecodeFailure::MissingField,
            DecodingError::InvalidFormat => DecodeFailure::InvalidFormat,
            DecodingError::UnknownError => DecodeFailure::UnknownError,
            DecodingError::PayloadDataMismatch => DecodeFailure::PayloadDataMismatch,
        }
    }
}

/// Failures on the encoding side.
#[derive(Debug, Clone, Copy, PartialEq, Eq, Structural)]
pub enum EncodingError {
    /// Packet encoding failed.
    EncodingError,
}

/// Failures of the protocol layer as a whole.
#[derive(Debug, Clone, Copy, PartialEq, Eq, Structural)]
pub enum ProtocolError {
    /// Packet data exceeds the maximum allowed size.
    DataTooLarge,
    /// Packet type is invalid or unknown.
    InvalidType,
    /// Packet options are invalid or inconsistent.
    InvalidOptions,
    /// Packet encoding failed.
    EncodeError,
    /// Packet decoding failed.
    DecodeError,
    /// Packet is missing required fields.
    MissingField,
}

/// Calls `DecodeError::to_string`: the description that the base64 engine
/// gives of its error.
#[verifier::external_body]
pub(crate) fn base64_error_text(e: &base64::DecodeError) -> (text: String) {
    e.to_string()
}

impl PacketError {
    /// The description of the failure.
    pub open spec fn spec_message(self) -> Seq<char> {
        match self {
            PacketError::DataTooLarge => "Packet data exceeds maximum allowed size"@,
            PacketError::InvalidPacketType => "Packet type is invalid or unknown"@,
            PacketError::InvalidPacketOptions => "Packet options are invalid or inconsistent"@,
            PacketError::InvalidChunkingParameters => "Invalid chunking parameters"@,
        }
    }

    /// The description of the failure.
    pub fn message(&self) -> (text: &'static str)
        ensures
            text@ == self.spec_message(),
    {
        match self {
            PacketError::DataTooLarge => "Packet data exceeds maximum allowed size",
            PacketError::InvalidPacketType => "Packet type is invalid or unknown",
            PacketError::InvalidPacketOptions => "Packet options are invalid or inconsistent",
            PacketError::InvalidChunkingParameters => "Invalid chunking parameters",
        }
    }

    /// The description of the failure, as a string of its own.
    pub fn to_string(&self) -> (text: String)
        ensures
            text@ == self.spec_message(),
    {
        self.message().to_owned()
    }
}

impl ProtocolError {
    /// The description of the failure.
    pub open spec fn spec_message(self) -> Seq<char> {
        match self {
            ProtocolError::DataTooLarge => "Packet data exceeds maximum allowed size"@,
            ProtocolError::InvalidType => "Packet type is invalid or unknown"@,
            ProtocolError::InvalidOptions => "Packet options are invalid or inconsistent"@,
            ProtocolError::EncodeError => "Packet encoding failed"@,
            ProtocolError::DecodeError => "Packet decoding failed"@,
            ProtocolError::MissingField => "Packet is missing required fields"@,
        }
    }

    /// The description of the failure, as a string of its own.
    pub fn to_string(&self) -> (text: String)
        ensures
            text@ == self.spec_message(),
    {
        match self {
            ProtocolError::DataTooLarge => "Packet data exceeds maximum allowed size".to_owned(),
            ProtocolError::InvalidType => "Packet type is invalid or unknown".to_owned(),
            ProtocolError::InvalidOptions => "Packet options are invalid or inconsistent".to_owned(),
            ProtocolError::EncodeError => "Packet encoding failed".to_owned(),
            ProtocolError::DecodeError => "Packet decoding failed".to_owned(),
            ProtocolError::MissingField => "Packet is missing required fields".to_owned(),
        }
    }
}

impl EncodingError {
    /// The description of the failure, as a string of its own.
    pub fn to_string(&self) -> (text: String)
        ensures
            text@ == "Packet encoding failed"@,
    {
        "Packet encoding failed".to_owned()
    }
}

impl DecodingError {
    /// The description of the failure, as a string of its own. A failure
    /// to build the packet is described together with its cause; so is a
    /// base64 failure, in the words of the base64 engine.
    pub fn to_string(&self) -> (text: String)
        ensures
            match self {
                DecodingError::Packet(e) => text@ == "Packet decoding failed: "@ + e.spec_message(),
                DecodingError::Base64(_) => text@.len() >= "Base64 decoding failed: "@.len()
                    && text@.subrange(0, "Base64 decoding failed: "@.len() as int)
                    == "Base64 decoding failed: "@,
                DecodingError::MissingField => text@ == "Packet is missing required fields"@,
                DecodingError::InvalidFormat => text@ == "Packet data is invalid or malformed"@,
                DecodingError::UnknownError => text@ == "Unknown decoding error"@,
                DecodingError::PayloadDataMismatch => text@
                    == "Payload length prefix does not match actual data"@,
            },
    {
        match self {
            DecodingError::Packet(e) => {
                let mut text: String = "Packet decoding failed: ".to_owned();
                text.append(e.message());
                text
            },
            DecodingError::Base64(e) => {
                let mut text: String = "Base64 decoding failed: ".to_owned();
                let ghost prefix = text@;
                let cause: String = base64_error_text(e);
                text.append(cause.as_str());
                assert(text@.subrange(0, prefix.len() as int) =~= prefix);
                text
            },
            DecodingError::MissingField => "Packet is missing required fields".to_owned(),
            DecodingError::InvalidFormat => "Packet data is invalid or malformed".to_owned(),
            DecodingError::UnknownError => "Unknown decoding error".to_owned(),
            DecodingError::PayloadDataMismatch => {
                "Payload length prefix does not match actual data".to_owned()
            },
        }
    }
}

} // verus!
