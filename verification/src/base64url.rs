//! The URL-safe base64 alphabet, by way of the `base64` crate.

use vstd::prelude::*;
use base64::DecodeError;
use base64::Engine;
use base64::engine::general_purpose::URL_SAFE;

verus! {

/// The padded URL-safe base64 text of `data`.
pub uninterp spec fn base64_text(data: Seq<u8>) -> Seq<char>;

/// The bytes that the padded URL-safe base64 text `text` stands for, or
/// `None` where `text` is not such a text.
pub uninterp spec fn base64_bytes(text: Seq<char>) -> Option<Seq<u8>>;

/// The number of characters of the padded base64 text of `n` bytes.
pub open spec fn base64_len(n: nat) -> nat {
    4 * ((n + 2) / 3)
}

/// Calls `Engine::encode` on the crate's `URL_SAFE` engine. The result is
/// the base64 text of `data`; it has four characters for every three bytes
/// begun. The engine panics where that length overflows `usize`, which the
/// precondition excludes.
#[verifier::external_body]
pub(crate) fn encode_base64(data: &[u8]) -> (text: String)
    requires
        base64_len(data@.len()) <= usize::MAX,
    ensures
        text@ == base64_text(data@),
        text@.len() == base64_len(data@.len()),
{
    URL_SAFE.encode(data)
}

/// Calls `Engine::decode` on the crate's `URL_SAFE` engine. It succeeds
/// exactly on the texts that stand for some bytes and returns those bytes;
/// the text that `Engine::encode` makes of any bytes stands for them.
#[verifier::external_body]
pub(crate) fn decode_base64(text: &str) -> (r: Result<Vec<u8>, DecodeError>)
    ensures
        r is Ok <==> base64_bytes(text@) is Some,
        r matches Ok(bytes) ==> base64_bytes(text@) == Some(bytes@),
        forall|data: Seq<u8>|
            text@ == #[trigger] base64_text(data) ==> r is Ok && r->Ok_0@ == data,
{
    URL_SAFE.decode(text)
}

} // verus!
