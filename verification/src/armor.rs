//! Standard padded base64, as the `base64` crate's `STANDARD` engine computes
//! it. Nothing in this file is proved: the two functions hand their argument
//! to the engine, and their contracts record what the engine is relied on for.

use vstd::prelude::*;
use vstd::utf8::is_ascii_chars;

verus! {

/// The text that the `STANDARD` engine's `encode` returns for `bytes`.
pub uninterp spec fn base64_encoded(bytes: Seq<u8>) -> Seq<char>;

/// The bytes that the `STANDARD` engine's `decode` returns for `text`, or
/// `None` where it rejects `text`.
pub uninterp spec fn base64_decoded(text: Seq<char>) -> Option<Seq<u8>>;

/// `base64::DecodeError`, the reason the engine gives for rejecting an input.
/// Its content is never read here.
#[verifier::external_type_specification]
#[verifier::external_body]
pub struct ExDecodeError(base64::DecodeError);

/// Calls `base64::Engine::encode` on `base64::engine::general_purpose::STANDARD`.
///
/// Relied on, and not proved:
/// - the result is a function of the bytes alone, named `base64_encoded`;
/// - the same engine decodes the result back to `bytes`;
/// - with padding, the result has four symbols for every started group of
///   three bytes (`base64::encoded_len` with `padding` set);
/// - every symbol is ASCII: a letter, a digit, `+`, `/`, or the padding `=`.
///
/// The engine panics only where that length does not fit in `usize`, which no
/// slice is long enough to cause.
#[verifier::external_body]
pub(crate) fn encode_standard(bytes: &[u8]) -> (text: String)
    ensures
        text@ == base64_encoded(bytes@),
        base64_decoded(text@) == Some(bytes@),
        text@.len() == (bytes@.len() + 2) / 3 * 4,
        is_ascii_chars(text@),
{
    base64::Engine::encode(&base64::engine::general_purpose::STANDARD, bytes)
}

/// Calls `base64::Engine::decode` on `base64::engine::general_purpose::STANDARD`.
///
/// Relied on, and not proved:
/// - whether the text is accepted, and the bytes read out of it, are a
///   function of the text alone, named `base64_decoded`;
/// - the engine is strict: it requires canonical padding and rejects set
///   trailing bits, so a text it accepts is exactly the encoding of the bytes
///   it returns.
///
/// The engine returns an error for every text it does not accept; it does not
/// panic.
#[verifier::external_body]
pub(crate) fn decode_standard(text: &str) -> (res: Result<Vec<u8>, base64::DecodeError>)
    ensures
        res matches Ok(bytes) ==> base64_decoded(text@) == Some(bytes@),
        res matches Ok(bytes) ==> base64_encoded(bytes@) == text@,
        res is Err ==> base64_decoded(text@) is None,
{
    base64::Engine::decode(&base64::engine::general_purpose::STANDARD, text)
}

} // verus!
