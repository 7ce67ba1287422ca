//! A reversible, lightly obfuscated text encoding for a JSON object held in a
//! string.
//!
//! A payload is framed by a fixed key, written as padded base64, and the
//! symbols are put in the opposite order. Reading it back undoes the three
//! steps and checks each: the symbols, the text, the frame, and the shape of
//! what stood inside. This deters a casual look at the payload; it is no
//! encryption.

pub mod armor;
pub mod error;
pub mod frame;
pub mod string_specs;
pub mod text;

pub use error::ErrorKind;

use armor::{base64_decoded, base64_encoded, decode_standard, encode_standard};
use frame::{
    frame_payload, framed, is_object_shaped, key, lemma_key_is_ascii, lemma_recovered_framed,
    lemma_recovered_only_from_framed, outcome, recover_payload, recovered_payload, shape_checked,
};
use text::{lemma_encode_utf8_len, reverse_chars};
use vstd::prelude::*;
use vstd::string::*;
use vstd::utf8::*;

verus! {

/// The obfuscated form of `json`: the base64 text of the framed payload's
/// bytes, last symbol first.
pub open spec fn obfuscation_of(json: Seq<char>) -> Seq<char> {
    base64_encoded(encode_utf8(framed(json))).reverse()
}

/// What reading `obfuscated` back yields: the payload, or the first check
/// that fails.
pub open spec fn deobfuscation_of(obfuscated: Seq<char>) -> Result<Seq<char>, ErrorKind> {
    match base64_decoded(obfuscated.reverse()) {
        Some(bytes) => recovered_payload(bytes),
        None => Err(ErrorKind::DecodeError),
    }
}

/// Obfuscates `json`. Every string is accepted, also one that is no JSON
/// object. The result is printable ASCII and always differs from `json`,
/// because it is longer: obfuscating twice never gives what obfuscating once
/// gives.
///
/// Reading the result back gives `json` again where `json` begins with `{`
/// and ends with `}`, and a format error where it does not.
pub fn obfuscate_config(json: &str) -> (res: String)
    ensures
        res@ == obfuscation_of(json@),
        deobfuscation_of(res@) == shape_checked(json@),
        res@.len() == (encode_utf8(framed(json@)).len() + 2) / 3 * 4,
        res@.len() > json@.len(),
        res@ != json@,
        is_ascii_chars(res@),
{
    let mixed = frame_payload(json);
    let encoded = encode_standard(mixed.as_str().as_bytes());
    let res = reverse_chars(encoded.as_str());
    proof {
        assert(res@.reverse() =~= encoded@);
        lemma_recovered_framed(json@);
        lemma_encode_utf8_len(framed(json@));
        lemma_key_is_ascii();
        assert(framed(json@).len() == json@.len() + 2 * key().len());
    }
    res
}

/// Reads an obfuscated string back. The checks run in this order, and the
/// first that fails decides the error: the reversed input is base64, the
/// decoded bytes are UTF-8, the text is framed by the key, the payload is
/// shaped like an object.
///
/// A payload is returned only for the one string that obfuscating it gives:
/// no altered string is read back as the same payload.
pub fn deobfuscate_config(obfuscated: &str) -> (res: Result<String, ErrorKind>)
    ensures
        outcome(res) == deobfuscation_of(obfuscated@),
        res matches Ok(json) ==> is_object_shaped(json@),
        res matches Ok(json) ==> obfuscated@ == obfuscation_of(json@),
{
    let reversed = reverse_chars(obfuscated);
    match decode_standard(reversed.as_str()) {
        Ok(decoded) => {
            let ghost bytes = decoded@;
            let res = recover_payload(decoded);
            proof {
                if res is Ok {
                    lemma_recovered_only_from_framed(bytes, res->Ok_0@);
                    assert(reversed@.reverse() =~= obfuscated@);
                }
            }
            res
        },
        Err(_) => Err(ErrorKind::DecodeError),
    }
}

} // verus!
