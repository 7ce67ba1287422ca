//! The frame round a payload: the obfuscation key in front of it and behind
//! it, and the shallow check that what stands between looks like a JSON
//! object.

use crate::error::ErrorKind;
use crate::text::{
    has_prefix, has_suffix, lemma_ascii_at_ends, lemma_ascii_prefix_boundary,
    lemma_encode_utf8_concat,
};
use vstd::prelude::*;
use vstd::string::*;
use vstd::utf8::*;

verus! {

/// The marker that frames every payload. It is fixed: text framed with one key
/// cannot be recovered with another.
pub const OBFUSCATION_KEY: &'static str = "FeatureListWasmKey2025";

/// The byte of `{`, with which an object begins.
pub const OPENING_BRACE: u8 = 0x7b;

/// The byte of `}`, with which an object ends.
pub const CLOSING_BRACE: u8 = 0x7d;

/// The key as characters.
pub open spec fn key() -> Seq<char> {
    OBFUSCATION_KEY@
}

/// The key as UTF-8 bytes.
pub open spec fn key_bytes() -> Seq<u8> {
    encode_utf8(key())
}

/// The payload with the key in front of it and behind it.
pub open spec fn framed(payload: Seq<char>) -> Seq<char> {
    key() + payload + key()
}

/// True when `text` begins with the key, ends with the key, and the two
/// occurrences do not overlap.
pub open spec fn is_framed(text: Seq<char>) -> bool {
    &&& text.len() >= 2 * key().len()
    &&& key().is_prefix_of(text)
    &&& key().is_suffix_of(text)
}

/// What is left of `text` without its first and last `key().len()` characters.
pub open spec fn inner(text: Seq<char>) -> Seq<char>
    recommends
        text.len() >= 2 * key().len(),
{
    text.subrange(key().len() as int, text.len() - key().len())
}

/// True when `payload` begins with `{` and ends with `}`. Nothing between the
/// two is looked at.
pub open spec fn is_object_shaped(payload: Seq<char>) -> bool {
    payload.len() > 0 && payload.first() == '{' && payload.last() == '}'
}

/// The payload itself where it is shaped like an object, and a format error
/// where it is not.
pub open spec fn shape_checked(payload: Seq<char>) -> Result<Seq<char>, ErrorKind> {
    if is_object_shaped(payload) {
        Ok(payload)
    } else {
        Err(ErrorKind::FormatError)
    }
}

/// The payload that `text` frames, or the reason why it yields none.
pub open spec fn unframed(text: Seq<char>) -> Result<Seq<char>, ErrorKind> {
    if is_framed(text) {
        shape_checked(inner(text))
    } else {
        Err(ErrorKind::KeyMismatchError)
    }
}

/// The payload that decoded bytes hold, or the reason why they yield none.
pub open spec fn recovered_payload(bytes: Seq<u8>) -> Result<Seq<char>, ErrorKind> {
    if !valid_utf8(bytes) {
        Err(ErrorKind::EncodingError)
    } else {
        unframed(decode_utf8(bytes))
    }
}

/// An executable result with its string taken as characters.
pub open spec fn outcome(res: Result<String, ErrorKind>) -> Result<Seq<char>, ErrorKind> {
    match res {
        Ok(payload) => Ok(payload@),
        Err(kind) => Err(kind),
    }
}

/// The byte-level counterpart of `is_framed`.
pub open spec fn is_framed_bytes(bytes: Seq<u8>) -> bool {
    &&& bytes.len() >= 2 * key_bytes().len()
    &&& key_bytes().is_prefix_of(bytes)
    &&& key_bytes().is_suffix_of(bytes)
}

/// The byte-level counterpart of `is_object_shaped`.
pub open spec fn is_object_shaped_bytes(bytes: Seq<u8>) -> bool {
    bytes.len() > 0 && bytes.first() == OPENING_BRACE && bytes.last() == CLOSING_BRACE
}

/// The key is ASCII, so its bytes are its characters, one for one, and none
/// of them can continue a character of several bytes.
pub proof fn lemma_key_is_ascii()
    ensures
        key().len() > 0,
        is_ascii_chars(key()),
        key_bytes().len() == key().len(),
        forall|i: int| 0 <= i < key_bytes().len() ==> key_bytes()[i] <= 0x7f,
        valid_utf8(key_bytes()),
        decode_utf8(key_bytes()) == key(),
{
    reveal_strlit("FeatureListWasmKey2025");
    is_ascii_chars_encode_utf8(key());
    encode_utf8_valid_utf8(key());
    encode_utf8_decode_utf8(key());
    assert forall|i: int| 0 <= i < key_bytes().len() implies key_bytes()[i] <= 0x7f by {
        assert(key_bytes()[i] == key()[i] as u8);
    }
}

/// A framed text comes apart into the key, its inner part, and the key.
pub proof fn lemma_framed_parts(text: Seq<char>)
    requires
        is_framed(text),
    ensures
        text == framed(inner(text)),
{
    assert(text =~= framed(inner(text)));
}

/// Framing a payload gives a framed text whose inner part is the payload.
pub proof fn lemma_inner_of_framed(payload: Seq<char>)
    ensures
        is_framed(framed(payload)),
        inner(framed(payload)) == payload,
{
    let text = framed(payload);
    assert(key() =~= text.subrange(0, key().len() as int));
    assert(key() =~= text.subrange(text.len() - key().len(), text.len() as int));
    assert(inner(text) =~= payload);
}

/// The bytes of a framed payload are the key's bytes, the payload's bytes,
/// and the key's bytes.
pub proof fn lemma_framed_encoding(payload: Seq<char>)
    ensures
        encode_utf8(framed(payload)) == key_bytes() + encode_utf8(payload) + key_bytes(),
{
    lemma_encode_utf8_concat(key() + payload, key());
    lemma_encode_utf8_concat(key(), payload);
}

/// A text is framed exactly when its bytes are, and then the bytes between
/// the two keys are the bytes of its inner part. The two places where the
/// bytes are cut are character boundaries.
pub proof fn lemma_framed_bytes(text: Seq<char>)
    ensures
        is_framed(text) <==> is_framed_bytes(encode_utf8(text)),
        is_framed(text) ==> ({
            let bytes = encode_utf8(text);
            let k = key_bytes().len() as int;
            let rest = bytes.subrange(k, bytes.len() as int);
            &&& is_char_boundary(bytes, k)
            &&& valid_utf8(rest)
            &&& is_char_boundary(rest, rest.len() - k)
            &&& rest.subrange(0, rest.len() - k) == encode_utf8(inner(text))
        }),
{
    lemma_key_is_ascii();
    encode_utf8_valid_utf8(text);
    encode_utf8_decode_utf8(text);
    let bytes = encode_utf8(text);
    let k = key_bytes().len() as int;
    let n = bytes.len() as int;
    if is_framed(text) {
        // The characters come apart, and so do their bytes.
        lemma_framed_parts(text);
        lemma_framed_encoding(inner(text));
        assert(key_bytes() =~= bytes.subrange(0, k));
        assert(key_bytes() =~= bytes.subrange(n - k, n));
        assert(bytes.subrange(k, n).subrange(0, n - 2 * k) =~= encode_utf8(inner(text)));
    }
    if is_framed_bytes(bytes) {
        let rest = bytes.subrange(k, n);
        let m = rest.len() as int;
        let mid = rest.subrange(0, m - k);

        // Behind the key in front, which is ASCII, a character begins.
        assert forall|i: int| 0 <= i < k implies bytes[i] <= 0x7f by {
            assert(bytes.subrange(0, k)[i] == key_bytes()[i]);
        }
        lemma_ascii_prefix_boundary(bytes, k);
        valid_utf8_split(bytes, k);
        decode_utf8_split(bytes, k);

        // The key behind begins with an ASCII byte, so a character begins
        // there too.
        assert(rest.subrange(m - k, m) =~= bytes.subrange(n - k, n));
        assert(rest[m - k] == key_bytes()[0]);
        is_char_boundary_iff_not_is_continuation_byte(rest, m - k);
        valid_utf8_split(rest, m - k);
        decode_utf8_split(rest, m - k);

        // So the characters are the key, what the middle decodes to, and the
        // key.
        assert(text =~= key() + decode_utf8(mid) + key());
        assert(key() =~= text.subrange(0, key().len() as int));
        assert(key() =~= text.subrange(text.len() - key().len(), text.len() as int));
    }
}

/// A payload is shaped like an object exactly when its bytes are.
pub proof fn lemma_object_shaped_bytes(payload: Seq<char>)
    ensures
        is_object_shaped(payload) <==> is_object_shaped_bytes(encode_utf8(payload)),
{
    if payload.len() > 0 {
        lemma_ascii_at_ends(payload, '{');
        lemma_ascii_at_ends(payload, '}');
    }
}

/// Taking the frame off a framed payload gives the payload back, checked for
/// its shape: a payload shaped like an object survives framing and unframing
/// unchanged, whatever it holds, the key included.
pub proof fn lemma_unframed_framed(payload: Seq<char>)
    ensures
        unframed(framed(payload)) == shape_checked(payload),
{
    lemma_inner_of_framed(payload);
}

/// The bytes of a framed payload are read back as that payload, checked for
/// its shape.
pub proof fn lemma_recovered_framed(payload: Seq<char>)
    ensures
        recovered_payload(encode_utf8(framed(payload))) == shape_checked(payload),
{
    encode_utf8_valid_utf8(framed(payload));
    encode_utf8_decode_utf8(framed(payload));
    lemma_unframed_framed(payload);
}

/// Only one byte sequence is read back as a given payload: the bytes of that
/// payload in its frame. Bytes that differ from them in any place are read
/// back as another payload or not at all.
pub proof fn lemma_recovered_only_from_framed(bytes: Seq<u8>, payload: Seq<char>)
    requires
        recovered_payload(bytes) == Ok::<Seq<char>, ErrorKind>(payload),
    ensures
        is_object_shaped(payload),
        bytes == encode_utf8(framed(payload)),
{
    lemma_framed_parts(decode_utf8(bytes));
    decode_utf8_encode_utf8(bytes);
}

/// Puts the key in front of `json` and behind it.
pub fn frame_payload(json: &str) -> (res: String)
    ensures
        res@ == framed(json@),
{
    let mut mixed = String::from_str(OBFUSCATION_KEY);
    mixed.append(json);
    mixed.append(OBFUSCATION_KEY);
    mixed
}

/// Takes the key off both ends of `text` and returns what stood between,
/// provided that it is shaped like an object.
///
/// The key is compared at fixed places, never searched for: a payload that
/// itself begins or ends with the key comes back whole, and a text too short
/// to hold the key twice is a mismatch.
pub fn unframe_text(text: &str) -> (res: Result<String, ErrorKind>)
    ensures
        outcome(res) == unframed(text@),
{
    let bytes = text.as_bytes();
    let key = OBFUSCATION_KEY.as_bytes();
    let k: usize = key.len();
    proof {
        lemma_framed_bytes(text@);
    }
    if bytes.len() < k || bytes.len() - k < k {
        return Err(ErrorKind::KeyMismatchError);
    }
    if !has_prefix(bytes, key) || !has_suffix(bytes, key) {
        return Err(ErrorKind::KeyMismatchError);
    }
    let (_, rest) = text.split_at(k);
    let (payload, _) = rest.split_at(rest.len() - k);
    proof {
        // Equal bytes are equal characters.
        encode_utf8_decode_utf8(payload@);
        encode_utf8_decode_utf8(inner(text@));
        assert(payload@ == inner(text@));
        lemma_object_shaped_bytes(payload@);
    }
    let body = payload.as_bytes();
    let m: usize = body.len();
    if m == 0 || body[0] != OPENING_BRACE || body[m - 1] != CLOSING_BRACE {
        return Err(ErrorKind::FormatError);
    }
    Ok(payload.to_owned())
}

/// Reads decoded bytes as UTF-8 text and takes the payload out of its frame.
pub fn recover_payload(decoded: Vec<u8>) -> (res: Result<String, ErrorKind>)
    ensures
        outcome(res) == recovered_payload(decoded@),
{
    match String::from_utf8(decoded) {
        Ok(mixed) => unframe_text(mixed.as_str()),
        Err(_) => Err(ErrorKind::EncodingError),
    }
}

} // verus!
