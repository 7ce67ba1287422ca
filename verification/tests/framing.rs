use config_crypto::frame::{
    frame_payload, recover_payload, unframe_text, OBFUSCATION_KEY,
};
use config_crypto::text::{has_prefix, has_suffix, reverse_chars};
use config_crypto::ErrorKind;

#[test]
fn the_key_is_the_fixed_marker() {
    assert_eq!(OBFUSCATION_KEY, "FeatureListWasmKey2025");
    assert_eq!(OBFUSCATION_KEY.len(), 22);
    assert!(OBFUSCATION_KEY.is_ascii());
}

#[test]
fn framing_puts_the_key_on_both_sides() {
    assert_eq!(
        frame_payload("{\"a\":1}"),
        "FeatureListWasmKey2025{\"a\":1}FeatureListWasmKey2025"
    );
    assert_eq!(frame_payload(""), "FeatureListWasmKey2025FeatureListWasmKey2025");
    assert_eq!(
        frame_payload("{é}"),
        "FeatureListWasmKey2025{é}FeatureListWasmKey2025"
    );
}

#[test]
fn unframing_returns_what_framing_took() {
    let payloads = vec!["{}", "{\"a\":1}", "{é}", "{😀}", "{ { } }", "{FeatureListWasmKey2025}"];
    for payload in payloads {
        assert_eq!(unframe_text(&frame_payload(payload)), Ok(payload.to_string()));
    }
}

#[test]
fn unframing_strips_by_length_and_does_not_search() {
    // The payload ends with the key's first characters and begins with its
    // last: only the outer 22 characters on each side are taken off.
    let text = "FeatureListWasmKey2025{2025 Feature}FeatureListWasmKey2025";
    assert_eq!(unframe_text(text), Ok("{2025 Feature}".to_string()));
    let doubled = "FeatureListWasmKey2025FeatureListWasmKey2025{}FeatureListWasmKey2025";
    assert_eq!(unframe_text(doubled), Err(ErrorKind::FormatError));
}

#[test]
fn unframing_rejects_text_without_both_keys() {
    assert_eq!(unframe_text(""), Err(ErrorKind::KeyMismatchError));
    assert_eq!(unframe_text("{}"), Err(ErrorKind::KeyMismatchError));
    assert_eq!(
        unframe_text("FeatureListWasmKey2025{}"),
        Err(ErrorKind::KeyMismatchError)
    );
    assert_eq!(
        unframe_text("{}FeatureListWasmKey2025"),
        Err(ErrorKind::KeyMismatchError)
    );
    assert_eq!(
        unframe_text("featurelistwasmkey2025{}FeatureListWasmKey2025"),
        Err(ErrorKind::KeyMismatchError)
    );
    assert_eq!(
        unframe_text("FeatureListWasmKey2025{}FeatureListWasmKey2025 "),
        Err(ErrorKind::KeyMismatchError)
    );
    assert_eq!(
        unframe_text("éeatureListWasmKey2025{}FeatureListWasmKey2025"),
        Err(ErrorKind::KeyMismatchError)
    );
}

#[test]
fn unframing_the_key_alone_is_a_mismatch() {
    assert_eq!(
        unframe_text("FeatureListWasmKey2025"),
        Err(ErrorKind::KeyMismatchError)
    );
}

#[test]
fn unframing_two_keys_with_nothing_between_is_a_format_error() {
    assert_eq!(
        unframe_text("FeatureListWasmKey2025FeatureListWasmKey2025"),
        Err(ErrorKind::FormatError)
    );
}

#[test]
fn unframing_checks_only_the_two_braces() {
    assert_eq!(
        unframe_text(&frame_payload("{]")),
        Err(ErrorKind::FormatError)
    );
    assert_eq!(unframe_text(&frame_payload("{")), Err(ErrorKind::FormatError));
    assert_eq!(unframe_text(&frame_payload("}")), Err(ErrorKind::FormatError));
    assert_eq!(unframe_text(&frame_payload("é}")), Err(ErrorKind::FormatError));
    assert_eq!(unframe_text(&frame_payload("{é")), Err(ErrorKind::FormatError));
    assert_eq!(
        unframe_text(&frame_payload("{\"open\": [}")),
        Ok("{\"open\": [}".to_string())
    );
}

#[test]
fn recovering_reads_framed_utf8_bytes() {
    let bytes = "FeatureListWasmKey2025{\"名\":1}FeatureListWasmKey2025"
        .as_bytes()
        .to_vec();
    assert_eq!(recover_payload(bytes), Ok("{\"名\":1}".to_string()));
}

#[test]
fn recovering_rejects_bytes_that_are_not_utf8() {
    assert_eq!(recover_payload(vec![0xff]), Err(ErrorKind::EncodingError));
    assert_eq!(recover_payload(vec![0xc3]), Err(ErrorKind::EncodingError));
    assert_eq!(
        recover_payload(vec![0xed, 0xa0, 0x80]),
        Err(ErrorKind::EncodingError)
    );
    assert_eq!(recover_payload(vec![0xc0, 0x80]), Err(ErrorKind::EncodingError));
    let mut bytes = b"FeatureListWasmKey2025{".to_vec();
    bytes.push(0x80);
    bytes.extend_from_slice(b"}FeatureListWasmKey2025");
    assert_eq!(recover_payload(bytes), Err(ErrorKind::EncodingError));
}

#[test]
fn recovering_rejects_unframed_and_unshaped_text() {
    assert_eq!(recover_payload(Vec::new()), Err(ErrorKind::KeyMismatchError));
    assert_eq!(
        recover_payload(b"hello".to_vec()),
        Err(ErrorKind::KeyMismatchError)
    );
    assert_eq!(
        recover_payload(b"FeatureListWasmKey2025not-jsonFeatureListWasmKey2025".to_vec()),
        Err(ErrorKind::FormatError)
    );
}

#[test]
fn reversing_works_on_characters_not_bytes() {
    assert_eq!(reverse_chars(""), "");
    assert_eq!(reverse_chars("a"), "a");
    assert_eq!(reverse_chars("abc"), "cba");
    assert_eq!(reverse_chars("aé😀"), "😀éa");
    assert_eq!(reverse_chars("=8GbsVGa"), "aGVsbG8=");
}

#[test]
fn reversing_twice_gives_the_text_back() {
    let texts = vec!["", "x", "{\"a\":1}", "名前 😀 é"];
    for text in texts {
        assert_eq!(reverse_chars(&reverse_chars(text)), text);
    }
}

#[test]
fn prefix_and_suffix_compare_at_fixed_places() {
    assert!(has_prefix(b"abcdef", b"abc"));
    assert!(has_prefix(b"abc", b"abc"));
    assert!(has_prefix(b"abc", b""));
    assert!(has_prefix(b"", b""));
    assert!(!has_prefix(b"abcdef", b"abd"));
    assert!(!has_prefix(b"ab", b"abc"));
    assert!(!has_prefix(b"xabc", b"abc"));

    assert!(has_suffix(b"abcdef", b"def"));
    assert!(has_suffix(b"def", b"def"));
    assert!(has_suffix(b"def", b""));
    assert!(has_suffix(b"", b""));
    assert!(!has_suffix(b"abcdef", b"cef"));
    assert!(!has_suffix(b"ef", b"def"));
    assert!(!has_suffix(b"defx", b"def"));
}
