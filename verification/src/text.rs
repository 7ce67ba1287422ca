//! Text as a sequence of characters and as UTF-8 bytes: reversing characters,
//! comparing bytes at the two ends, and what an ASCII byte at a given place
//! of an encoding says about the characters.

use vstd::prelude::*;
use vstd::utf8::*;

verus! {

/// Returns the characters of `text` in the opposite order. Characters are
/// kept whole: a character of several bytes comes out as it went in.
pub fn reverse_chars(text: &str) -> (res: String)
    ensures
        res@ == text@.reverse(),
{
    let mut chars: Vec<char> = Vec::new();
    for c in it: text.chars()
        invariant
            chars@ == it.history(),
    {
        chars.push(c);
    }
    let n: usize = chars.len();
    let mut res = String::new();
    let mut i: usize = n;
    while i > 0
        invariant
            i <= n,
            n == chars@.len(),
            res@.len() == n - i,
            forall|j: int| 0 <= j < res@.len() ==> res@[j] == chars@[n - 1 - j],
        decreases i,
    {
        i = i - 1;
        res.push(chars[i]);
    }
    assert(res@ =~= text@.reverse());
    res
}

/// Tells whether `bytes` begins with `prefix`.
pub fn has_prefix(bytes: &[u8], prefix: &[u8]) -> (res: bool)
    ensures
        res == prefix@.is_prefix_of(bytes@),
{
    let k: usize = prefix.len();
    if bytes.len() < k {
        return false;
    }
    let mut i: usize = 0;
    while i < k
        invariant
            i <= k,
            k == prefix@.len(),
            k <= bytes@.len(),
            forall|j: int| 0 <= j < i ==> bytes@[j] == prefix@[j],
        decreases k - i,
    {
        if bytes[i] != prefix[i] {
            assert(bytes@.subrange(0, k as int)[i as int] != prefix@[i as int]);
            return false;
        }
        i = i + 1;
    }
    assert(prefix@ =~= bytes@.subrange(0, k as int));
    true
}

/// Tells whether `bytes` ends with `suffix`.
pub fn has_suffix(bytes: &[u8], suffix: &[u8]) -> (res: bool)
    ensures
        res == suffix@.is_suffix_of(bytes@),
{
    let k: usize = suffix.len();
    let n: usize = bytes.len();
    if n < k {
        return false;
    }
    let start: usize = n - k;
    let mut i: usize = 0;
    while i < k
        invariant
            i <= k,
            k == suffix@.len(),
            n == bytes@.len(),
            start == n - k,
            forall|j: int| 0 <= j < i ==> bytes@[start + j] == suffix@[j],
        decreases k - i,
    {
        if bytes[start + i] != suffix[i] {
            assert(bytes@.subrange(n - k, n as int)[i as int] != suffix@[i as int]);
            return false;
        }
        i = i + 1;
    }
    assert(suffix@ =~= bytes@.subrange(n - k, n as int));
    true
}

/// The UTF-8 encoding of a concatenation is the concatenation of the
/// encodings.
pub proof fn lemma_encode_utf8_concat(a: Seq<char>, b: Seq<char>)
    ensures
        encode_utf8(a + b) == encode_utf8(a) + encode_utf8(b),
    decreases a.len(),
{
    if a.len() == 0 {
        assert(a + b =~= b);
    } else {
        assert((a + b).drop_first() =~= a.drop_first() + b);
        lemma_encode_utf8_concat(a.drop_first(), b);
    }
    assert(encode_utf8(a + b) =~= encode_utf8(a) + encode_utf8(b));
}

/// Every character takes at least one byte, so a text has no more characters
/// than bytes.
pub proof fn lemma_encode_utf8_len(a: Seq<char>)
    ensures
        encode_utf8(a).len() >= a.len(),
    decreases a.len(),
{
    if a.len() > 0 {
        lemma_encode_utf8_len(a.drop_first());
    }
}

/// In valid UTF-8, the end of a run of ASCII bytes at the front is a character
/// boundary.
pub proof fn lemma_ascii_prefix_boundary(bytes: Seq<u8>, k: int)
    requires
        valid_utf8(bytes),
        0 <= k <= bytes.len(),
        forall|i: int| 0 <= i < k ==> bytes[i] <= 0x7f,
    ensures
        is_char_boundary(bytes, k),
    decreases k,
{
    if k > 0 {
        // The first byte is a character of its own, so the rest is what
        // follows it.
        let rest = pop_first_scalar(bytes);
        assert(rest =~= bytes.subrange(1, bytes.len() as int));
        lemma_ascii_prefix_boundary(rest, k - 1);
    }
}

/// The encoding of a scalar begins, or ends, with a given ASCII byte only
/// where the scalar is that ASCII character: the first byte of a longer
/// encoding, and each byte after it, has its top bit set.
proof fn lemma_scalar_ascii_ends(c: u32, a: u8)
    requires
        is_scalar(c),
        a <= 0x7f,
    ensures
        encode_scalar(c).len() >= 1,
        encode_scalar(c).first() == a <==> c == a,
        encode_scalar(c).last() == a <==> c == a,
{
    if has_width_1_encoding(c) {
        assert((c & 0x7F) as u8 == a <==> c == a as u32) by (bit_vector)
            requires
                c <= 0x7F,
                a <= 0x7f,
        ;
    } else {
        assert((0xC0u8 | ((c >> 6) & 0x1F) as u8) >= 0xC0) by (bit_vector);
        assert((0xE0u8 | ((c >> 12) & 0x0F) as u8) >= 0xE0) by (bit_vector);
        assert((0xF0u8 | ((c >> 18) & 0x7) as u8) >= 0xF0) by (bit_vector);
        assert((0x80u8 | (c & 0x3F) as u8) >= 0x80) by (bit_vector);
    }
}

/// A text's encoding begins with a given ASCII byte exactly where the text
/// begins with that ASCII character, and likewise for how it ends.
pub proof fn lemma_ascii_at_ends(t: Seq<char>, a: char)
    requires
        t.len() > 0,
        a as u32 <= 0x7f,
    ensures
        encode_utf8(t).len() > 0,
        encode_utf8(t).first() == a as u8 <==> t.first() == a,
        encode_utf8(t).last() == a as u8 <==> t.last() == a,
{
    let head = t.first();
    let tail = t.last();
    char_is_scalar(head);
    char_is_scalar(tail);
    char_u32_cast(head, head as u32);
    char_u32_cast(tail, tail as u32);
    lemma_scalar_ascii_ends(head as u32, a as u8);
    lemma_scalar_ascii_ends(tail as u32, a as u8);

    // The encoding ends with the encoding of the last character.
    let last_only = seq![tail];
    assert(t =~= t.drop_last() + last_only);
    lemma_encode_utf8_concat(t.drop_last(), last_only);
    assert(encode_utf8(last_only.drop_first()) =~= Seq::<u8>::empty());
    assert(encode_utf8(last_only) =~= encode_scalar(tail as u32));
}

} // verus!
