//! Percent-encoding of text, as it appears in the query part of a URI.

use vstd::prelude::*;
use vstd::utf8::*;

verus! {

/// The bytes that stand for themselves in encoded text: ASCII letters and
/// digits, `-`, `.`, `_` and `~`.
pub open spec fn is_unreserved(b: u8) -> bool {
    ||| 0x30 <= b <= 0x39
    ||| 0x41 <= b <= 0x5a
    ||| 0x61 <= b <= 0x7a
    ||| b == 0x2d
    ||| b == 0x2e
    ||| b == 0x5f
    ||| b == 0x7e
}

/// The ASCII code of the upper-case hexadecimal digit for `n`.
pub open spec fn hex_digit(n: u8) -> u8
    recommends
        n < 16,
{
    if n < 10 {
        (0x30 + n) as u8
    } else {
        (0x37 + n) as u8
    }
}

/// What a hexadecimal digit, in either case, stands for.
pub open spec fn hex_value(d: u8) -> Option<u8> {
    if 0x30 <= d <= 0x39 {
        Some((d - 0x30) as u8)
    } else if 0x41 <= d <= 0x46 {
        Some((d - 0x37) as u8)
    } else if 0x61 <= d <= 0x66 {
        Some((d - 0x57) as u8)
    } else {
        None
    }
}

/// One byte, escaped: itself if unreserved, else `%` and two hex digits.
pub open spec fn escape_byte(b: u8) -> Seq<u8> {
    if is_unreserved(b) {
        seq![b]
    } else {
        seq![0x25u8, hex_digit(b / 16), hex_digit(b % 16)]
    }
}

/// Every byte of `bytes` escaped, in order.
pub open spec fn escape(bytes: Seq<u8>) -> Seq<u8>
    decreases bytes.len(),
{
    if bytes.len() == 0 {
        Seq::empty()
    } else {
        escape_byte(bytes[0]) + escape(bytes.drop_first())
    }
}

/// True when `bytes` starts with `%` and two hexadecimal digits.
pub open spec fn starts_with_escape(bytes: Seq<u8>) -> bool {
    &&& bytes.len() >= 3
    &&& bytes[0] == 0x25
    &&& hex_value(bytes[1]) is Some
    &&& hex_value(bytes[2]) is Some
}

/// `bytes` with every `%XY` replaced by the byte it stands for. A `%` that
/// two hexadecimal digits do not follow is kept as it is.
pub open spec fn unescape(bytes: Seq<u8>) -> Seq<u8>
    decreases bytes.len(),
{
    if bytes.len() == 0 {
        Seq::empty()
    } else if starts_with_escape(bytes) {
        seq![(hex_value(bytes[1])->0 * 16 + hex_value(bytes[2])->0) as u8] + unescape(
            bytes.skip(3),
        )
    } else {
        seq![bytes[0]] + unescape(bytes.drop_first())
    }
}

/// The text that UTF-8 bytes unescape to, if they unescape to UTF-8 at all.
pub open spec fn decoded_bytes(bytes: Seq<u8>) -> Option<Seq<char>> {
    let raw = unescape(bytes);
    if valid_utf8(raw) {
        Some(decode_utf8(raw))
    } else {
        None
    }
}

/// The percent-encoding of `text`: its UTF-8 bytes, escaped.
pub open spec fn percent_encoded(text: Seq<char>) -> Seq<char> {
    decode_utf8(escape(encode_utf8(text)))
}

/// The text that `text` is the percent-encoding of, if there is one.
pub open spec fn percent_decoded(text: Seq<char>) -> Option<Seq<char>> {
    decoded_bytes(encode_utf8(text))
}

/// Percent-encodes `data` with `urlencoding::encode`.
///
/// Trusted: the result is taken to be `percent_encoded(data@)`, that is, each
/// byte of `data` other than an ASCII letter, a digit, `-`, `.`, `_` or `~`
/// is replaced by `%` and its two upper-case hexadecimal digits.
#[verifier::external_body]
pub(crate) fn encode(data: &str) -> (encoded: String)
    ensures
        encoded@ == percent_encoded(data@),
{
    urlencoding::encode(data).into_owned()
}

/// Percent-decodes `data` with `urlencoding::decode`.
///
/// Trusted: the result is taken to be `percent_decoded(data@)`, that is, each
/// `%` followed by two hexadecimal digits is replaced by the byte they name,
/// every other byte is kept, and the outcome is `None` exactly when the bytes
/// so obtained are not UTF-8.
#[verifier::external_body]
pub(crate) fn decode(data: &str) -> (decoded: Option<String>)
    ensures
        match decoded {
            Some(text) => percent_decoded(data@) == Some(text@),
            None => percent_decoded(data@) is None,
        },
{
    match urlencoding::decode(data) {
        Ok(text) => Some(text.into_owned()),
        Err(_) => None,
    }
}

/// What escaped bytes are made of: unreserved bytes and `%`.
pub open spec fn is_escaped_byte(b: u8) -> bool {
    is_unreserved(b) || b == 0x25
}

/// Escaping leaves nothing but unreserved bytes and `%`.
pub proof fn lemma_escape_bytes(bytes: Seq<u8>)
    ensures
        forall|i: int| 0 <= i < escape(bytes).len() ==> is_escaped_byte(#[trigger] escape(bytes)[i]),
    decreases bytes.len(),
{
    if bytes.len() > 0 {
        lemma_escape_bytes(bytes.drop_first());
        let head = escape_byte(bytes[0]);
        let tail = escape(bytes.drop_first());
        assert forall|i: int| 0 <= i < escape(bytes).len() implies is_escaped_byte(
            #[trigger] escape(bytes)[i],
        ) by {
            if i >= head.len() {
                assert(escape(bytes)[i] == tail[i - head.len()]);
            }
        }
    }
}

/// Unescaping undoes escaping.
pub proof fn lemma_unescape_escape(bytes: Seq<u8>)
    ensures
        unescape(escape(bytes)) == bytes,
    decreases bytes.len(),
{
    if bytes.len() > 0 {
        let b = bytes[0];
        let rest = bytes.drop_first();
        let whole = escape(bytes);
        lemma_unescape_escape(rest);
        if is_unreserved(b) {
            assert(whole.drop_first() =~= escape(rest));
        } else {
            assert(whole.skip(3) =~= escape(rest));
            assert(hex_value(whole[1]) == Some((b / 16) as u8));
            assert(hex_value(whole[2]) == Some((b % 16) as u8));
        }
        assert(unescape(whole) =~= seq![b] + rest);
        assert(seq![b] + rest =~= bytes);
    }
}

/// Bytes below 128 are UTF-8 as they stand.
proof fn lemma_ascii_is_utf8(bytes: Seq<u8>)
    requires
        forall|i: int| 0 <= i < bytes.len() ==> #[trigger] bytes[i] < 0x80,
    ensures
        valid_utf8(bytes),
{
    assert(bytes.subrange(0, 0) =~= Seq::<u8>::empty());
    partial_valid_utf8_extend_ascii_block(bytes, 0, bytes.len() as int);
    assert(bytes.subrange(0, bytes.len() as int) =~= bytes);
}

/// The UTF-8 bytes of a text are those of its parts, one after the other.
pub proof fn lemma_bytes_of_concat(a: Seq<char>, b: Seq<char>)
    ensures
        encode_utf8(a + b) == encode_utf8(a) + encode_utf8(b),
    decreases a.len(),
{
    if a.len() == 0 {
        assert(a + b =~= b);
        assert(encode_utf8(a) + encode_utf8(b) =~= encode_utf8(b));
    } else {
        lemma_bytes_of_concat(a.drop_first(), b);
        assert((a + b).drop_first() =~= a.drop_first() + b);
        assert(encode_utf8(a + b) =~= encode_utf8(a) + encode_utf8(b));
    }
}

/// A byte below 128 among the UTF-8 bytes of a scalar is that scalar.
proof fn lemma_ascii_byte_of_scalar(c: u32, i: int)
    requires
        is_scalar(c),
        0 <= i < encode_scalar(c).len(),
        encode_scalar(c)[i] < 0x80,
    ensures
        encode_scalar(c)[i] == c,
{
    assert(c <= 0x7f ==> (c & 0x7f) as u8 == c) by (bit_vector);
    assert(0xc0u8 | ((c >> 6) & 0x1f) as u8 >= 0x80) by (bit_vector);
    assert(0xe0u8 | ((c >> 12) & 0x0f) as u8 >= 0x80) by (bit_vector);
    assert(0xf0u8 | ((c >> 18) & 0x07) as u8 >= 0x80) by (bit_vector);
    assert(0x80u8 | (c & 0x3f) as u8 >= 0x80) by (bit_vector);
    assert(0x80u8 | ((c >> 6) & 0x3f) as u8 >= 0x80) by (bit_vector);
    assert(0x80u8 | ((c >> 12) & 0x3f) as u8 >= 0x80) by (bit_vector);
}

/// A byte below 128 among the UTF-8 bytes of a text is one of its characters.
pub proof fn lemma_ascii_byte_of_text(text: Seq<char>, i: int) -> (k: int)
    requires
        0 <= i < encode_utf8(text).len(),
        encode_utf8(text)[i] < 0x80,
    ensures
        0 <= k < text.len(),
        text[k] as u32 == encode_utf8(text)[i],
    decreases text.len(),
{
    let head = encode_scalar(text[0] as u32);
    if i < head.len() {
        char_is_scalar(text[0]);
        lemma_ascii_byte_of_scalar(text[0] as u32, i);
        0
    } else {
        let rest = text.drop_first();
        assert(encode_utf8(text)[i] == encode_utf8(rest)[i - head.len()]);
        let k = lemma_ascii_byte_of_text(rest, i - head.len());
        k + 1
    }
}

/// The bytes of encoded text are the escaped bytes of the text.
pub proof fn lemma_encoded_bytes(text: Seq<char>)
    ensures
        encode_utf8(percent_encoded(text)) == escape(encode_utf8(text)),
{
    let escaped = escape(encode_utf8(text));
    lemma_escape_bytes(encode_utf8(text));
    lemma_ascii_is_utf8(escaped);
    decode_utf8_encode_utf8(escaped);
}

/// Decoding undoes encoding: whatever the text, its percent-encoding
/// decodes, and decodes to that text.
pub proof fn lemma_decode_encode(text: Seq<char>)
    ensures
        percent_decoded(percent_encoded(text)) == Some(text),
{
    lemma_encoded_bytes(text);
    lemma_unescape_escape(encode_utf8(text));
    encode_utf8_valid_utf8(text);
    encode_utf8_decode_utf8(text);
}

} // verus!
