//! Percent-encoding of protocol arguments. Every argument sent over the
//! effector wire protocol is percent-encoded so that it is guaranteed to
//! contain no raw space or newline; the subprocess side decodes it back to
//! the original bytes. The encoding and decoding themselves are done by the
//! `urlencoding` crate behind exactly specified trusted wrappers, and the
//! round trip through them is proved below.

use vstd::prelude::*;
use vstd::utf8::encode_utf8;
use vstd::utf8::decode_utf8;
use vstd::utf8::valid_utf8;
use vstd::utf8::is_ascii_chars;

verus! {

/// A byte that percent-encoding leaves as it is: ASCII alphanumerics and
/// `-`, `.`, `_`, `~`.
pub open spec fn is_url_unreserved(b: u8) -> bool {
    ||| (48 <= b && b <= 57)  // '0' ..= '9'
    ||| (65 <= b && b <= 90)  // 'A' ..= 'Z'
    ||| (97 <= b && b <= 122)  // 'a' ..= 'z'
    ||| b == 45  // '-'
    ||| b == 46  // '.'
    ||| b == 95  // '_'
    ||| b == 126  // '~'
}

/// The upper-case hexadecimal digit for a value below 16.
pub open spec fn upper_hex_digit(v: u8) -> u8
    recommends
        v < 16,
{
    if v <= 9 {
        (48 + v) as u8  // '0' + v
    } else {
        (55 + v) as u8  // 'A' - 10 + v
    }
}

/// The percent-encoding of one byte: itself when unreserved, otherwise `%`
/// followed by two upper-case hexadecimal digits.
pub open spec fn pct_enc_byte(b: u8) -> Seq<u8> {
    if is_url_unreserved(b) {
        seq![b]
    } else {
        seq![37u8, upper_hex_digit(b / 16), upper_hex_digit(b % 16)]
    }
}

/// The percent-encoding of a byte sequence.
pub open spec fn pct_enc(s: Seq<u8>) -> Seq<u8>
    decreases s.len(),
{
    if s.len() == 0 {
        Seq::empty()
    } else {
        pct_enc_byte(s[0]) + pct_enc(s.drop_first())
    }
}

/// A byte that is an ASCII hexadecimal digit, upper or lower case.
pub open spec fn is_hex_digit(b: u8) -> bool {
    ||| (48 <= b && b <= 57)  // '0' ..= '9'
    ||| (65 <= b && b <= 70)  // 'A' ..= 'F'
    ||| (97 <= b && b <= 102)  // 'a' ..= 'f'
}

/// The value of an ASCII hexadecimal digit.
pub open spec fn hex_val(b: u8) -> u8
    recommends
        is_hex_digit(b),
{
    if 48 <= b && b <= 57 {
        (b - 48) as u8
    } else if 65 <= b && b <= 70 {
        (b - 55) as u8
    } else {
        (b - 87) as u8
    }
}

/// Percent-decoding of a byte sequence, exactly as `urlencoding` performs
/// it: `%` followed by two hexadecimal digits becomes one byte; a `%` whose
/// following bytes do not have that shape is passed through literally
/// (together with a first hexadecimal digit when only the second is bad),
/// and a `%` fewer than two bytes before the end is passed through with the
/// remainder unchanged.
pub open spec fn pct_dec(s: Seq<u8>) -> Seq<u8>
    decreases s.len(),
{
    if s.len() == 0 {
        Seq::empty()
    } else if s[0] == 37 {
        if s.len() >= 3 && is_hex_digit(s[1]) && is_hex_digit(s[2]) {
            seq![(hex_val(s[1]) * 16 + hex_val(s[2])) as u8] + pct_dec(s.skip(3))
        } else if s.len() >= 3 && is_hex_digit(s[1]) {
            seq![s[0], s[1]] + pct_dec(s.skip(2))
        } else if s.len() >= 3 {
            seq![s[0]] + pct_dec(s.skip(1))
        } else {
            s
        }
    } else {
        seq![s[0]] + pct_dec(s.skip(1))
    }
}

/// The characters of an ASCII byte sequence.
pub open spec fn ascii_chars_of(b: Seq<u8>) -> Seq<char> {
    Seq::new(b.len(), |i: int| b[i] as char)
}

/// The character view of the percent-encoding of a string's UTF-8 bytes;
/// what the encoding wrapper returns, seen as characters.
pub open spec fn enc_chars(s: Seq<char>) -> Seq<char> {
    ascii_chars_of(pct_enc(encode_utf8(s)))
}

/// Every byte of a percent-encoded sequence is printable ASCII; in
/// particular the encoding holds no space and no newline.
pub proof fn lemma_pct_enc_printable(s: Seq<u8>)
    ensures
        forall|i: int|
            0 <= i < pct_enc(s).len() ==> 33 <= #[trigger] pct_enc(s)[i] && pct_enc(s)[i] <= 126,
    decreases s.len(),
{
    if s.len() > 0 {
        lemma_pct_enc_printable(s.drop_first());
        let head = pct_enc_byte(s[0]);
        let tail = pct_enc(s.drop_first());
        assert forall|i: int| 0 <= i < pct_enc(s).len() implies 33 <= #[trigger] pct_enc(s)[i]
            && pct_enc(s)[i] <= 126 by {
            assert(pct_enc(s) == head + tail);
            if i < head.len() {
                assert(pct_enc(s)[i] == head[i]);
            } else {
                assert(pct_enc(s)[i] == tail[i - head.len()]);
                assert(33 <= tail[i - head.len()] && tail[i - head.len()] <= 126);
            }
        }
    }
}

/// Decoding inverts encoding on any byte sequence.
pub proof fn lemma_pct_roundtrip_bytes(s: Seq<u8>)
    ensures
        pct_dec(pct_enc(s)) == s,
    decreases s.len(),
{
    if s.len() == 0 {
        assert(pct_dec(pct_enc(s)) =~= s);
    } else {
        let b = s[0];
        let rest = s.drop_first();
        lemma_pct_roundtrip_bytes(rest);
        if is_url_unreserved(b) {
            assert(pct_enc(s) =~= seq![b] + pct_enc(rest));
            assert(pct_enc(s)[0] == b && b != 37);
            assert(pct_enc(s).skip(1) =~= pct_enc(rest));
            assert(pct_dec(pct_enc(s)) =~= seq![b] + pct_dec(pct_enc(rest)));
            assert(pct_dec(pct_enc(s)) =~= s);
        } else {
            let h1 = upper_hex_digit(b / 16);
            let h2 = upper_hex_digit(b % 16);
            assert(pct_enc(s) =~= seq![37u8, h1, h2] + pct_enc(rest));
            assert(is_hex_digit(h1) && is_hex_digit(h2));
            assert(hex_val(h1) == b / 16 && hex_val(h2) == b % 16);
            assert(hex_val(h1) * 16 + hex_val(h2) == b);
            assert(pct_enc(s).skip(3) =~= pct_enc(rest));
            assert(pct_dec(pct_enc(s)) =~= seq![b] + pct_dec(pct_enc(rest)));
            assert(pct_dec(pct_enc(s)) =~= s);
        }
    }
}

/// Percent-encode a string's UTF-8 bytes.
///
/// Relies on `urlencoding::encode`, which percent-encodes every byte of the
/// UTF-8 form except ASCII alphanumerics and `-`, `.`, `_`, `~`, writing
/// upper-case hexadecimal digits; the result is pure ASCII.
#[verifier::external_body]
pub fn percent_encode(s: &str) -> (r: String)
    ensures
        is_ascii_chars(r@),
        encode_utf8(r@) == pct_enc(encode_utf8(s@)),
{
    urlencoding::encode(s).into_owned()
}

/// Percent-decode a string, giving the decoded text when the decoded bytes
/// are valid UTF-8 and nothing otherwise.
///
/// Relies on `urlencoding::decode`, which decodes `%`-escapes in the UTF-8
/// bytes as [`pct_dec`] describes and fails exactly when the decoded bytes
/// are not valid UTF-8.
#[verifier::external_body]
pub fn percent_decode(s: &str) -> (r: Option<String>)
    ensures
        match r {
            Some(t) => valid_utf8(pct_dec(encode_utf8(s@))) && encode_utf8(t@) == pct_dec(
                encode_utf8(s@),
            ),
            None => !valid_utf8(pct_dec(encode_utf8(s@))),
        },
{
    match urlencoding::decode(s) {
        Ok(t) => Some(t.into_owned()),
        Err(_) => None,
    }
}

/// An ASCII character sequence is pinned down by its UTF-8 bytes.
pub proof fn lemma_ascii_chars_of_encoding(r: Seq<char>, bytes: Seq<u8>)
    requires
        is_ascii_chars(r),
        encode_utf8(r) == bytes,
    ensures
        r == ascii_chars_of(bytes),
{
    vstd::utf8::is_ascii_chars_encode_utf8(r);
    assert forall|i: int| 0 <= i < r.len() implies r[i] == ascii_chars_of(bytes)[i] by {
        assert(r[i] as u8 == encode_utf8(r)[i]);
        assert((r[i] as u32) < 128) by {
            vstd::utf8::is_ascii_chars_nat_bound(r);
        }
        assert((r[i] as u32) as u8 == r[i] as u8);
        vstd::utf8::char_u32_cast(r[i], r[i] as u32);
    }
    assert(r =~= ascii_chars_of(bytes));
}

/// Percent-encoding round-trips: decoding the encoding of any string gives
/// back exactly that string, character for character.
pub proof fn lemma_percent_roundtrip(s: Seq<char>)
    ensures
        pct_dec(pct_enc(encode_utf8(s))) == encode_utf8(s),
        valid_utf8(pct_dec(pct_enc(encode_utf8(s)))),
        decode_utf8(pct_dec(pct_enc(encode_utf8(s)))) == s,
{
    lemma_pct_roundtrip_bytes(encode_utf8(s));
    vstd::utf8::encode_utf8_valid_utf8(s);
    vstd::utf8::encode_utf8_decode_utf8(s);
}

} // verus!
