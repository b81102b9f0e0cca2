//! The effector wire protocol: a line-oriented, UTF-8 exchange between the
//! engine and an effector subprocess. One fixed handshake line is exchanged
//! first; afterwards each request line carries a verb and percent-encoded
//! arguments, and each response line's first token names the verb's
//! outcome — any other first token is a protocol violation.
//!
//! This module builds and parses those lines. The I/O that carries them
//! lives outside the library; everything here is a function from strings to
//! strings.

use vstd::prelude::*;
use vstd::string::StrSliceExecFns;
use vstd::string::StringExecFns;
use vstd::utf8::encode_utf8;
use vstd::utf8::decode_utf8;
use vstd::utf8::valid_utf8;

use crate::strutil::str_eq;
use crate::strutil::first_token;
use crate::strutil::after_token;
use crate::strutil::take_first_token;
use crate::strutil::lemma_first_token_at;
use crate::strutil::lemma_first_token_nosep;
use crate::percent::pct_dec;
use crate::percent::pct_enc;
use crate::percent::enc_chars;
use crate::percent::percent_encode;
use crate::percent::percent_decode;
use crate::percent::lemma_pct_enc_printable;
use crate::percent::lemma_ascii_chars_of_encoding;
use crate::percent::lemma_pct_roundtrip_bytes;

verus! {

/// The handshake line the engine sends to a freshly spawned effector.
pub const HANDSHAKE_RQ: &'static str = "com.akavel.care.v2.rq";

/// The only reply that lets the effector be used.
pub const HANDSHAKE_RS: &'static str = "com.akavel.care.v2.rs";

/// Whitespace that line reading may leave at the end of a received line.
pub open spec fn is_line_ws(c: char) -> bool {
    c == ' ' || c == '\t' || c == '\r' || c == '\n'
}

/// A line with its trailing whitespace removed.
pub open spec fn trim_end_view(s: Seq<char>) -> Seq<char>
    decreases s.len(),
{
    if s.len() == 0 {
        s
    } else if is_line_ws(s.last()) {
        trim_end_view(s.drop_last())
    } else {
        s
    }
}

/// Remove trailing line whitespace (space, tab, carriage return, newline)
/// from a received line.
pub fn trim_line_end(s: &str) -> (r: &str)
    ensures
        r@ == trim_end_view(s@),
{
    let len = s.unicode_len();
    let mut i: usize = len;
    proof {
        assert(s@.subrange(0, len as int) =~= s@);
    }
    loop
        invariant
            len == s@.len(),
            i <= len,
            trim_end_view(s@) == trim_end_view(s@.subrange(0, i as int)),
        ensures
            i <= len,
            trim_end_view(s@) == trim_end_view(s@.subrange(0, i as int)),
            i == 0 || !is_line_ws(s@[i - 1]),
        decreases i,
    {
        if i == 0 {
            break;
        }
        let c = s.get_char(i - 1);
        if !(c == ' ' || c == '\t' || c == '\r' || c == '\n') {
            break;
        }
        proof {
            let cur = s@.subrange(0, i as int);
            assert(cur.last() == s@[i - 1]);
            assert(is_line_ws(cur.last()));
            assert(cur.drop_last() =~= s@.subrange(0, i - 1));
        }
        i = i - 1;
    }
    proof {
        let cur = s@.subrange(0, i as int);
        if i > 0 {
            assert(cur.last() == s@[i - 1]);
            assert(!is_line_ws(cur.last()));
        }
        assert(trim_end_view(cur) == cur);
    }
    s.substring_char(0, i)
}

/// Accept a handshake reply if and only if the line, with trailing
/// whitespace trimmed, is exactly the expected response token.
pub fn handshake_reply_ok(line: &str) -> (r: bool)
    ensures
        r == (trim_end_view(line@) == HANDSHAKE_RS@),
{
    let trimmed = trim_line_end(line);
    str_eq(trimmed, HANDSHAKE_RS)
}

/// The handshake check is strict: a reply that extends the expected token
/// with any trailing garbage that is not line whitespace is rejected.
pub proof fn lemma_handshake_strict(line: Seq<char>, extra: Seq<char>)
    requires
        line == HANDSHAKE_RS@ + extra,
        extra.len() > 0,
        !is_line_ws(extra.last()),
    ensures
        trim_end_view(line) != HANDSHAKE_RS@,
{
    assert(line.last() == extra.last());
    assert(trim_end_view(line) == line);
    assert(line.len() > HANDSHAKE_RS@.len());
}

/// The serving side accepts a handshake request if and only if the line,
/// with trailing whitespace trimmed, is exactly the expected request token.
pub fn handshake_request_ok(line: &str) -> (r: bool)
    ensures
        r == (trim_end_view(line@) == HANDSHAKE_RQ@),
{
    let trimmed = trim_line_end(line);
    str_eq(trimmed, HANDSHAKE_RQ)
}

/// The request line for `detect`: the verb and one percent-encoded path.
pub fn format_detect_request(path: &str) -> (r: String)
    ensures
        r@ == "detect "@ + enc_chars(path@),
{
    let mut line = String::from_str("detect ");
    let enc = percent_encode(path);
    proof {
        lemma_ascii_chars_of_encoding(enc@, pct_enc(encode_utf8(path@)));
    }
    line.append(enc.as_str());
    line
}

/// The request line for `gather`: the verb, the percent-encoded resource
/// path, and the percent-encoded shadow-side path.
pub fn format_gather_request(path: &str, shadow_path: &str) -> (r: String)
    ensures
        r@ == "gather "@ + enc_chars(path@) + " "@ + enc_chars(shadow_path@),
{
    let mut line = String::from_str("gather ");
    let enc = percent_encode(path);
    let enc2 = percent_encode(shadow_path);
    proof {
        lemma_ascii_chars_of_encoding(enc@, pct_enc(encode_utf8(path@)));
        lemma_ascii_chars_of_encoding(enc2@, pct_enc(encode_utf8(shadow_path@)));
    }
    line.append(enc.as_str());
    line.append(" ");
    line.append(enc2.as_str());
    line
}

/// The request line for `affect`: the verb, the percent-encoded resource
/// path, and the percent-encoded shadow-side path.
pub fn format_affect_request(path: &str, shadow_path: &str) -> (r: String)
    ensures
        r@ == "affect "@ + enc_chars(path@) + " "@ + enc_chars(shadow_path@),
{
    let mut line = String::from_str("affect ");
    let enc = percent_encode(path);
    let enc2 = percent_encode(shadow_path);
    proof {
        lemma_ascii_chars_of_encoding(enc@, pct_enc(encode_utf8(path@)));
        lemma_ascii_chars_of_encoding(enc2@, pct_enc(encode_utf8(shadow_path@)));
    }
    line.append(enc.as_str());
    line.append(" ");
    line.append(enc2.as_str());
    line
}

/// Read a `detect` response: `detected present` and `detected absent` are
/// the only accepted lines (after trimming trailing whitespace); anything
/// else is a protocol violation.
pub fn parse_detect_response(line: &str) -> (r: Option<bool>)
    ensures
        r == (if trim_end_view(line@) == "detected present"@ {
            Some(true)
        } else if trim_end_view(line@) == "detected absent"@ {
            Some(false)
        } else {
            Option::<bool>::None
        }),
{
    let trimmed = trim_line_end(line);
    if str_eq(trimmed, "detected present") {
        Some(true)
    } else if str_eq(trimmed, "detected absent") {
        Some(false)
    } else {
        None
    }
}

/// Whether a response line's first space-delimited token, after trimming
/// trailing whitespace, is exactly `token`: the line is the token alone, or
/// the token followed by a space and echoed arguments. Any other first
/// token is a protocol violation.
pub open spec fn response_token_is(line: Seq<char>, token: Seq<char>) -> bool {
    first_token(trim_end_view(line), ' ') == token
}

/// Decide whether a response line's first token is `token`.
fn response_token_ok(line: &str, token: &str) -> (r: bool)
    ensures
        r == response_token_is(line@, token@),
{
    let trimmed = trim_line_end(line);
    let (tok, _) = take_first_token(trimmed, ' ');
    str_eq(tok, token)
}

/// Read a `gather` response: accepted if and only if its first token is
/// `gathered` (echoed arguments may follow after a space).
pub fn gather_response_ok(line: &str) -> (r: bool)
    ensures
        r == response_token_is(line@, "gathered"@),
{
    response_token_ok(line, "gathered")
}

/// Read an `affect` response: accepted if and only if its first token is
/// `affected`.
pub fn affect_response_ok(line: &str) -> (r: bool)
    ensures
        r == response_token_is(line@, "affected"@),
{
    response_token_ok(line, "affected")
}

/// The response line the serving side writes for a `detect` result.
pub fn format_detect_response(present: bool) -> (r: String)
    ensures
        r@ == (if present {
            "detected present"@
        } else {
            "detected absent"@
        }),
{
    if present {
        String::from_str("detected present")
    } else {
        String::from_str("detected absent")
    }
}

/// The response line the serving side writes after a successful `gather`.
pub fn format_gather_response() -> (r: String)
    ensures
        r@ == "gathered"@,
{
    String::from_str("gathered")
}

/// The response line the serving side writes after a successful `affect`.
pub fn format_affect_response() -> (r: String)
    ensures
        r@ == "affected"@,
{
    String::from_str("affected")
}

/// A request decoded by the serving side of the protocol.
pub enum Request {
    Detect { path: String },
    Gather { path: String, shadow_path: String },
    Affect { path: String, shadow_path: String },
}

/// The view of a decoded request: its arguments as character sequences.
pub enum ReqV {
    Detect { path: Seq<char> },
    Gather { path: Seq<char>, shadow_path: Seq<char> },
    Affect { path: Seq<char>, shadow_path: Seq<char> },
}

impl View for Request {
    type V = ReqV;

    open spec fn view(&self) -> ReqV {
        match self {
            Request::Detect { path } => ReqV::Detect { path: path@ },
            Request::Gather { path, shadow_path } => ReqV::Gather {
                path: path@,
                shadow_path: shadow_path@,
            },
            Request::Affect { path, shadow_path } => ReqV::Affect {
                path: path@,
                shadow_path: shadow_path@,
            },
        }
    }
}

/// Why the serving side rejects a request line.
#[derive(Clone, Copy, PartialEq, Eq, Structural, Debug)]
pub enum ServeError {
    /// The line holds no space, so no command with arguments.
    ExpectedCommandWithArgs,
    /// The command token is not `detect`, `gather` or `affect`.
    UnknownCommand,
    /// `gather` and `affect` need two arguments; the line holds fewer.
    ExpectedTwoArguments,
    /// An argument did not percent-decode to valid UTF-8 text.
    InvalidArgument,
}

/// Percent-decoding at the specification level: the decoded characters when
/// the decoded bytes are valid UTF-8, nothing otherwise.
pub open spec fn spec_pct_decode(a: Seq<char>) -> Option<Seq<char>> {
    let bytes = pct_dec(encode_utf8(a));
    if valid_utf8(bytes) {
        Some(decode_utf8(bytes))
    } else {
        None
    }
}

/// What the serving side makes of one request line: the verb selects the
/// request kind, the first one or two space-separated arguments are
/// percent-decoded, and every malformed shape maps to its error.
pub open spec fn spec_parse_request(line: Seq<char>) -> Result<ReqV, ServeError> {
    if !line.contains(' ') {
        Err(ServeError::ExpectedCommandWithArgs)
    } else {
        let cmd = first_token(line, ' ');
        let args = after_token(line, ' ');
        if cmd == "detect"@ {
            match spec_pct_decode(first_token(args, ' ')) {
                Some(p) => Ok(ReqV::Detect { path: p }),
                None => Err(ServeError::InvalidArgument),
            }
        } else if cmd == "gather"@ || cmd == "affect"@ {
            if !args.contains(' ') {
                Err(ServeError::ExpectedTwoArguments)
            } else {
                let a1 = first_token(args, ' ');
                let a2 = first_token(after_token(args, ' '), ' ');
                match spec_pct_decode(a1) {
                    None => Err(ServeError::InvalidArgument),
                    Some(p1) => match spec_pct_decode(a2) {
                        None => Err(ServeError::InvalidArgument),
                        Some(p2) => if cmd == "gather"@ {
                            Ok(ReqV::Gather { path: p1, shadow_path: p2 })
                        } else {
                            Ok(ReqV::Affect { path: p1, shadow_path: p2 })
                        },
                    },
                }
            }
        } else {
            Err(ServeError::UnknownCommand)
        }
    }
}

/// The view of a parse result, for stating that the executable parser
/// agrees with [`spec_parse_request`].
pub open spec fn parse_result_view(r: Result<Request, ServeError>) -> Result<ReqV, ServeError> {
    match r {
        Ok(req) => Ok(req@),
        Err(e) => Err(e),
    }
}

/// Decode one percent-encoded argument, agreeing with [`spec_pct_decode`].
fn decode_argument(a: &str) -> (r: Option<String>)
    ensures
        match r {
            Some(t) => spec_pct_decode(a@) == Some(t@),
            None => spec_pct_decode(a@) is None,
        },
{
    broadcast use vstd::utf8::encode_utf8_decode_utf8;

    percent_decode(a)
}

/// Parse one request line, exactly as [`spec_parse_request`] describes.
pub fn parse_request(line: &str) -> (r: Result<Request, ServeError>)
    ensures
        parse_result_view(r) == spec_parse_request(line@),
{
    let (cmd, rest) = take_first_token(line, ' ');
    let args = match rest {
        Some(args) => args,
        None => {
            return Err(ServeError::ExpectedCommandWithArgs);
        },
    };
    if str_eq(cmd, "detect") {
        let (a1, _) = take_first_token(args, ' ');
        match decode_argument(a1) {
            Some(path) => Ok(Request::Detect { path }),
            None => Err(ServeError::InvalidArgument),
        }
    } else {
        let is_gather = str_eq(cmd, "gather");
        let is_affect = str_eq(cmd, "affect");
        if is_gather || is_affect {
            let (a1, rest2) = take_first_token(args, ' ');
            let rest2 = match rest2 {
                Some(rest2) => rest2,
                None => {
                    return Err(ServeError::ExpectedTwoArguments);
                },
            };
            let (a2, _) = take_first_token(rest2, ' ');
            let p1 = match decode_argument(a1) {
                Some(p1) => p1,
                None => {
                    return Err(ServeError::InvalidArgument);
                },
            };
            let p2 = match decode_argument(a2) {
                Some(p2) => p2,
                None => {
                    return Err(ServeError::InvalidArgument);
                },
            };
            if is_gather {
                Ok(Request::Gather { path: p1, shadow_path: p2 })
            } else {
                Ok(Request::Affect { path: p1, shadow_path: p2 })
            }
        } else {
            Err(ServeError::UnknownCommand)
        }
    }
}

/// What holds of the character view of a percent-encoded argument: it is
/// ASCII, it holds no space, and its UTF-8 bytes are exactly the encoded
/// bytes.
pub proof fn lemma_enc_chars_props(s: Seq<char>)
    ensures
        vstd::utf8::is_ascii_chars(enc_chars(s)),
        encode_utf8(enc_chars(s)) == pct_enc(encode_utf8(s)),
        !enc_chars(s).contains(' '),
{
    let bytes = pct_enc(encode_utf8(s));
    let chars = enc_chars(s);
    lemma_pct_enc_printable(encode_utf8(s));
    assert forall|i: int| 0 <= i < chars.len() implies '\0' <= #[trigger] chars[i]
        && chars[i] <= '\u{7f}' && chars[i] != ' ' by {
        assert(chars[i] == bytes[i] as char);
        assert(33 <= bytes[i] && bytes[i] <= 126);
        assert((bytes[i] as char) as u32 == bytes[i] as u32);
    }
    assert(vstd::utf8::is_ascii_chars(chars));
    vstd::utf8::is_ascii_chars_encode_utf8(chars);
    assert forall|i: int| 0 <= i < chars.len() implies encode_utf8(chars)[i] == bytes[i] by {
        assert(encode_utf8(chars)[i] == chars[i] as u8);
        assert(chars[i] == bytes[i] as char);
        assert((bytes[i] as char) as u32 == bytes[i] as u32);
    }
    assert(encode_utf8(chars) =~= bytes);
    if chars.contains(' ') {
        let i = choose|i: int| 0 <= i < chars.len() && chars[i] == ' ';
        assert((' ' as u32) == 32);
        assert(false);
    }
}

/// A percent-encoded argument decodes back to the original text.
pub proof fn lemma_enc_chars_decodes(s: Seq<char>)
    ensures
        spec_pct_decode(enc_chars(s)) == Some(s),
{
    lemma_enc_chars_props(s);
    lemma_pct_roundtrip_bytes(encode_utf8(s));
    vstd::utf8::encode_utf8_valid_utf8(s);
    vstd::utf8::encode_utf8_decode_utf8(s);
}

/// The `detect` round trip: the request line built for a path parses on the
/// serving side back to a `detect` request for exactly that path, even when
/// the path holds spaces or other bytes the wire could not carry raw.
pub proof fn lemma_detect_request_roundtrip(path: Seq<char>)
    ensures
        spec_parse_request("detect "@ + enc_chars(path)) == Ok::<ReqV, ServeError>(ReqV::Detect { path }),
{
    reveal_strlit("detect ");
    reveal_strlit("detect");
    let line = "detect "@ + enc_chars(path);
    lemma_enc_chars_props(path);
    assert(line[6] == ' ');
    assert(forall|j: int| 0 <= j < 6 ==> line[j] != ' ');
    lemma_first_token_at(line, ' ', 6);
    assert(first_token(line, ' ') =~= "detect"@);
    assert(after_token(line, ' ') =~= enc_chars(path));
    assert(line.contains(' ')) by {
        assert(line[6] == ' ');
    }
    lemma_first_token_nosep(enc_chars(path), ' ');
    lemma_enc_chars_decodes(path);
}

/// The `gather` round trip: both percent-encoded arguments of a built
/// request line decode on the serving side back to the original texts.
pub proof fn lemma_gather_request_roundtrip(path: Seq<char>, shadow_path: Seq<char>)
    ensures
        spec_parse_request("gather "@ + enc_chars(path) + " "@ + enc_chars(shadow_path)) == Ok::<ReqV, ServeError>(
            ReqV::Gather { path, shadow_path },
        ),
{
    reveal_strlit("gather ");
    reveal_strlit("gather");
    reveal_strlit(" ");
    reveal_strlit("detect");
    let enc1 = enc_chars(path);
    let enc2 = enc_chars(shadow_path);
    let line = "gather "@ + enc1 + " "@ + enc2;
    lemma_enc_chars_props(path);
    lemma_enc_chars_props(shadow_path);
    assert(line[6] == ' ');
    assert(forall|j: int| 0 <= j < 6 ==> line[j] != ' ');
    lemma_first_token_at(line, ' ', 6);
    assert(first_token(line, ' ') =~= "gather"@);
    let args = after_token(line, ' ');
    assert(args =~= enc1 + " "@ + enc2);
    assert(line.contains(' ')) by {
        assert(line[6] == ' ');
    }
    assert(first_token(line, ' ') != "detect"@) by {
        assert(first_token(line, ' ')[0] == 'g');
        assert("detect"@[0] == 'd');
    }
    let m = enc1.len() as int;
    assert(args[m] == ' ');
    assert(forall|j: int| 0 <= j < m ==> args[j] == enc1[j] && args[j] != ' ');
    lemma_first_token_at(args, ' ', m);
    assert(first_token(args, ' ') =~= enc1);
    assert(after_token(args, ' ') =~= enc2);
    assert(args.contains(' ')) by {
        assert(args[m] == ' ');
    }
    lemma_first_token_nosep(enc2, ' ');
    lemma_enc_chars_decodes(path);
    lemma_enc_chars_decodes(shadow_path);
}

} // verus!
