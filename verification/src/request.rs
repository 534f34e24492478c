//! Requests: parsing from frames and rendering back to bytes.
//!
//! A request frame is the version line, a `Method` line, a value line
//! whose key the method determines, and any further lines as custom
//! headers.  The parser is specified line by line over the frame bytes;
//! the serializer is specified as the joined rendering of those lines,
//! and parsing a rendering is proved to give the request back.

use vstd::prelude::*;
use crate::text;
use crate::text::{
    ascii_bytes, ascii_str, chars_wf, is_digit_byte, join_lines, key_wf, lines_from,
    render_kv_bare, render_kv_quoted, spec_parse_kv, split_lines, trim_zeros, value_wf, GT, LT,
    NL,
};
use crate::strmap::{pairs_insert, pairs_unique, StrMap};
use crate::varmap::Varmap;

verus! {

/// Protocol version named on a frame's first line.
#[derive(Clone, Copy, Debug, PartialEq, Eq, Structural)]
pub enum Version {
    CHAT10,
}

/// Request verb, named on a frame's second line.
#[derive(Clone, Copy, Debug, PartialEq, Eq, Structural)]
pub enum Method {
    Bind,
    Handshake,
    Send,
}

/// Why a frame failed to parse.
#[derive(Clone, Copy, Debug, PartialEq, Eq, Structural)]
pub enum ParseError {
    InvalidFormat,
    InvalidKey,
    MissingVersion,
    MissingMethod,
    MissingRequestValue,
    MissingCode,
    NotFound,
}

/// A frame as read from the wire, with the peer that sent it.
#[derive(Clone, Debug)]
pub struct RawRequest {
    pub bytes: [u8; 512],
    pub addr: String,
}

/// A parsed request.  The meaning of `value` follows the method: a name
/// to bind, a token to present, or a message to send.
#[derive(Debug)]
pub struct Request {
    pub addr: String,
    pub version: Version,
    pub method: Method,
    pub value: String,
    pub custom: StrMap,
    pub varmap: Varmap,
}

/// The abstract content of a request: what parsing extracts and
/// serializing lays down, with strings as character sequences.
pub struct ReqModel {
    pub version: Version,
    pub method: Method,
    pub value: Seq<char>,
    pub custom: Seq<(Seq<char>, Seq<char>)>,
}

// The protocol words, each as its byte image and as a `String` maker
// proved to spell it.

pub open spec fn w_version_line() -> Seq<u8> {
    // "<CHAT \ 1.0>"
    seq![LT, 0x43u8, 0x48, 0x41, 0x54, 0x20, 0x5c, 0x20, 0x31, 0x2e, 0x30, GT]
}

pub open spec fn w_method() -> Seq<u8> {
    // "Method"
    seq![0x4du8, 0x65, 0x74, 0x68, 0x6f, 0x64]
}

pub open spec fn w_bind() -> Seq<u8> {
    // "Bind"
    seq![0x42u8, 0x69, 0x6e, 0x64]
}

pub open spec fn w_handshake() -> Seq<u8> {
    // "Handshake"
    seq![0x48u8, 0x61, 0x6e, 0x64, 0x73, 0x68, 0x61, 0x6b, 0x65]
}

pub open spec fn w_send() -> Seq<u8> {
    // "Send"
    seq![0x53u8, 0x65, 0x6e, 0x64]
}

pub open spec fn w_name() -> Seq<u8> {
    // "Name"
    seq![0x4eu8, 0x61, 0x6d, 0x65]
}

pub open spec fn w_authorization() -> Seq<u8> {
    // "Authorization"
    seq![0x41u8, 0x75, 0x74, 0x68, 0x6f, 0x72, 0x69, 0x7a, 0x61, 0x74, 0x69, 0x6f, 0x6e]
}

pub open spec fn w_message() -> Seq<u8> {
    // "Message"
    seq![0x4du8, 0x65, 0x73, 0x73, 0x61, 0x67, 0x65]
}

pub fn method_key_str() -> (s: String)
    ensures
        s@ == ascii_str(w_method()),
        chars_wf(s@),
{
    let s = String::from_str("Method");
    proof {
        reveal_strlit("Method");
        assert(s@ =~= ascii_str(w_method()));
        assert(chars_wf(s@));
    }
    s
}

impl Method {
    /// The byte image of the method's name.
    pub open spec fn spec_name(&self) -> Seq<u8> {
        match self {
            Method::Bind => w_bind(),
            Method::Handshake => w_handshake(),
            Method::Send => w_send(),
        }
    }

    /// The key the method expects on the value line.
    pub open spec fn spec_value_key(&self) -> Seq<u8> {
        match self {
            Method::Bind => w_name(),
            Method::Handshake => w_authorization(),
            Method::Send => w_message(),
        }
    }

    pub fn to_str(&self) -> (s: &'static str)
        ensures
            s@ == ascii_str(self.spec_name()),
            chars_wf(s@),
    {
        match self {
            Method::Bind => {
                proof {
                    reveal_strlit("Bind");
                    assert("Bind"@ =~= ascii_str(w_bind()));
                }
                "Bind"
            },
            Method::Handshake => {
                proof {
                    reveal_strlit("Handshake");
                    assert("Handshake"@ =~= ascii_str(w_handshake()));
                }
                "Handshake"
            },
            Method::Send => {
                proof {
                    reveal_strlit("Send");
                    assert("Send"@ =~= ascii_str(w_send()));
                }
                "Send"
            },
        }
    }

    /// The method named by a string, if any.
    pub fn from_str(s: &str) -> (r: Result<Method, ()>)
        ensures
            match r {
                Ok(m) => s@ == ascii_str(m.spec_name()),
                Err(_) => s@ != ascii_str(w_bind()) && s@ != ascii_str(w_handshake()) && s@
                    != ascii_str(w_send()),
            },
    {
        let owned = s.to_owned();
        if string_eq_word(&owned, Method::Bind.to_str()) {
            Ok(Method::Bind)
        } else if string_eq_word(&owned, Method::Handshake.to_str()) {
            Ok(Method::Handshake)
        } else if string_eq_word(&owned, Method::Send.to_str()) {
            Ok(Method::Send)
        } else {
            Err(())
        }
    }

    pub fn value_key_str(&self) -> (s: String)
        ensures
            s@ == ascii_str(self.spec_value_key()),
            chars_wf(s@),
    {
        match self {
            Method::Bind => {
                let s = String::from_str("Name");
                proof {
                    reveal_strlit("Name");
                    assert(s@ =~= ascii_str(w_name()));
                    assert(chars_wf(s@));
                }
                s
            },
            Method::Handshake => {
                let s = String::from_str("Authorization");
                proof {
                    reveal_strlit("Authorization");
                    assert(s@ =~= ascii_str(w_authorization()));
                    assert(chars_wf(s@));
                }
                s
            },
            Method::Send => {
                let s = String::from_str("Message");
                proof {
                    reveal_strlit("Message");
                    assert(s@ =~= ascii_str(w_message()));
                    assert(chars_wf(s@));
                }
                s
            },
        }
    }
}

impl Version {
    /// The byte image of the version number.
    pub open spec fn spec_name(&self) -> Seq<u8> {
        // "1.0"
        seq![0x31u8, 0x2e, 0x30]
    }

    pub fn to_str(&self) -> (s: &'static str)
        ensures
            s@ == ascii_str(self.spec_name()),
            chars_wf(s@),
    {
        proof {
            reveal_strlit("1.0");
            assert("1.0"@ =~= ascii_str(Version::CHAT10.spec_name()));
        }
        "1.0"
    }

    /// The version named by a string, if any.
    pub fn from_str(s: &str) -> (r: Result<Version, ()>)
        ensures
            match r {
                Ok(v) => s@ == ascii_str(v.spec_name()),
                Err(_) => s@ != ascii_str(Version::CHAT10.spec_name()),
            },
    {
        let owned = s.to_owned();
        if string_eq_word(&owned, Version::CHAT10.to_str()) {
            Ok(Version::CHAT10)
        } else {
            Err(())
        }
    }
}

/// True of equal string contents.
pub(crate) fn string_eq_word(s: &String, w: &str) -> (r: bool)
    ensures
        r == (s@ == w@),
{
    let ws = w.to_owned();
    *s == ws
}

// Parsing, line by line.

/// The version line must be `<CHAT \ D.D>` with D.D a version number
/// `[1-9].[0-9]`; only `1.0` is the version this library speaks.
pub open spec fn spec_parse_version(line: Seq<u8>) -> Result<Version, ParseError> {
    if line.len() == 12 && line[0] == LT && line[1] == 0x43 && line[2] == 0x48 && line[3] == 0x41
        && line[4] == 0x54 && line[5] == 0x20 && line[6] == 0x5c && line[7] == 0x20 && 0x31
        <= line[8] <= 0x39 && line[9] == 0x2e && is_digit_byte(line[10]) && line[11] == GT {
        if line[8] == 0x31 && line[10] == 0x30 {
            Ok(Version::CHAT10)
        } else {
            Err(ParseError::MissingVersion)
        }
    } else {
        Err(ParseError::InvalidFormat)
    }
}

/// The method line must be a key/value line with key `Method` and a known
/// method name as value.
pub open spec fn spec_parse_method(line: Seq<u8>) -> Result<Method, ParseError> {
    match spec_parse_kv(line) {
        None => Err(ParseError::InvalidFormat),
        Some((k, v)) => {
            if k == w_method() {
                if v == w_bind() {
                    Ok(Method::Bind)
                } else if v == w_handshake() {
                    Ok(Method::Handshake)
                } else if v == w_send() {
                    Ok(Method::Send)
                } else {
                    Err(ParseError::MissingMethod)
                }
            } else {
                Err(ParseError::MissingMethod)
            }
        },
    }
}

/// The value line's key must be the one the method calls for.
pub open spec fn spec_parse_value(m: Method, line: Seq<u8>) -> Result<Seq<u8>, ParseError> {
    match spec_parse_kv(line) {
        None => Err(ParseError::InvalidFormat),
        Some((k, v)) => {
            if k == m.spec_value_key() {
                Ok(v)
            } else {
                Err(ParseError::InvalidKey)
            }
        },
    }
}

/// Remaining lines fold into the custom header map, later keys
/// overwriting earlier ones.
pub open spec fn spec_parse_customs(
    lines: Seq<Seq<u8>>,
    i: int,
    acc: Seq<(Seq<char>, Seq<char>)>,
) -> Result<Seq<(Seq<char>, Seq<char>)>, ParseError>
    decreases lines.len() - i,
{
    if i < 0 || i >= lines.len() {
        Ok(acc)
    } else {
        match spec_parse_kv(lines[i]) {
            None => Err(ParseError::InvalidFormat),
            Some((k, v)) => spec_parse_customs(
                lines,
                i + 1,
                pairs_insert(acc, ascii_str(k), ascii_str(v)),
            ),
        }
    }
}

/// What a request frame's text means: version, method, value and custom
/// headers, or the error of the first line that breaks the shape.
pub open spec fn spec_parse_request(text: Seq<u8>) -> Result<ReqModel, ParseError> {
    let lines = split_lines(text);
    if lines.len() < 1 {
        Err(ParseError::MissingVersion)
    } else {
        match spec_parse_version(lines[0]) {
            Err(e) => Err(e),
            Ok(version) => {
                if lines.len() < 2 {
                    Err(ParseError::MissingMethod)
                } else {
                    match spec_parse_method(lines[1]) {
                        Err(e) => Err(e),
                        Ok(method) => {
                            if lines.len() < 3 {
                                Err(ParseError::MissingRequestValue)
                            } else {
                                match spec_parse_value(method, lines[2]) {
                                    Err(e) => Err(e),
                                    Ok(value) => {
                                        match spec_parse_customs(lines, 3, Seq::empty()) {
                                            Err(e) => Err(e),
                                            Ok(custom) => Ok(
                                                ReqModel {
                                                    version,
                                                    method,
                                                    value: ascii_str(value),
                                                    custom,
                                                },
                                            ),
                                        }
                                    },
                                }
                            }
                        },
                    }
                }
            },
        }
    }
}

// Rendering.

/// The lines a request serializes to: version, method, the value quoted
/// under the method's key, then each custom header quoted.
pub open spec fn spec_request_lines(m: ReqModel) -> Seq<Seq<u8>> {
    seq![
        w_version_line(),
        render_kv_bare(w_method(), m.method.spec_name()),
        render_kv_quoted(m.method.spec_value_key(), ascii_bytes(m.value)),
    ] + m.custom.map(
        |i: int, p: (Seq<char>, Seq<char>)| render_kv_quoted(ascii_bytes(p.0), ascii_bytes(p.1)),
    )
}

/// The byte image of a request.
pub open spec fn spec_render_request(m: ReqModel) -> Seq<u8> {
    join_lines(spec_request_lines(m))
}

/// A request the serializer can lay down and the parser give back: a
/// nonempty quotable value, and custom headers with unique well-formed
/// keys and quotable values.
pub open spec fn req_model_wf(m: ReqModel) -> bool {
    &&& value_wf(ascii_bytes(m.value))
    &&& chars_wf(m.value)
    &&& pairs_unique(m.custom)
    &&& forall|i: int|
        0 <= i < m.custom.len() ==> key_wf(ascii_bytes((#[trigger] m.custom[i]).0)) && value_wf(
            ascii_bytes(m.custom[i].1),
        ) && chars_wf(m.custom[i].0) && chars_wf(m.custom[i].1)
}

/// An executable request carries the content of a model.
pub open spec fn req_matches(r: Request, m: ReqModel) -> bool {
    &&& r.version == m.version
    &&& r.method == m.method
    &&& r.value@ == m.value
    &&& r.custom.spec_pairs() == m.custom
}

// Executable parsing.

/// Reads the version line.
pub(crate) fn extract_version(line: &[u8]) -> (r: Result<Version, ParseError>)
    ensures
        r == spec_parse_version(line@),
{
    if line.len() == 12 && line[0] == LT && line[1] == 0x43 && line[2] == 0x48 && line[3] == 0x41
        && line[4] == 0x54 && line[5] == 0x20 && line[6] == 0x5c && line[7] == 0x20 && 0x31
        <= line[8] && line[8] <= 0x39 && line[9] == 0x2e && text::byte_is_digit(line[10])
        && line[11] == GT {
        if line[8] == 0x31 && line[10] == 0x30 {
            Ok(Version::CHAT10)
        } else {
            Err(ParseError::MissingVersion)
        }
    } else {
        Err(ParseError::InvalidFormat)
    }
}

/// Reads the method line.
pub(crate) fn extract_method(line: &[u8]) -> (r: Result<Method, ParseError>)
    ensures
        r == spec_parse_method(line@),
{
    match text::parse_kv_bytes(line) {
        None => Err(ParseError::InvalidFormat),
        Some((k, v)) => {
            let ghost kb = spec_parse_kv(line@)->Some_0.0;
            let ghost vb = spec_parse_kv(line@)->Some_0.1;
            proof {
                text::lemma_parsed_kv_wf(line@);
                lemma_key_value_text(kb, vb);
                reveal_strlit("Method");
                reveal_strlit("Bind");
                reveal_strlit("Handshake");
                reveal_strlit("Send");
                assert("Method"@ =~= ascii_str(w_method()));
                assert("Bind"@ =~= ascii_str(w_bind()));
                assert("Handshake"@ =~= ascii_str(w_handshake()));
                assert("Send"@ =~= ascii_str(w_send()));
                text::lemma_ascii_str_injective(kb, w_method());
                text::lemma_ascii_str_injective(vb, w_bind());
                text::lemma_ascii_str_injective(vb, w_handshake());
                text::lemma_ascii_str_injective(vb, w_send());
            }
            if string_eq_word(&k, "Method") {
                if string_eq_word(&v, "Bind") {
                    Ok(Method::Bind)
                } else if string_eq_word(&v, "Handshake") {
                    Ok(Method::Handshake)
                } else if string_eq_word(&v, "Send") {
                    Ok(Method::Send)
                } else {
                    Err(ParseError::MissingMethod)
                }
            } else {
                Err(ParseError::MissingMethod)
            }
        },
    }
}

/// A parsed key and value are made of text bytes.
pub proof fn lemma_key_value_text(kb: Seq<u8>, vb: Seq<u8>)
    requires
        key_wf(kb),
        value_wf(vb),
    ensures
        text::all_text(kb),
        text::all_text(vb),
{
    assert forall|i: int| 0 <= i < kb.len() implies text::is_text_byte(#[trigger] kb[i]) by {
        assert(text::is_alpha_byte(kb[i]));
    }
    assert forall|i: int| 0 <= i < vb.len() implies text::is_text_byte(#[trigger] vb[i]) by {
        assert(text::is_quoted_byte(vb[i]));
    }
}

/// Reads the value line under the key the method calls for.
pub(crate) fn extract_value(method: &Method, line: &[u8]) -> (r: Result<String, ParseError>)
    ensures
        match (r, spec_parse_value(*method, line@)) {
            (Ok(s), Ok(vb)) => s@ == ascii_str(vb) && chars_wf(s@),
            (Err(e1), Err(e2)) => e1 == e2,
            _ => false,
        },
{
    match text::parse_kv_bytes(line) {
        None => Err(ParseError::InvalidFormat),
        Some((k, v)) => {
            let ghost kb = spec_parse_kv(line@)->Some_0.0;
            proof {
                text::lemma_parsed_kv_wf(line@);
                lemma_key_value_text(kb, spec_parse_kv(line@)->Some_0.1);
                lemma_value_keys_text();
                text::lemma_ascii_str_injective(kb, method.spec_value_key());
            }
            let key = method.value_key_str();
            if k == key {
                Ok(v)
            } else {
                Err(ParseError::InvalidKey)
            }
        },
    }
}

/// The protocol words are text.
pub proof fn lemma_value_keys_text()
    ensures
        text::all_text(w_name()),
        text::all_text(w_authorization()),
        text::all_text(w_message()),
        text::all_text(w_method()),
        text::all_text(w_bind()),
        text::all_text(w_handshake()),
        text::all_text(w_send()),
{
}

/// Parses one `<KEY@VALUE>` line into its key and unquoted value.
pub fn parse_key_value(line: &str) -> (r: Result<(String, String), ParseError>)
    ensures
        ({
            let sp = spec_parse_kv(vstd::string::StringSliceAdditionalSpecFns::spec_bytes(line));
            match (r, sp) {
                (Ok(kv), Some(m)) => kv.0@ == ascii_str(m.0) && kv.1@ == ascii_str(m.1),
                (Err(e), None) => e == ParseError::InvalidFormat,
                _ => false,
            }
        }),
{
    match text::parse_kv_bytes(line.as_bytes()) {
        Some(kv) => Ok(kv),
        None => Err(ParseError::InvalidFormat),
    }
}

/// Parses a request's text: version, method, value, custom headers.
fn parse_text(v: &[u8]) -> (r: Result<(Version, Method, String, StrMap), ParseError>)
    ensures
        ({
            let sp = spec_parse_request(v@);
            match (r, sp) {
                (Ok(t), Ok(m)) => {
                    &&& t.0 == m.version
                    &&& t.1 == m.method
                    &&& t.2@ == m.value
                    &&& chars_wf(t.2@)
                    &&& t.3.spec_pairs() == m.custom
                    &&& t.3.wf()
                },
                (Err(e1), Err(e2)) => e1 == e2,
                _ => false,
            }
        }),
{
    let ghost lines = split_lines(v@);
    let n = v.len();
    if n == 0 {
        return Err(ParseError::MissingVersion);
    }
    let e0 = text::find_line_end(v, 0);
    proof {
        assert(lines[0] == v@.subrange(0, e0 as int));
    }
    let version = match extract_version(text::slice_range(v, 0, e0)) {
        Ok(x) => x,
        Err(e) => {
            return Err(e);
        },
    };
    if e0 == n {
        proof {
            assert(lines =~= seq![v@.subrange(0, e0 as int)]);
        }
        return Err(ParseError::MissingMethod);
    }
    let p1 = e0 + 1;
    if p1 == n {
        proof {
            assert(lines_from(v@, p1 as int) =~= Seq::<Seq<u8>>::empty());
            assert(lines =~= seq![v@.subrange(0, e0 as int)] + lines_from(v@, p1 as int));
            assert(lines.len() == 1);
        }
        return Err(ParseError::MissingMethod);
    }
    let e1 = text::find_line_end(v, p1);
    proof {
        assert(lines_from(v@, p1 as int)[0] == v@.subrange(p1 as int, e1 as int));
        assert(lines[1] == v@.subrange(p1 as int, e1 as int));
    }
    let method = match extract_method(text::slice_range(v, p1, e1)) {
        Ok(x) => x,
        Err(e) => {
            return Err(e);
        },
    };
    if e1 == n {
        proof {
            assert(lines_from(v@, p1 as int) =~= seq![v@.subrange(p1 as int, e1 as int)]);
            assert(lines.len() == 2);
        }
        return Err(ParseError::MissingRequestValue);
    }
    let p2 = e1 + 1;
    if p2 == n {
        proof {
            assert(lines_from(v@, p2 as int) =~= Seq::<Seq<u8>>::empty());
            assert(lines_from(v@, p1 as int) =~= seq![v@.subrange(p1 as int, e1 as int)]
                + lines_from(v@, p2 as int));
            assert(lines.len() == 2);
        }
        return Err(ParseError::MissingRequestValue);
    }
    let e2 = text::find_line_end(v, p2);
    proof {
        assert(lines_from(v@, p2 as int)[0] == v@.subrange(p2 as int, e2 as int));
        assert(lines[2] == v@.subrange(p2 as int, e2 as int));
    }
    let value = match extract_value(&method, text::slice_range(v, p2, e2)) {
        Ok(x) => x,
        Err(e) => {
            return Err(e);
        },
    };
    let mut custom = StrMap::new();
    let mut pos: usize = if e2 == n {
        n
    } else if e2 + 1 == n {
        n
    } else {
        e2 + 1
    };
    let ghost mut li: int = 3;
    proof {
        if e2 < n && e2 + 1 < n {
            assert(lines.skip(3) =~= lines_from(v@, pos as int));
        } else {
            assert(lines.skip(3) =~= lines_from(v@, pos as int));
        }
    }
    while pos < n
        invariant
            3 <= li <= lines.len(),
            pos <= n,
            n == v@.len(),
            lines == split_lines(v@),
            lines.skip(li) =~= lines_from(v@, pos as int),
            pos >= n ==> li == lines.len(),
            pos < n ==> li < lines.len(),
            custom.wf(),
            spec_parse_customs(lines, 3, Seq::empty()) == spec_parse_customs(
                lines,
                li,
                custom.spec_pairs(),
            ),
            lines.len() >= 3,
            spec_parse_version(lines[0]) == Ok::<Version, ParseError>(version),
            spec_parse_method(lines[1]) == Ok::<Method, ParseError>(method),
            spec_parse_value(method, lines[2]) is Ok,
            value@ == ascii_str(spec_parse_value(method, lines[2])->Ok_0),
            chars_wf(value@),
        decreases n - pos,
    {
        let e = text::find_line_end(v, pos);
        let ghost cur = lines_from(v@, pos as int);
        proof {
            if e < n {
                assert(cur =~= seq![v@.subrange(pos as int, e as int)] + lines_from(
                    v@,
                    e + 1 as int,
                ));
            } else {
                assert(cur =~= seq![v@.subrange(pos as int, e as int)]);
            }
            assert(lines.skip(li)[0] == lines[li]);
            assert(lines[li] == v@.subrange(pos as int, e as int));
        }
        match text::parse_kv_bytes(text::slice_range(v, pos, e)) {
            None => {
                proof {
                    assert(spec_parse_customs(lines, li, custom.spec_pairs()) == Err::<
                        Seq<(Seq<char>, Seq<char>)>,
                        ParseError,
                    >(ParseError::InvalidFormat));
                }
                return Err(ParseError::InvalidFormat);
            },
            Some((k, val)) => {
                let ghost kb = spec_parse_kv(lines[li])->Some_0.0;
                let ghost vb = spec_parse_kv(lines[li])->Some_0.1;
                let ghost acc0 = custom.spec_pairs();
                custom.insert(k, val);
                proof {
                    assert(custom.spec_pairs() == pairs_insert(acc0, ascii_str(kb), ascii_str(vb)));
                    assert(spec_parse_customs(lines, li, acc0) == spec_parse_customs(
                        lines,
                        li + 1,
                        custom.spec_pairs(),
                    ));
                    assert(lines.skip(li).drop_first() =~= lines.skip(li + 1));
                    li = li + 1;
                }
            },
        }
        pos = if e == n {
            n
        } else if e + 1 == n {
            n
        } else {
            e + 1
        };
        proof {
            if pos as int == n {
                assert(lines_from(v@, pos as int) =~= Seq::<Seq<u8>>::empty());
                if e < n {
                    assert(cur.drop_first() =~= lines_from(v@, e + 1 as int));
                } else {
                    assert(cur.drop_first() =~= Seq::<Seq<u8>>::empty());
                }
            } else {
                assert(cur.drop_first() =~= lines_from(v@, pos as int));
            }
            assert(lines.skip(li) =~= cur.drop_first());
        }
    }
    proof {
        assert(lines_from(v@, pos as int) =~= Seq::<Seq<u8>>::empty());
        assert(li == lines.len());
        assert(spec_parse_customs(lines, li, custom.spec_pairs()) == Ok::<
            Seq<(Seq<char>, Seq<char>)>,
            ParseError,
        >(custom.spec_pairs()));
    }
    Ok((version, method, value, custom))
}

/// True of a string that can stand as a header value on the wire.
pub fn check_value_string(s: &String) -> (r: bool)
    ensures
        r == (chars_wf(s@) && value_wf(ascii_bytes(s@))),
{
    if !s.as_str().is_ascii() {
        proof {
            let i = choose|i: int|
                0 <= i < s@.len() && !('\0' <= #[trigger] s@[i] && s@[i] <= '\u{7f}');
            assert(!('\u{1}' <= s@[i] <= '\u{7f}'));
        }
        return false;
    }
    let t = s.as_str();
    proof {
        broadcast use vstd::string::is_ascii_spec_bytes;

        assert(vstd::string::is_ascii(t));
        assert(vstd::string::StringSliceAdditionalSpecFns::spec_bytes(t) =~= ascii_bytes(s@));
    }
    let b = t.as_bytes();
    let r = b.len() > 0 && text::check_all_quoted(b, 0, b.len());
    proof {
        assert(b@.subrange(0, b@.len() as int) =~= ascii_bytes(s@));
        if r {
            assert forall|i: int| 0 <= i < s@.len() implies '\u{1}' <= #[trigger] s@[i]
                <= '\u{7f}' by {
                assert(text::is_quoted_byte(ascii_bytes(s@)[i]));
                assert(s@[i] <= '\u{7f}');
            }
        }
    }
    r
}

/// True of a string that can stand as a header key on the wire.
pub fn check_key_string(s: &String) -> (r: bool)
    ensures
        r == (chars_wf(s@) && key_wf(ascii_bytes(s@))),
{
    if !s.as_str().is_ascii() {
        proof {
            let i = choose|i: int|
                0 <= i < s@.len() && !('\0' <= #[trigger] s@[i] && s@[i] <= '\u{7f}');
            assert(!('\u{1}' <= s@[i] <= '\u{7f}'));
        }
        return false;
    }
    let t = s.as_str();
    proof {
        broadcast use vstd::string::is_ascii_spec_bytes;

        assert(vstd::string::is_ascii(t));
        assert(vstd::string::StringSliceAdditionalSpecFns::spec_bytes(t) =~= ascii_bytes(s@));
    }
    let b = t.as_bytes();
    let mut r = b.len() > 0;
    if r {
        let k = text::scan_alpha(b, 0);
        proof {
            text::lemma_alpha_run(b@, 0);
        }
        r = k == b.len();
        proof {
            if r {
                assert(text::all_alpha(ascii_bytes(s@)));
            } else {
                assert(!text::is_alpha_byte(b@[k as int]));
            }
        }
    }
    proof {
        if r {
            assert forall|i: int| 0 <= i < s@.len() implies '\u{1}' <= #[trigger] s@[i]
                <= '\u{7f}' by {
                assert(text::is_alpha_byte(ascii_bytes(s@)[i]));
                assert(s@[i] <= '\u{7f}');
            }
        }
    }
    r
}

impl Request {
    /// The abstract content this request carries.
    pub open spec fn spec_model(&self) -> ReqModel {
        ReqModel {
            version: self.version,
            method: self.method,
            value: self.value@,
            custom: self.custom.spec_pairs(),
        }
    }

    /// The request's strings can stand on the wire.
    pub open spec fn strings_wf(&self) -> bool {
        &&& chars_wf(self.value@)
        &&& value_wf(ascii_bytes(self.value@))
        &&& forall|i: int|
            0 <= i < self.custom.spec_pairs().len() ==> {
                let p = #[trigger] self.custom.spec_pairs()[i];
                chars_wf(p.0) && key_wf(ascii_bytes(p.0)) && chars_wf(p.1) && value_wf(
                    ascii_bytes(p.1),
                )
            }
    }

    /// Parses a request from its textual form.
    pub fn parse(input: &str, addr: String) -> (r: Result<Request, ParseError>)
        ensures
            ({
                let sp = spec_parse_request(
                    vstd::string::StringSliceAdditionalSpecFns::spec_bytes(input),
                );
                match (r, sp) {
                    (Ok(req), Ok(m)) => req_matches(req, m) && req.addr@ == addr@ && req.custom.wf()
                        && forall|k: crate::varmap::AttachmentKey|
                        req.varmap.spec_get(k) is None,
                    (Err(e1), Err(e2)) => e1 == e2,
                    _ => false,
                }
            }),
    {
        match parse_text(input.as_bytes()) {
            Ok((version, method, value, custom)) => Ok(
                Request { addr, version, method, value, custom, varmap: Varmap::new() },
            ),
            Err(e) => Err(e),
        }
    }

    /// Parses a request from a raw frame: the zero tail is trimmed and the
    /// rest read as text.
    pub fn from_raw_request(raw: RawRequest) -> (r: Result<Request, ParseError>)
        ensures
            ({
                let sp = spec_parse_request(trim_zeros(raw.bytes@));
                match (r, sp) {
                    (Ok(req), Ok(m)) => req_matches(req, m) && req.addr@ == raw.addr@
                        && req.custom.wf() && forall|k: crate::varmap::AttachmentKey|
                        req.varmap.spec_get(k) is None,
                    (Err(e1), Err(e2)) => e1 == e2,
                    _ => false,
                }
            }),
    {
        let end = text::text_end(&raw.bytes);
        let text_slice = text::slice_range(raw.bytes.as_slice(), 0, end);
        proof {
            assert(text_slice@ == trim_zeros(raw.bytes@));
        }
        match parse_text(text_slice) {
            Ok((version, method, value, custom)) => Ok(
                Request { addr: raw.addr, version, method, value, custom, varmap: Varmap::new() },
            ),
            Err(e) => Err(e),
        }
    }

    /// Serializes the request into a frame: version line, method line, the
    /// value quoted under the method's key, then the custom headers.  Fails
    /// when a string cannot stand on the wire or the text outgrows the
    /// frame.
    pub fn as_bytes(&self) -> (r: Result<[u8; 512], ()>)
        ensures
            ({
                let m = self.spec_model();
                match r {
                    Ok(frame) => self.strings_wf() && spec_render_request(m).len() <= 512
                        && frame@ == text::zero_pad(spec_render_request(m)),
                    Err(_) => !self.strings_wf() || spec_render_request(m).len() > 512,
                }
            }),
    {
        let ghost m = self.spec_model();
        let ghost all_lines = spec_request_lines(m);
        if !check_value_string(&self.value) {
            return Err(());
        }
        let mut i: usize = 0;
        while i < self.custom.pairs.len()
            invariant
                i <= self.custom.spec_pairs().len(),
                forall|j: int|
                    0 <= j < i ==> {
                        let p = #[trigger] self.custom.spec_pairs()[j];
                        chars_wf(p.0) && key_wf(ascii_bytes(p.0)) && chars_wf(p.1) && value_wf(
                            ascii_bytes(p.1),
                        )
                    },
            decreases self.custom.spec_pairs().len() - i,
        {
            proof {
                assert(self.custom.spec_pairs()[i as int] == (
                    self.custom.pairs@[i as int].0@,
                    self.custom.pairs@[i as int].1@,
                ));
            }
            if !check_key_string(&self.custom.pairs[i].0) || !check_value_string(
                &self.custom.pairs[i].1,
            ) {
                return Err(());
            }
            i += 1;
        }
        let mut out: Vec<u8> = Vec::new();
        out.push(LT);
        out.push(0x43);
        out.push(0x48);
        out.push(0x41);
        out.push(0x54);
        out.push(0x20);
        out.push(0x5c);
        out.push(0x20);
        out.push(0x31);
        out.push(0x2e);
        out.push(0x30);
        out.push(GT);
        proof {
            assert(out@ =~= w_version_line());
            assert(join_lines(seq![w_version_line()]) == w_version_line());
        }
        out.push(NL);
        out.push(LT);
        let mkey = method_key_str();
        text::push_string_bytes(&mut out, &mkey);
        out.push(0x40);
        let mname = self.method.to_str();
        text::push_str_bytes(&mut out, mname);
        out.push(GT);
        proof {
            let line1 = render_kv_bare(w_method(), m.method.spec_name());
            lemma_value_keys_text();
            text::lemma_ascii_str_of_bytes(w_method());
            text::lemma_ascii_str_of_bytes(m.method.spec_name());
            assert(ascii_bytes(mkey@) == w_method());
            assert(ascii_bytes(mname@) == m.method.spec_name());
            assert(out@ =~= w_version_line() + seq![NL] + line1);
            text::lemma_join_push(seq![w_version_line()], line1);
            assert(seq![w_version_line()].push(line1) =~= seq![w_version_line(), line1]);
            assert(out@ =~= join_lines(seq![w_version_line(), line1]));
        }
        out.push(NL);
        let vkey = self.method.value_key_str();
        text::push_kv_quoted(&mut out, &vkey, &self.value);
        proof {
            let line1 = render_kv_bare(w_method(), m.method.spec_name());
            let line2 = render_kv_quoted(m.method.spec_value_key(), ascii_bytes(m.value));
            lemma_value_keys_text();
            text::lemma_ascii_str_of_bytes(m.method.spec_value_key());
            assert(ascii_bytes(vkey@) == m.method.spec_value_key());
            text::lemma_join_push(seq![w_version_line(), line1], line2);
            assert(seq![w_version_line(), line1].push(line2) =~= seq![
                w_version_line(),
                line1,
                line2,
            ]);
            assert(out@ =~= join_lines(seq![w_version_line(), line1, line2]));
            assert(all_lines.take(3) =~= seq![w_version_line(), line1, line2]);
        }
        let mut i: usize = 0;
        while i < self.custom.pairs.len()
            invariant
                i <= self.custom.spec_pairs().len(),
                m == self.spec_model(),
                all_lines == spec_request_lines(m),
                all_lines.len() == 3 + self.custom.spec_pairs().len(),
                out@ == join_lines(all_lines.take(3 + i as int)),
                self.strings_wf(),
            decreases self.custom.spec_pairs().len() - i,
        {
            out.push(NL);
            proof {
                assert(self.custom.spec_pairs()[i as int] == (
                    self.custom.pairs@[i as int].0@,
                    self.custom.pairs@[i as int].1@,
                ));
            }
            text::push_kv_quoted(&mut out, &self.custom.pairs[i].0, &self.custom.pairs[i].1);
            proof {
                let prev = all_lines.take(3 + i as int);
                let line = all_lines[3 + i as int];
                assert(line == render_kv_quoted(
                    ascii_bytes(m.custom[i as int].0),
                    ascii_bytes(m.custom[i as int].1),
                ));
                text::lemma_join_push(prev, line);
                assert(prev.push(line) =~= all_lines.take(3 + i as int + 1));
            }
            i += 1;
        }
        proof {
            assert(all_lines.take(all_lines.len() as int) =~= all_lines);
        }
        if out.len() > 512 {
            return Err(());
        }
        Ok(text::pack_frame(out.as_slice()))
    }
}

/// Builder for requests made on the client side; parsed requests come
/// from `Request::parse` instead.
#[derive(Debug)]
pub struct RequestBuilder {
    pub addr: Option<String>,
    pub version: Option<Version>,
    pub method: Option<Method>,
    pub value: Option<String>,
    pub custom: StrMap,
    pub varmap: Varmap,
}

impl RequestBuilder {
    pub fn new() -> (b: RequestBuilder)
        ensures
            b.addr is None,
            b.version is None,
            b.method is None,
            b.value is None,
            b.custom.spec_pairs() =~= Seq::<(Seq<char>, Seq<char>)>::empty(),
            b.custom.wf(),
            forall|k: crate::varmap::AttachmentKey| b.varmap.spec_get(k) is None,
    {
        RequestBuilder {
            addr: None,
            version: None,
            method: None,
            value: None,
            custom: StrMap::new(),
            varmap: Varmap::new(),
        }
    }

    pub fn addr(self, addr: String) -> (b: RequestBuilder)
        ensures
            b == (RequestBuilder { addr: Some(addr), ..self }),
    {
        RequestBuilder { addr: Some(addr), ..self }
    }

    pub fn version(self, version: Version) -> (b: RequestBuilder)
        ensures
            b == (RequestBuilder { version: Some(version), ..self }),
    {
        RequestBuilder { version: Some(version), ..self }
    }

    pub fn method(self, method: Method) -> (b: RequestBuilder)
        ensures
            b == (RequestBuilder { method: Some(method), ..self }),
    {
        RequestBuilder { method: Some(method), ..self }
    }

    pub fn value(self, value: String) -> (b: RequestBuilder)
        ensures
            b == (RequestBuilder { value: Some(value), ..self }),
    {
        RequestBuilder { value: Some(value), ..self }
    }

    /// Adds one custom header.
    pub fn custom_insert(self, key: String, value: String) -> (b: RequestBuilder)
        requires
            self.custom.wf(),
        ensures
            b.custom.wf(),
            b.custom.spec_pairs() == pairs_insert(self.custom.spec_pairs(), key@, value@),
            b.addr == self.addr,
            b.version == self.version,
            b.method == self.method,
            b.value == self.value,
            b.varmap == self.varmap,
    {
        let mut b = self;
        b.custom.insert(key, value);
        b
    }

    /// Sticks an attachment on the request under construction.
    pub fn varmap_insert(self, value: crate::varmap::Attachment) -> (b: RequestBuilder)
        ensures
            b.varmap.spec_get(value.spec_key()) == Some(value),
            forall|k: crate::varmap::AttachmentKey|
                k != value.spec_key() ==> b.varmap.spec_get(k) == self.varmap.spec_get(k),
            b.addr == self.addr,
            b.version == self.version,
            b.method == self.method,
            b.value == self.value,
            b.custom == self.custom,
    {
        let mut b = self;
        b.varmap.insert(value);
        b
    }

    /// Assembles the request; every mandatory field must have been set.
    pub fn build(self) -> (r: Result<Request, ()>)
        ensures
            match r {
                Ok(req) => {
                    &&& self.addr is Some && req.addr == self.addr->Some_0
                    &&& self.version is Some && req.version == self.version->Some_0
                    &&& self.method is Some && req.method == self.method->Some_0
                    &&& self.value is Some && req.value == self.value->Some_0
                    &&& req.custom == self.custom
                    &&& req.varmap == self.varmap
                },
                Err(_) => self.addr is None || self.version is None || self.method is None
                    || self.value is None,
            },
    {
        let RequestBuilder { addr, version, method, value, custom, varmap } = self;
        let addr = if let Some(val) = addr {
            val
        } else {
            return Err(());
        };
        let version = if let Some(val) = version {
            val
        } else {
            return Err(());
        };
        let method = if let Some(val) = method {
            val
        } else {
            return Err(());
        };
        let value = if let Some(val) = value {
            val
        } else {
            return Err(());
        };
        Ok(Request { addr, version, method, value, custom, varmap })
    }
}

// The round trip.

/// Every line of a well-formed request's rendering is nonempty and free of
/// newlines.
proof fn lemma_request_lines_clean(m: ReqModel)
    requires
        req_model_wf(m),
    ensures
        ({
            let lines = spec_request_lines(m);
            &&& lines.len() >= 3
            &&& forall|i: int|
                0 <= i < lines.len() ==> (#[trigger] lines[i]).len() > 0 && text::all_text(
                    lines[i],
                )
            &&& forall|i: int, j: int|
                0 <= i < lines.len() && 0 <= j < lines[i].len() ==> #[trigger] lines[i][j] != NL
        }),
{
    let lines = spec_request_lines(m);
    lemma_value_keys_text();
    text::lemma_render_kv_bare_clean(w_method(), m.method.spec_name());
    text::lemma_render_kv_quoted_clean(m.method.spec_value_key(), ascii_bytes(m.value));
    assert forall|i: int|
        0 <= i < lines.len() implies (#[trigger] lines[i]).len() > 0 && text::all_text(lines[i])
        && (forall|j: int| 0 <= j < lines[i].len() ==> #[trigger] lines[i][j] != NL) by {
        if i >= 3 {
            let p = m.custom[i - 3];
            assert(lines[i] == render_kv_quoted(ascii_bytes(p.0), ascii_bytes(p.1)));
            text::lemma_render_kv_quoted_clean(ascii_bytes(p.0), ascii_bytes(p.1));
        } else if i == 0 {
            assert(forall|j: int| 0 <= j < lines[0].len() ==> #[trigger] lines[0][j] != NL);
            assert(text::all_text(lines[0]));
        }
    }
}

/// A whole frame round trip: a well-formed request laid into a frame and
/// read back, zero tail and all, is the same request.
pub proof fn lemma_request_frame_round_trip(m: ReqModel)
    requires
        req_model_wf(m),
        spec_render_request(m).len() <= 512,
    ensures
        spec_parse_request(trim_zeros(text::zero_pad(spec_render_request(m)))) == Ok::<
            ReqModel,
            ParseError,
        >(m),
{
    let rendered = spec_render_request(m);
    lemma_request_lines_clean(m);
    text::lemma_join_lines_text(spec_request_lines(m));
    assert(rendered.len() > 0);
    assert(crate::text::is_text_byte(rendered[rendered.len() - 1]));
    let pad = Seq::new((512 - rendered.len()) as nat, |i: int| 0u8);
    text::lemma_trim_of_padded(rendered, pad);
    lemma_request_round_trip(m);
}

/// Folding the custom lines of a rendering onto an accumulator with fresh
/// keys appends the rendered pairs.
#[verifier::rlimit(50)]
proof fn lemma_parse_rendered_customs(
    lines: Seq<Seq<u8>>,
    off: int,
    ps: Seq<(Seq<char>, Seq<char>)>,
    acc: Seq<(Seq<char>, Seq<char>)>,
)
    requires
        0 <= off <= lines.len(),
        lines.len() - off == ps.len(),
        forall|j: int|
            0 <= j < ps.len() ==> lines[off + j] == render_kv_quoted(
                ascii_bytes((#[trigger] ps[j]).0),
                ascii_bytes(ps[j].1),
            ),
        forall|j: int|
            0 <= j < ps.len() ==> {
                let p = #[trigger] ps[j];
                chars_wf(p.0) && key_wf(ascii_bytes(p.0)) && chars_wf(p.1) && value_wf(
                    ascii_bytes(p.1),
                )
            },
        pairs_unique(ps),
        forall|j: int|
            0 <= j < ps.len() ==> crate::strmap::pairs_lookup(acc, (#[trigger] ps[j]).0) is None,
    ensures
        spec_parse_customs(lines, off, acc) == Ok::<Seq<(Seq<char>, Seq<char>)>, ParseError>(
            acc + ps,
        ),
    decreases ps.len(),
{
    if ps.len() == 0 {
        assert(acc + ps =~= acc);
    } else {
        let k0 = ps[0].0;
        let v0 = ps[0].1;
        text::lemma_parse_of_rendered_kv(ascii_bytes(k0), ascii_bytes(v0));
        assert(spec_parse_kv(lines[off]) == Some((ascii_bytes(k0), ascii_bytes(v0))));
        text::lemma_ascii_bytes_of_str(k0);
        text::lemma_ascii_bytes_of_str(v0);
        assert(ascii_str(ascii_bytes(k0)) == k0);
        assert(ascii_str(ascii_bytes(v0)) == v0);
        crate::strmap::lemma_lookup_none(acc, k0);
        crate::strmap::lemma_pairs_insert_shape(acc, k0, v0);
        let acc1 = acc.push((k0, v0));
        assert(pairs_insert(acc, k0, v0) =~= acc1);
        let rest = ps.drop_first();
        assert forall|j: int|
            0 <= j < rest.len() implies crate::strmap::pairs_lookup(
            acc1,
            (#[trigger] rest[j]).0,
        ) is None by {
            assert(rest[j] == ps[j + 1]);
            assert(ps[j + 1].0 != k0);
            crate::strmap::lemma_lookup_none(acc, ps[j + 1].0);
            crate::strmap::lemma_lookup_after_push(acc, k0, v0, ps[j + 1].0);
        }
        assert forall|j: int|
            0 <= j < rest.len() implies lines[off + 1 + j] == render_kv_quoted(
            ascii_bytes((#[trigger] rest[j]).0),
            ascii_bytes(rest[j].1),
        ) by {
            assert(rest[j] == ps[j + 1]);
        }
        assert forall|j: int|
            0 <= j < rest.len() implies {
            let p = #[trigger] rest[j];
            chars_wf(p.0) && key_wf(ascii_bytes(p.0)) && chars_wf(p.1) && value_wf(
                ascii_bytes(p.1),
            )
        } by {
            assert(rest[j] == ps[j + 1]);
        }
        assert forall|i: int, j: int|
            0 <= i < j < rest.len() implies (#[trigger] rest[i]).0 != (#[trigger] rest[j]).0 by {
            assert(rest[i] == ps[i + 1]);
            assert(rest[j] == ps[j + 1]);
        }
        lemma_parse_rendered_customs(lines, off + 1, rest, acc1);
        assert(acc1 + rest =~= acc + ps);
    }
}

/// Parsing a well-formed request's rendering gives the request back:
/// version, method, value and custom headers all intact.
pub proof fn lemma_request_round_trip(m: ReqModel)
    requires
        req_model_wf(m),
    ensures
        spec_parse_request(spec_render_request(m)) == Ok::<ReqModel, ParseError>(m),
{
    let lines = spec_request_lines(m);
    let text_bytes = spec_render_request(m);
    lemma_request_lines_clean(m);
    text::lemma_split_of_joined(lines);
    assert(split_lines(text_bytes) == lines);
    // Line 0: the version line.
    assert(spec_parse_version(lines[0]) == Ok::<Version, ParseError>(Version::CHAT10));
    assert(m.version == Version::CHAT10);
    // Line 1: the method line.
    lemma_value_keys_text();
    text::lemma_parse_of_rendered_kv_bare(w_method(), m.method.spec_name());
    assert(spec_parse_method(lines[1]) == Ok::<Method, ParseError>(m.method));
    // Line 2: the value line.
    text::lemma_parse_of_rendered_kv(m.method.spec_value_key(), ascii_bytes(m.value));
    assert(spec_parse_value(m.method, lines[2]) == Ok::<Seq<u8>, ParseError>(
        ascii_bytes(m.value),
    ));
    text::lemma_ascii_bytes_of_str(m.value);
    // Lines 3 on: the custom headers.
    assert forall|j: int|
        0 <= j < m.custom.len() implies lines[3 + j] == render_kv_quoted(
        ascii_bytes((#[trigger] m.custom[j]).0),
        ascii_bytes(m.custom[j].1),
    ) by {}
    lemma_parse_rendered_customs(lines, 3, m.custom, Seq::empty());
    assert(Seq::empty() + m.custom =~= m.custom);
    assert(spec_parse_request(text_bytes)->Ok_0 == m);
}

} // verus!
