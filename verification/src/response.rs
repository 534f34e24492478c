//! Responses: building, parsing from frames and rendering back to bytes.
//!
//! A response frame is the version line, a `Code` line, then optional
//! `Token`, `User` and `Message` lines and any custom headers.  A `Time`
//! header parses into a timestamp field and is emitted by writing a
//! `Time` custom header.  Parsing a rendering is proved to give the named
//! fields back.

use vstd::prelude::*;
use crate::text;
use crate::text::{
    ascii_bytes, ascii_str, chars_wf, is_digit_byte, join_lines, key_wf, lines_from,
    render_kv_quoted, spec_parse_kv, split_lines, trim_zeros, value_wf, AT, GT, LT, NL,
};
use crate::strmap::{pairs_insert, pairs_unique, StrMap};
use crate::varmap::Varmap;
use crate::timestamp::{spec_parse_timestamp, Timestamp};
use crate::request::{
    extract_version, spec_parse_version, string_eq_word, w_version_line, ParseError, Version,
};

verus! {

/// Outcome code carried on a response's second line.
#[derive(Clone, Copy, Debug, PartialEq, Eq, Structural)]
pub enum ResponseCode {
    /// General success.
    OK,
    /// Binding or handshake accepted.
    AuthOK,
    /// The frame could not be parsed.
    ParseError,
    /// No usable name.
    InvalidName,
    /// The name is already bound.
    AlreadyTaken,
    /// A mandatory header is missing or malformed.
    InvalidHeader,
    /// The token is unknown or the method not allowed yet.
    Unauthorized,
    /// General failure.
    Error,
    /// Failure the connection cannot recover from.
    FatalError,
    /// Any other wire value.
    Custom(u8),
}

/// Why a response could not be built.
#[derive(Clone, Copy, Debug, PartialEq, Eq, Structural)]
pub enum BuilderError {
    NoVersion,
    NoCode,
    /// A custom code collides with one of the named codes.
    ReservedCode,
}

/// The numeric wire value of a code.
pub open spec fn code_num(c: ResponseCode) -> u8 {
    match c {
        ResponseCode::OK => 10,
        ResponseCode::AuthOK => 11,
        ResponseCode::ParseError => 20,
        ResponseCode::InvalidName => 21,
        ResponseCode::AlreadyTaken => 22,
        ResponseCode::InvalidHeader => 23,
        ResponseCode::Unauthorized => 24,
        ResponseCode::Error => 30,
        ResponseCode::FatalError => 31,
        ResponseCode::Custom(v) => v,
    }
}

/// The code a numeric wire value names.
pub open spec fn code_of_num(n: u8) -> ResponseCode {
    if n == 10 {
        ResponseCode::OK
    } else if n == 11 {
        ResponseCode::AuthOK
    } else if n == 20 {
        ResponseCode::ParseError
    } else if n == 21 {
        ResponseCode::InvalidName
    } else if n == 22 {
        ResponseCode::AlreadyTaken
    } else if n == 23 {
        ResponseCode::InvalidHeader
    } else if n == 24 {
        ResponseCode::Unauthorized
    } else if n == 30 {
        ResponseCode::Error
    } else if n == 31 {
        ResponseCode::FatalError
    } else {
        ResponseCode::Custom(n)
    }
}

/// A numeric value already taken by a named code.
pub open spec fn spec_reserved_code(n: u8) -> bool {
    n == 10 || n == 11 || n == 20 || n == 21 || n == 22 || n == 23 || n == 24 || n == 30 || n == 31
}

/// A code whose wire value reads back as itself: every named code, and
/// custom codes off the named values.
pub open spec fn code_wf(c: ResponseCode) -> bool {
    match c {
        ResponseCode::Custom(v) => !spec_reserved_code(v),
        _ => true,
    }
}

/// Reading a well-formed code's wire value gives the code back.
pub proof fn lemma_code_num_round_trip(c: ResponseCode)
    requires
        code_wf(c),
    ensures
        code_of_num(code_num(c)) == c,
{
}

pub fn reserved_code(n: u8) -> (r: bool)
    ensures
        r == spec_reserved_code(n),
{
    n == 10 || n == 11 || n == 20 || n == 21 || n == 22 || n == 23 || n == 24 || n == 30 || n == 31
}

// Protocol words of the response side.

pub open spec fn w_code() -> Seq<u8> {
    // "Code"
    seq![0x43u8, 0x6f, 0x64, 0x65]
}

pub open spec fn w_token() -> Seq<u8> {
    // "Token"
    seq![0x54u8, 0x6f, 0x6b, 0x65, 0x6e]
}

pub open spec fn w_user() -> Seq<u8> {
    // "User"
    seq![0x55u8, 0x73, 0x65, 0x72]
}

pub open spec fn w_time() -> Seq<u8> {
    // "Time"
    seq![0x54u8, 0x69, 0x6d, 0x65]
}

/// The decimal digits of a byte value, no leading zeros.
pub open spec fn dec_digits(n: int) -> Seq<u8> {
    if n < 10 {
        seq![(0x30 + n) as u8]
    } else if n < 100 {
        seq![(0x30 + n / 10) as u8, (0x30 + n % 10) as u8]
    } else {
        seq![(0x30 + n / 100) as u8, (0x30 + (n / 10) % 10) as u8, (0x30 + n % 10) as u8]
    }
}

/// The `<Code@N>` line of a code.
pub open spec fn spec_code_line(c: ResponseCode) -> Seq<u8> {
    seq![LT] + w_code() + seq![AT] + dec_digits(code_num(c) as int) + seq![GT]
}

/// The code named by a `<Code@N>` line: `N` one to three decimal digits
/// valuing at most 255.
pub open spec fn spec_parse_code_line(line: Seq<u8>) -> Option<ResponseCode> {
    let n = line.len() as int;
    if n < 8 || line[0] != LT || line[1] != 0x43 || line[2] != 0x6f || line[3] != 0x64 || line[4]
        != 0x65 || line[5] != AT || line[n - 1] != GT {
        None
    } else {
        let digits = line.subrange(6, n - 1);
        if digits.len() < 1 || digits.len() > 3 {
            None
        } else if !(forall|i: int| 0 <= i < digits.len() ==> is_digit_byte(#[trigger] digits[i])) {
            None
        } else {
            let value = if digits.len() == 1 {
                digits[0] - 0x30
            } else if digits.len() == 2 {
                10 * (digits[0] - 0x30) + (digits[1] - 0x30)
            } else {
                100 * (digits[0] - 0x30) + 10 * (digits[1] - 0x30) + (digits[2] - 0x30)
            };
            if value <= 255 {
                Some(code_of_num(value as u8))
            } else {
                None
            }
        }
    }
}

/// A response in the abstract: what parsing extracts and serializing lays
/// down, with strings as character sequences.
pub struct RespModel {
    pub code: ResponseCode,
    pub version: Version,
    pub token: Option<Seq<char>>,
    pub user: Option<Seq<char>>,
    pub time: Option<Timestamp>,
    pub message: Option<Seq<char>>,
    pub custom: Seq<(Seq<char>, Seq<char>)>,
}

/// One parsed header applied to the response being assembled.
pub open spec fn spec_resp_apply(acc: RespModel, k: Seq<u8>, v: Seq<u8>) -> Result<
    RespModel,
    ParseError,
> {
    if k == w_user() {
        Ok(RespModel { user: Some(ascii_str(v)), ..acc })
    } else if k == w_time() {
        match spec_parse_timestamp(v) {
            Some(ts) => Ok(RespModel { time: Some(ts), ..acc }),
            None => Err(ParseError::InvalidFormat),
        }
    } else if k == w_token() {
        Ok(RespModel { token: Some(ascii_str(v)), ..acc })
    } else if k == w_message() {
        Ok(RespModel { message: Some(ascii_str(v)), ..acc })
    } else {
        Ok(
            RespModel {
                custom: pairs_insert(acc.custom, ascii_str(k), ascii_str(v)),
                ..acc
            },
        )
    }
}

pub open spec fn w_message() -> Seq<u8> {
    crate::request::w_message()
}

/// The header lines folded onto the response being assembled.
pub open spec fn spec_parse_resp_lines(lines: Seq<Seq<u8>>, i: int, acc: RespModel) -> Result<
    RespModel,
    ParseError,
>
    decreases lines.len() - i,
{
    if i < 0 || i >= lines.len() {
        Ok(acc)
    } else {
        match spec_parse_kv(lines[i]) {
            None => Err(ParseError::InvalidFormat),
            Some((k, v)) => match spec_resp_apply(acc, k, v) {
                Ok(acc2) => spec_parse_resp_lines(lines, i + 1, acc2),
                Err(e) => Err(e),
            },
        }
    }
}

/// What a response frame's text means.
pub open spec fn spec_parse_response(text_bytes: Seq<u8>) -> Result<RespModel, ParseError> {
    let lines = split_lines(text_bytes);
    if lines.len() < 1 {
        Err(ParseError::MissingVersion)
    } else {
        match spec_parse_version(lines[0]) {
            Err(e) => Err(e),
            Ok(version) => {
                if lines.len() < 2 {
                    Err(ParseError::MissingCode)
                } else {
                    match spec_parse_code_line(lines[1]) {
                        None => Err(ParseError::MissingCode),
                        Some(code) => spec_parse_resp_lines(
                            lines,
                            2,
                            RespModel {
                                code,
                                version,
                                token: None,
                                user: None,
                                time: None,
                                message: None,
                                custom: Seq::empty(),
                            },
                        ),
                    }
                }
            },
        }
    }
}

/// The lines a response serializes to: version, code, then token, user,
/// custom headers and message, each only when present.  The timestamp
/// field is not serialized; a `Time` header travels in the custom map.
pub open spec fn spec_response_lines(m: RespModel) -> Seq<Seq<u8>> {
    seq![w_version_line(), spec_code_line(m.code)] + (match m.token {
        Some(t) => seq![render_kv_quoted(w_token(), ascii_bytes(t))],
        None => seq![],
    }) + (match m.user {
        Some(u) => seq![render_kv_quoted(w_user(), ascii_bytes(u))],
        None => seq![],
    }) + m.custom.map(
        |i: int, p: (Seq<char>, Seq<char>)| render_kv_quoted(ascii_bytes(p.0), ascii_bytes(p.1)),
    ) + (match m.message {
        Some(msg) => seq![render_kv_quoted(w_message(), ascii_bytes(msg))],
        None => seq![],
    })
}

/// The byte image of a response.
pub open spec fn spec_render_response(m: RespModel) -> Seq<u8> {
    join_lines(spec_response_lines(m))
}

/// A string field that is present is nonempty, quotable text.
pub open spec fn opt_value_wf(v: Option<Seq<char>>) -> bool {
    match v {
        Some(s) => chars_wf(s) && value_wf(ascii_bytes(s)),
        None => true,
    }
}

/// The strings of a response can stand on the wire.
pub open spec fn resp_strings_wf(m: RespModel) -> bool {
    &&& opt_value_wf(m.token)
    &&& opt_value_wf(m.user)
    &&& opt_value_wf(m.message)
    &&& forall|i: int|
        0 <= i < m.custom.len() ==> {
            let p = #[trigger] m.custom[i];
            chars_wf(p.0) && key_wf(ascii_bytes(p.0)) && chars_wf(p.1) && value_wf(
                ascii_bytes(p.1),
            )
        }
}

/// A response the serializer can lay down and the parser read back: a
/// well-formed code, quotable string fields, and custom headers with
/// unique keys that stay clear of the reserved header names.
pub open spec fn resp_model_wf(m: RespModel) -> bool {
    &&& code_wf(m.code)
    &&& opt_value_wf(m.token)
    &&& opt_value_wf(m.user)
    &&& opt_value_wf(m.message)
    &&& pairs_unique(m.custom)
    &&& forall|i: int|
        0 <= i < m.custom.len() ==> {
            let p = #[trigger] m.custom[i];
            &&& chars_wf(p.0)
            &&& key_wf(ascii_bytes(p.0))
            &&& chars_wf(p.1)
            &&& value_wf(ascii_bytes(p.1))
            &&& ascii_bytes(p.0) != w_token()
            &&& ascii_bytes(p.0) != w_user()
            &&& ascii_bytes(p.0) != w_time()
            &&& ascii_bytes(p.0) != w_message()
        }
}

/// A response as the library hands it out.
#[derive(Debug)]
pub struct Response {
    pub code: ResponseCode,
    pub version: Version,
    pub token: Option<String>,
    pub user: Option<String>,
    pub time: Option<Timestamp>,
    pub message: Option<String>,
    pub custom: Option<StrMap>,
    pub varmap: Option<Varmap>,
}

/// The view of an optional string field.
pub open spec fn opt_view(v: Option<String>) -> Option<Seq<char>> {
    match v {
        Some(s) => Some(s@),
        None => None,
    }
}

impl Response {
    /// The abstract content this response carries.
    pub open spec fn spec_model(&self) -> RespModel {
        RespModel {
            code: self.code,
            version: self.version,
            token: opt_view(self.token),
            user: opt_view(self.user),
            time: self.time,
            message: opt_view(self.message),
            custom: match self.custom {
                Some(ref sm) => sm.spec_pairs(),
                None => Seq::empty(),
            },
        }
    }

    /// The response's strings can stand on the wire.
    pub open spec fn strings_wf(&self) -> bool {
        resp_strings_wf(self.spec_model())
    }
}

impl ResponseCode {
    /// The numeric wire value.
    pub fn to_u8(&self) -> (n: u8)
        ensures
            n == code_num(*self),
    {
        match self {
            ResponseCode::OK => 10,
            ResponseCode::AuthOK => 11,
            ResponseCode::ParseError => 20,
            ResponseCode::InvalidName => 21,
            ResponseCode::AlreadyTaken => 22,
            ResponseCode::InvalidHeader => 23,
            ResponseCode::Unauthorized => 24,
            ResponseCode::Error => 30,
            ResponseCode::FatalError => 31,
            ResponseCode::Custom(v) => *v,
        }
    }

    /// The code's whole `<Code@N>` line.
    pub fn to_string(&self) -> (s: String)
        ensures
            s@ == ascii_str(spec_code_line(*self)),
            chars_wf(s@),
            s@.len() == spec_code_line(*self).len(),
    {
        let n = self.to_u8();
        let mut v: Vec<u8> = Vec::new();
        v.push(LT);
        v.push(0x43);
        v.push(0x6f);
        v.push(0x64);
        v.push(0x65);
        v.push(AT);
        if n < 10 {
            v.push(0x30 + n);
        } else if n < 100 {
            v.push(0x30 + n / 10);
            v.push(0x30 + n % 10);
        } else {
            v.push(0x30 + n / 100);
            v.push(0x30 + (n / 10) % 10);
            v.push(0x30 + n % 10);
        }
        v.push(GT);
        proof {
            assert(v@ =~= spec_code_line(*self));
            assert(text::all_text(v@)) by {
                lemma_code_line_clean(*self);
            }
        }
        text::string_from_ascii(v.as_slice())
    }

    /// The code named by a whole `<Code@N>` line.
    pub fn from_str(s: &str) -> (r: Result<ResponseCode, ()>)
        ensures
            ({
                let sp = spec_parse_code_line(
                    vstd::string::StringSliceAdditionalSpecFns::spec_bytes(s),
                );
                match (r, sp) {
                    (Ok(c), Some(c2)) => c == c2,
                    (Err(_), None) => true,
                    _ => false,
                }
            }),
    {
        match parse_code_bytes(s.as_bytes()) {
            Some(c) => Ok(c),
            None => Err(()),
        }
    }
}

/// The numeric value on a `<Code@N>` line, if the line has that shape.
pub(crate) fn extract_val(input: &str) -> (r: Option<u8>)
    ensures
        ({
            let sp = spec_parse_code_line(vstd::string::StringSliceAdditionalSpecFns::spec_bytes(input));
            match (r, sp) {
                (Some(n), Some(c)) => n == code_num(c),
                (None, None) => true,
                _ => false,
            }
        }),
{
    match parse_code_bytes(input.as_bytes()) {
        Some(c) => Some(c.to_u8()),
        None => None,
    }
}

/// Every byte of a code line is text and none is a newline.
proof fn lemma_code_line_clean(c: ResponseCode)
    ensures
        spec_code_line(c).len() > 0,
        text::all_text(spec_code_line(c)),
        forall|j: int|
            0 <= j < spec_code_line(c).len() ==> #[trigger] spec_code_line(c)[j] != NL,
{
    let line = spec_code_line(c);
    let d = dec_digits(code_num(c) as int);
    assert forall|j: int| 0 <= j < line.len() implies text::is_text_byte(#[trigger] line[j])
        && line[j] != NL by {
        if 6 <= j < 6 + d.len() {
            assert(line[j] == d[j - 6]);
            assert(is_digit_byte(d[j - 6]));
        }
    }
}

/// Reads a `<Code@N>` line.
pub(crate) fn parse_code_bytes(line: &[u8]) -> (r: Option<ResponseCode>)
    ensures
        r == spec_parse_code_line(line@),
{
    let n = line.len();
    if n < 8 || line[0] != LT || line[1] != 0x43 || line[2] != 0x6f || line[3] != 0x64 || line[4]
        != 0x65 || line[5] != AT || line[n - 1] != GT {
        return None;
    }
    let dlen = n - 7;
    if dlen < 1 || dlen > 3 {
        return None;
    }
    let ghost digits = line@.subrange(6int, line@.len() - 1);
    let mut i: usize = 6;
    while i < n - 1
        invariant
            6 <= i <= n - 1,
            n == line@.len(),
            n >= 8,
            digits == line@.subrange(6int, line@.len() - 1),
            forall|j: int| 6 <= j < i ==> is_digit_byte(#[trigger] line@[j]),
        decreases n - 1 - i,
    {
        if !text::byte_is_digit(line[i]) {
            proof {
                assert(digits[i as int - 6] == line@[i as int]);
                assert(!is_digit_byte(digits[i as int - 6]));
            }
            return None;
        }
        i += 1;
    }
    proof {
        assert(forall|j: int| 0 <= j < digits.len() ==> is_digit_byte(#[trigger] digits[j])) by {
            assert(forall|j: int|
                0 <= j < digits.len() ==> digits[j] == line@[#[trigger] (j + 6)]);
        }
    }
    let value: u16 = if dlen == 1 {
        (line[6] - 0x30) as u16
    } else if dlen == 2 {
        10 * ((line[6] - 0x30) as u16) + ((line[7] - 0x30) as u16)
    } else {
        100 * ((line[6] - 0x30) as u16) + 10 * ((line[7] - 0x30) as u16) + ((line[8] - 0x30)
            as u16)
    };
    proof {
        assert(digits[0] == line@[6]);
        if digits.len() >= 2 {
            assert(digits[1] == line@[7]);
        }
        if digits.len() >= 3 {
            assert(digits[2] == line@[8]);
        }
    }
    if value <= 255 {
        Some(code_of_num_exec(value as u8))
    } else {
        None
    }
}

fn code_of_num_exec(n: u8) -> (c: ResponseCode)
    ensures
        c == code_of_num(n),
{
    if n == 10 {
        ResponseCode::OK
    } else if n == 11 {
        ResponseCode::AuthOK
    } else if n == 20 {
        ResponseCode::ParseError
    } else if n == 21 {
        ResponseCode::InvalidName
    } else if n == 22 {
        ResponseCode::AlreadyTaken
    } else if n == 23 {
        ResponseCode::InvalidHeader
    } else if n == 24 {
        ResponseCode::Unauthorized
    } else if n == 30 {
        ResponseCode::Error
    } else if n == 31 {
        ResponseCode::FatalError
    } else {
        ResponseCode::Custom(n)
    }
}

/// An executable response carries the content of a model.
pub open spec fn resp_matches(r: Response, m: RespModel) -> bool {
    &&& r.code == m.code
    &&& r.version == m.version
    &&& opt_view(r.token) == m.token
    &&& opt_view(r.user) == m.user
    &&& r.time == m.time
    &&& opt_view(r.message) == m.message
    &&& match r.custom {
        Some(ref sm) => sm.spec_pairs() == m.custom && m.custom.len() > 0 && sm.wf(),
        None => m.custom.len() == 0,
    }
}

pub(crate) fn token_key_str() -> (s: String)
    ensures
        s@ == ascii_str(w_token()),
        chars_wf(s@),
{
    let s = String::from_str("Token");
    proof {
        reveal_strlit("Token");
        assert(s@ =~= ascii_str(w_token()));
        assert(chars_wf(s@));
    }
    s
}

pub(crate) fn user_key_str() -> (s: String)
    ensures
        s@ == ascii_str(w_user()),
        chars_wf(s@),
{
    let s = String::from_str("User");
    proof {
        reveal_strlit("User");
        assert(s@ =~= ascii_str(w_user()));
        assert(chars_wf(s@));
    }
    s
}

pub(crate) fn message_key_str() -> (s: String)
    ensures
        s@ == ascii_str(w_message()),
        chars_wf(s@),
{
    let s = String::from_str("Message");
    proof {
        reveal_strlit("Message");
        assert(s@ =~= ascii_str(w_message()));
        assert(chars_wf(s@));
    }
    s
}

pub(crate) fn time_key_str() -> (s: String)
    ensures
        s@ == ascii_str(w_time()),
        chars_wf(s@),
{
    let s = String::from_str("Time");
    proof {
        reveal_strlit("Time");
        assert(s@ =~= ascii_str(w_time()));
        assert(chars_wf(s@));
    }
    s
}

/// The response-side header words are text.
proof fn lemma_resp_keys_text()
    ensures
        text::all_text(w_token()),
        text::all_text(w_user()),
        text::all_text(w_time()),
        text::all_text(w_message()),
        key_wf(w_token()),
        key_wf(w_user()),
        key_wf(w_time()),
        key_wf(w_message()),
{
}

impl Response {
    /// Reads a response out of a frame: the zero tail is trimmed and the
    /// rest read as version line, code line and headers.
    pub fn from_bytes(read_buf: &[u8; 512]) -> (r: Result<Response, ParseError>)
        ensures
            ({
                let sp = spec_parse_response(trim_zeros(read_buf@));
                match (r, sp) {
                    (Ok(resp), Ok(m)) => resp_matches(resp, m) && resp.strings_wf()
                        && resp.varmap is None,
                    (Err(e1), Err(e2)) => e1 == e2,
                    _ => false,
                }
            }),
    {
        let end = text::text_end(read_buf);
        let v = text::slice_range(read_buf.as_slice(), 0, end);
        proof {
            assert(v@ == trim_zeros(read_buf@));
        }
        let ghost lines = split_lines(v@);
        let n = v.len();
        if n == 0 {
            return Err(ParseError::MissingVersion);
        }
        let e0 = text::find_line_end(v, 0);
        proof {
            assert(lines[0] == v@.subrange(0, e0 as int));
        }
        let version = match extract_version(text::slice_range(v, 0, e0)) {
            Ok(x) => x,
            Err(e) => {
                return Err(e);
            },
        };
        if e0 == n {
            proof {
                assert(lines =~= seq![v@.subrange(0, e0 as int)]);
            }
            return Err(ParseError::MissingCode);
        }
        let p1 = e0 + 1;
        if p1 == n {
            proof {
                assert(lines_from(v@, p1 as int) =~= Seq::<Seq<u8>>::empty());
                assert(lines =~= seq![v@.subrange(0, e0 as int)] + lines_from(v@, p1 as int));
            }
            return Err(ParseError::MissingCode);
        }
        let e1 = text::find_line_end(v, p1);
        proof {
            assert(lines_from(v@, p1 as int)[0] == v@.subrange(p1 as int, e1 as int));
            assert(lines[1] == v@.subrange(p1 as int, e1 as int));
        }
        let code = match parse_code_bytes(text::slice_range(v, p1, e1)) {
            Some(c) => c,
            None => {
                return Err(ParseError::MissingCode);
            },
        };
        let mut token: Option<String> = None;
        let mut user: Option<String> = None;
        let mut time: Option<Timestamp> = None;
        let mut message: Option<String> = None;
        let mut custom = StrMap::new();
        let ghost init = RespModel {
            code,
            version,
            token: None,
            user: None,
            time: None,
            message: None,
            custom: Seq::empty(),
        };
        let mut pos: usize = if e1 == n {
            n
        } else if e1 + 1 == n {
            n
        } else {
            e1 + 1
        };
        let ghost mut li: int = 2;
        proof {
            assert(lines.skip(2) =~= lines_from(v@, pos as int));
        }
        while pos < n
            invariant
                2 <= li <= lines.len(),
                pos <= n,
                n == v@.len(),
                v@ == trim_zeros(read_buf@),
                lines == split_lines(v@),
                lines.skip(li) =~= lines_from(v@, pos as int),
                pos >= n ==> li == lines.len(),
                pos < n ==> li < lines.len(),
                custom.wf(),
                lines.len() >= 2,
                init == (RespModel {
                    code,
                    version,
                    token: None,
                    user: None,
                    time: None,
                    message: None,
                    custom: Seq::empty(),
                }),
                spec_parse_version(lines[0]) == Ok::<Version, ParseError>(version),
                spec_parse_code_line(lines[1]) == Some(code),
                spec_parse_resp_lines(lines, 2, init) == spec_parse_resp_lines(
                    lines,
                    li,
                    RespModel {
                        code,
                        version,
                        token: opt_view(token),
                        user: opt_view(user),
                        time,
                        message: opt_view(message),
                        custom: custom.spec_pairs(),
                    },
                ),
                opt_value_wf(opt_view(token)),
                opt_value_wf(opt_view(user)),
                opt_value_wf(opt_view(message)),
                forall|i: int|
                    0 <= i < custom.spec_pairs().len() ==> {
                        let p = #[trigger] custom.spec_pairs()[i];
                        chars_wf(p.0) && key_wf(ascii_bytes(p.0)) && chars_wf(p.1) && value_wf(
                            ascii_bytes(p.1),
                        )
                    },
            decreases n - pos,
        {
            let e = text::find_line_end(v, pos);
            let ghost cur = lines_from(v@, pos as int);
            proof {
                if e < n {
                    assert(cur =~= seq![v@.subrange(pos as int, e as int)] + lines_from(
                        v@,
                        e + 1 as int,
                    ));
                } else {
                    assert(cur =~= seq![v@.subrange(pos as int, e as int)]);
                }
                assert(lines.skip(li)[0] == lines[li]);
                assert(lines[li] == v@.subrange(pos as int, e as int));
            }
            let ghost acc0 = RespModel {
                code,
                version,
                token: opt_view(token),
                user: opt_view(user),
                time,
                message: opt_view(message),
                custom: custom.spec_pairs(),
            };
            match text::parse_kv_bytes(text::slice_range(v, pos, e)) {
                None => {
                    proof {
                        assert(spec_parse_resp_lines(lines, li, acc0) == Err::<
                            RespModel,
                            ParseError,
                        >(ParseError::InvalidFormat));
                    }
                    return Err(ParseError::InvalidFormat);
                },
                Some((k, val)) => {
                    let ghost kb = spec_parse_kv(lines[li])->Some_0.0;
                    let ghost vb = spec_parse_kv(lines[li])->Some_0.1;
                    proof {
                        text::lemma_parsed_kv_wf(lines[li]);
                        crate::request::lemma_key_value_text(kb, vb);
                        lemma_resp_keys_text();
                        text::lemma_ascii_str_injective(kb, w_user());
                        text::lemma_ascii_str_injective(kb, w_time());
                        text::lemma_ascii_str_injective(kb, w_token());
                        text::lemma_ascii_str_injective(kb, w_message());
                        reveal_strlit("User");
                        reveal_strlit("Time");
                        reveal_strlit("Token");
                        reveal_strlit("Message");
                        assert("User"@ =~= ascii_str(w_user()));
                        assert("Time"@ =~= ascii_str(w_time()));
                        assert("Token"@ =~= ascii_str(w_token()));
                        assert("Message"@ =~= ascii_str(w_message()));
                        text::lemma_ascii_bytes_of_str(val@);
                        assert(ascii_bytes(val@) == vb);
                    }
                    if string_eq_word(&k, "User") {
                        user = Some(val);
                    } else if string_eq_word(&k, "Time") {
                        let vbytes = text::string_ascii_bytes(&val);
                        match crate::timestamp::parse_timestamp(vbytes) {
                            Some(ts) => {
                                time = Some(ts);
                            },
                            None => {
                                proof {
                                    assert(spec_resp_apply(acc0, kb, vb) == Err::<
                                        RespModel,
                                        ParseError,
                                    >(ParseError::InvalidFormat));
                                    assert(spec_parse_resp_lines(lines, li, acc0) == Err::<
                                        RespModel,
                                        ParseError,
                                    >(ParseError::InvalidFormat));
                                }
                                return Err(ParseError::InvalidFormat);
                            },
                        }
                    } else if string_eq_word(&k, "Token") {
                        token = Some(val);
                    } else if string_eq_word(&k, "Message") {
                        message = Some(val);
                    } else {
                        let ghost ps0 = custom.spec_pairs();
                        custom.insert(k, val);
                        proof {
                            crate::strmap::lemma_pairs_insert_entries(ps0, ascii_str(kb), ascii_str(vb));
                        }
                    }
                    proof {
                        assert(lines.skip(li).drop_first() =~= lines.skip(li + 1));
                        li = li + 1;
                    }
                },
            }
            pos = if e == n {
                n
            } else if e + 1 == n {
                n
            } else {
                e + 1
            };
            proof {
                if pos as int == n {
                    assert(lines_from(v@, pos as int) =~= Seq::<Seq<u8>>::empty());
                    if e < n {
                        assert(cur.drop_first() =~= lines_from(v@, e + 1 as int));
                    } else {
                        assert(cur.drop_first() =~= Seq::<Seq<u8>>::empty());
                    }
                } else {
                    assert(cur.drop_first() =~= lines_from(v@, pos as int));
                }
                assert(lines.skip(li) =~= cur.drop_first());
            }
        }
        proof {
            assert(lines_from(v@, pos as int) =~= Seq::<Seq<u8>>::empty());
            assert(li == lines.len());
        }
        let custom_opt = if custom.len() == 0 {
            None
        } else {
            Some(custom)
        };
        Ok(
            Response {
                code,
                version,
                token,
                user,
                time,
                message,
                custom: custom_opt,
                varmap: None,
            },
        )
    }
}

impl Response {
    /// Builds the response's textual image, checking each string on the
    /// way.
    fn render_text(&self) -> (r: Result<Vec<u8>, ()>)
        ensures
            match r {
                Ok(out) => self.strings_wf() && out@ == spec_render_response(self.spec_model()),
                Err(_) => !self.strings_wf(),
            },
    {
        let ghost m = self.spec_model();
        let ghost all_lines = spec_response_lines(m);
        let ghost seg_tok: Seq<Seq<u8>> = match m.token {
            Some(t) => seq![render_kv_quoted(w_token(), ascii_bytes(t))],
            None => seq![],
        };
        let ghost seg_user: Seq<Seq<u8>> = match m.user {
            Some(u) => seq![render_kv_quoted(w_user(), ascii_bytes(u))],
            None => seq![],
        };
        let ghost seg_cust = m.custom.map(
            |i: int, p: (Seq<char>, Seq<char>)| render_kv_quoted(
                ascii_bytes(p.0),
                ascii_bytes(p.1),
            ),
        );
        let ghost seg_msg: Seq<Seq<u8>> = match m.message {
            Some(msg) => seq![render_kv_quoted(w_message(), ascii_bytes(msg))],
            None => seq![],
        };
        proof {
            assert(all_lines == seq![w_version_line(), spec_code_line(m.code)] + seg_tok
                + seg_user + seg_cust + seg_msg);
        }
        if let Some(t) = &self.token {
            if !crate::request::check_value_string(t) {
                return Err(());
            }
        }
        if let Some(u) = &self.user {
            if !crate::request::check_value_string(u) {
                return Err(());
            }
        }
        if let Some(msg) = &self.message {
            if !crate::request::check_value_string(msg) {
                return Err(());
            }
        }
        if let Some(cm) = &self.custom {
            let mut i: usize = 0;
            while i < cm.pairs.len()
                invariant
                    i <= cm.spec_pairs().len(),
                    self.custom == Some(*cm),
                    forall|j: int|
                        0 <= j < i ==> {
                            let p = #[trigger] cm.spec_pairs()[j];
                            chars_wf(p.0) && key_wf(ascii_bytes(p.0)) && chars_wf(p.1)
                                && value_wf(ascii_bytes(p.1))
                        },
                decreases cm.spec_pairs().len() - i,
            {
                proof {
                    assert(cm.spec_pairs()[i as int] == (
                        cm.pairs@[i as int].0@,
                        cm.pairs@[i as int].1@,
                    ));
                }
                if !crate::request::check_key_string(&cm.pairs[i].0)
                    || !crate::request::check_value_string(&cm.pairs[i].1) {
                    proof {
                        assert(self.spec_model().custom == cm.spec_pairs());
                        assert(!resp_strings_wf(self.spec_model()));
                    }
                    return Err(());
                }
                i += 1;
            }
        }
        let mut out: Vec<u8> = Vec::new();
        out.push(LT);
        out.push(0x43);
        out.push(0x48);
        out.push(0x41);
        out.push(0x54);
        out.push(0x20);
        out.push(0x5c);
        out.push(0x20);
        out.push(0x31);
        out.push(0x2e);
        out.push(0x30);
        out.push(GT);
        proof {
            assert(out@ =~= w_version_line());
            assert(join_lines(seq![w_version_line()]) == w_version_line());
        }
        out.push(NL);
        let code_line = self.code.to_string();
        text::push_string_bytes(&mut out, &code_line);
        let ghost mut done: Seq<Seq<u8>> = seq![w_version_line(), spec_code_line(m.code)];
        proof {
            lemma_code_line_clean(m.code);
            text::lemma_ascii_str_of_bytes(spec_code_line(m.code));
            assert(ascii_bytes(code_line@) == spec_code_line(m.code));
            text::lemma_join_push(seq![w_version_line()], spec_code_line(m.code));
            assert(seq![w_version_line()].push(spec_code_line(m.code)) =~= done);
            assert(out@ =~= join_lines(done));
        }
        if let Some(t) = &self.token {
            out.push(NL);
            let key = token_key_str();
            text::push_kv_quoted(&mut out, &key, t);
            proof {
                lemma_resp_keys_text();
                text::lemma_ascii_str_of_bytes(w_token());
                let line = render_kv_quoted(w_token(), ascii_bytes(t@));
                text::lemma_join_push(done, line);
                done = done.push(line);
                assert(out@ =~= join_lines(done));
            }
        }
        if let Some(u) = &self.user {
            out.push(NL);
            let key = user_key_str();
            text::push_kv_quoted(&mut out, &key, u);
            proof {
                lemma_resp_keys_text();
                text::lemma_ascii_str_of_bytes(w_user());
                let line = render_kv_quoted(w_user(), ascii_bytes(u@));
                text::lemma_join_push(done, line);
                done = done.push(line);
                assert(out@ =~= join_lines(done));
            }
        }
        let ghost base = done;
        if let Some(cm) = &self.custom {
            let mut i: usize = 0;
            while i < cm.pairs.len()
                invariant
                    i <= cm.spec_pairs().len(),
                    m == self.spec_model(),
                    seg_cust == m.custom.map(
                        |k: int, p: (Seq<char>, Seq<char>)| render_kv_quoted(
                            ascii_bytes(p.0),
                            ascii_bytes(p.1),
                        ),
                    ),
                    self.custom == Some(*cm),
                    m.custom == cm.spec_pairs(),
                    self.strings_wf(),
                    done == base + seg_cust.take(i as int),
                    out@ == join_lines(done),
                    done.len() >= 2,
                decreases cm.spec_pairs().len() - i,
            {
                out.push(NL);
                proof {
                    assert(cm.spec_pairs()[i as int] == (
                        cm.pairs@[i as int].0@,
                        cm.pairs@[i as int].1@,
                    ));
                }
                text::push_kv_quoted(&mut out, &cm.pairs[i].0, &cm.pairs[i].1);
                proof {
                    let line = seg_cust[i as int];
                    assert(line == render_kv_quoted(
                        ascii_bytes(m.custom[i as int].0),
                        ascii_bytes(m.custom[i as int].1),
                    ));
                    text::lemma_join_push(done, line);
                    done = done.push(line);
                    assert(out@ =~= join_lines(done));
                    assert(done =~= base + seg_cust.take(i as int + 1));
                }
                i += 1;
            }
            proof {
                assert(seg_cust.take(seg_cust.len() as int) =~= seg_cust);
            }
        } else {
            proof {
                assert(seg_cust =~= Seq::<Seq<u8>>::empty());
                assert(done =~= base + seg_cust);
            }
        }
        proof {
            assert(done =~= base + seg_cust);
        }
        if let Some(msg) = &self.message {
            out.push(NL);
            let key = message_key_str();
            text::push_kv_quoted(&mut out, &key, msg);
            proof {
                lemma_resp_keys_text();
                text::lemma_ascii_str_of_bytes(w_message());
                let line = render_kv_quoted(w_message(), ascii_bytes(msg@));
                text::lemma_join_push(done, line);
                done = done.push(line);
                assert(out@ =~= join_lines(done));
            }
        }
        proof {
            assert(done =~= all_lines);
        }
        Ok(out)
    }

    /// Serializes the response into a frame.  Fails when a string cannot
    /// stand on the wire or the text outgrows the frame.
    pub fn as_bytes(&self) -> (r: Result<[u8; 512], ()>)
        ensures
            ({
                let m = self.spec_model();
                match r {
                    Ok(frame) => self.strings_wf() && spec_render_response(m).len() <= 512
                        && frame@ == text::zero_pad(spec_render_response(m)),
                    Err(_) => !self.strings_wf() || spec_render_response(m).len() > 512,
                }
            }),
    {
        match self.render_text() {
            Ok(out) => {
                if out.len() > 512 {
                    return Err(());
                }
                Ok(text::pack_frame(out.as_slice()))
            },
            Err(_) => Err(()),
        }
    }

    /// The response's textual image, for reading by people; empty when a
    /// string cannot stand on the wire.
    pub fn pretty_string(&self) -> (s: String)
        ensures
            self.strings_wf() ==> s@ == ascii_str(spec_render_response(self.spec_model())),
    {
        match self.render_text() {
            Ok(out) => {
                proof {
                    lemma_response_lines_clean(self.spec_model());
                    text::lemma_join_lines_text(spec_response_lines(self.spec_model()));
                }
                text::string_from_ascii(out.as_slice())
            },
            Err(_) => String::new(),
        }
    }
}

/// Every line of a response rendering is nonempty text without newlines.
proof fn lemma_response_lines_clean(m: RespModel)
    requires
        resp_strings_wf(m),
    ensures
        ({
            let lines = spec_response_lines(m);
            &&& lines.len() >= 2
            &&& forall|i: int|
                0 <= i < lines.len() ==> (#[trigger] lines[i]).len() > 0 && text::all_text(
                    lines[i],
                )
            &&& forall|i: int, j: int|
                0 <= i < lines.len() && 0 <= j < lines[i].len() ==> #[trigger] lines[i][j] != NL
        }),
{
    let lines = spec_response_lines(m);
    lemma_code_line_clean(m.code);
    lemma_resp_keys_text();
    assert forall|i: int|
        0 <= i < lines.len() implies (#[trigger] lines[i]).len() > 0 && text::all_text(lines[i])
        && (forall|j: int| 0 <= j < lines[i].len() ==> #[trigger] lines[i][j] != NL) by {
        let seg_tok: Seq<Seq<u8>> = match m.token {
            Some(t) => seq![render_kv_quoted(w_token(), ascii_bytes(t))],
            None => seq![],
        };
        let seg_user: Seq<Seq<u8>> = match m.user {
            Some(u) => seq![render_kv_quoted(w_user(), ascii_bytes(u))],
            None => seq![],
        };
        let seg_cust = m.custom.map(
            |k: int, p: (Seq<char>, Seq<char>)| render_kv_quoted(
                ascii_bytes(p.0),
                ascii_bytes(p.1),
            ),
        );
        let seg_msg: Seq<Seq<u8>> = match m.message {
            Some(msg) => seq![render_kv_quoted(w_message(), ascii_bytes(msg))],
            None => seq![],
        };
        assert(lines == seq![w_version_line(), spec_code_line(m.code)] + seg_tok + seg_user
            + seg_cust + seg_msg);
        if i == 0 {
            assert(forall|j: int| 0 <= j < lines[0].len() ==> #[trigger] lines[0][j] != NL);
            assert(text::all_text(lines[0]));
        } else if i == 1 {
        } else {
            let t0 = 2 + seg_tok.len() as int;
            let u0 = t0 + seg_user.len() as int;
            let c0 = u0 + seg_cust.len() as int;
            if i < t0 {
                let t = m.token->0;
                text::lemma_render_kv_quoted_clean(w_token(), ascii_bytes(t));
            } else if i < u0 {
                let u = m.user->0;
                text::lemma_render_kv_quoted_clean(w_user(), ascii_bytes(u));
            } else if i < c0 {
                let p = m.custom[i - u0];
                assert(lines[i] == render_kv_quoted(ascii_bytes(p.0), ascii_bytes(p.1)));
                text::lemma_render_kv_quoted_clean(ascii_bytes(p.0), ascii_bytes(p.1));
            } else {
                let msg = m.message->0;
                text::lemma_render_kv_quoted_clean(w_message(), ascii_bytes(msg));
            }
        }
    }
}

/// A response carrying only the version and a code.
pub open spec fn spec_code_only(c: ResponseCode) -> RespModel {
    RespModel {
        code: c,
        version: Version::CHAT10,
        token: None,
        user: None,
        time: None,
        message: None,
        custom: Seq::empty(),
    }
}

/// A version-and-code response: two short lines, always within a frame.
pub proof fn lemma_code_only_fits(c: ResponseCode)
    ensures
        resp_strings_wf(spec_code_only(c)),
        spec_render_response(spec_code_only(c)).len() <= 24,
{
    let m = spec_code_only(c);
    let lines = spec_response_lines(m);
    assert(lines =~= seq![w_version_line(), spec_code_line(c)]);
    assert(spec_code_line(c).len() <= 11);
    assert(lines.drop_first() =~= seq![spec_code_line(c)]);
    assert(join_lines(lines.drop_first()) == spec_code_line(c));
    assert(join_lines(lines) =~= w_version_line() + seq![NL] + spec_code_line(c));
}

/// Builds the response that carries only the version and a code.
pub fn code_only_response(c: ResponseCode) -> (r: Response)
    ensures
        r.spec_model() == spec_code_only(c),
        r.strings_wf(),
        r.varmap is None,
        r.custom is None,
{
    let r = Response {
        code: c,
        version: Version::CHAT10,
        token: None,
        user: None,
        time: None,
        message: None,
        custom: None,
        varmap: None,
    };
    proof {
        assert(r.spec_model() == spec_code_only(c));
        lemma_code_only_fits(c);
    }
    r
}

/// The frame of a version-and-code response; it always fits.
pub fn code_only_frame(c: ResponseCode) -> (f: [u8; 512])
    ensures
        f@ == text::zero_pad(spec_render_response(spec_code_only(c))),
{
    let r = code_only_response(c);
    proof {
        lemma_code_only_fits(c);
    }
    match r.as_bytes() {
        Ok(f) => f,
        Err(_) => {
            proof {
                assert(false);
            }
            text::pack_frame(&[])
        },
    }
}

/// Builder for responses.
#[derive(Debug)]
pub struct ResponseBuilder {
    pub code: Option<ResponseCode>,
    pub version: Option<Version>,
    pub token: Option<String>,
    pub user: Option<String>,
    pub time: Option<Timestamp>,
    pub message: Option<String>,
    pub custom: Option<StrMap>,
    pub varmap: Option<Varmap>,
}

impl ResponseBuilder {
    pub fn new() -> (b: ResponseBuilder)
        ensures
            b.code is None,
            b.version is None,
            b.token is None,
            b.user is None,
            b.time is None,
            b.message is None,
            b.custom is None,
            b.varmap is None,
    {
        ResponseBuilder {
            code: None,
            version: None,
            token: None,
            user: None,
            time: None,
            message: None,
            custom: None,
            varmap: None,
        }
    }

    pub fn version(self, version: Version) -> (b: ResponseBuilder)
        ensures
            b == (ResponseBuilder { version: Some(version), ..self }),
    {
        ResponseBuilder { version: Some(version), ..self }
    }

    pub fn code(self, code: ResponseCode) -> (b: ResponseBuilder)
        ensures
            b == (ResponseBuilder { code: Some(code), ..self }),
    {
        ResponseBuilder { code: Some(code), ..self }
    }

    pub fn token(self, token: String) -> (b: ResponseBuilder)
        ensures
            b == (ResponseBuilder { token: Some(token), ..self }),
    {
        ResponseBuilder { token: Some(token), ..self }
    }

    pub fn user(self, user: String) -> (b: ResponseBuilder)
        ensures
            b == (ResponseBuilder { user: Some(user), ..self }),
    {
        ResponseBuilder { user: Some(user), ..self }
    }

    pub fn time(self, time: Timestamp) -> (b: ResponseBuilder)
        ensures
            b == (ResponseBuilder { time: Some(time), ..self }),
    {
        ResponseBuilder { time: Some(time), ..self }
    }

    pub fn message(self, message: String) -> (b: ResponseBuilder)
        ensures
            b == (ResponseBuilder { message: Some(message), ..self }),
    {
        ResponseBuilder { message: Some(message), ..self }
    }

    /// Sticks an attachment on the response under construction.
    pub fn varmap_insert(self, value: crate::varmap::Attachment) -> (b: ResponseBuilder)
        ensures
            b.varmap is Some,
            b.varmap->0.spec_get(value.spec_key()) == Some(value),
            b.code == self.code,
            b.version == self.version,
            b.token == self.token,
            b.user == self.user,
            b.time == self.time,
            b.message == self.message,
            b.custom == self.custom,
    {
        let mut vm = match self.varmap {
            Some(vm) => vm,
            None => Varmap::new(),
        };
        vm.insert(value);
        ResponseBuilder { varmap: Some(vm), ..self }
    }

    /// Gives the response an empty custom header map.
    pub fn custom_init(self) -> (b: ResponseBuilder)
        ensures
            b.custom is Some,
            b.custom->0.spec_pairs() =~= Seq::<(Seq<char>, Seq<char>)>::empty(),
            b.custom->0.wf(),
            b.code == self.code,
            b.version == self.version,
            b.token == self.token,
            b.user == self.user,
            b.time == self.time,
            b.message == self.message,
            b.varmap == self.varmap,
    {
        ResponseBuilder { custom: Some(StrMap::new()), ..self }
    }

    /// Adds one custom header, creating the map if none is there yet.
    pub fn custom_insert(self, key: String, value: String) -> (b: ResponseBuilder)
        requires
            match self.custom {
                Some(cm) => cm.wf(),
                None => true,
            },
        ensures
            b.custom is Some,
            b.custom->0.wf(),
            b.custom->0.spec_pairs() == pairs_insert(
                match self.custom {
                    Some(cm) => cm.spec_pairs(),
                    None => Seq::empty(),
                },
                key@,
                value@,
            ),
            b.code == self.code,
            b.version == self.version,
            b.token == self.token,
            b.user == self.user,
            b.time == self.time,
            b.message == self.message,
            b.varmap == self.varmap,
    {
        let mut cm = match self.custom {
            Some(cm) => cm,
            None => StrMap::new(),
        };
        cm.insert(key, value);
        ResponseBuilder { custom: Some(cm), ..self }
    }

    /// Replaces the custom header map outright.
    pub fn custom_replace(self, custom: StrMap) -> (b: ResponseBuilder)
        ensures
            b == (ResponseBuilder { custom: Some(custom), ..self }),
    {
        ResponseBuilder { custom: Some(custom), ..self }
    }

    /// Assembles the response.  Code and version must be present, and a
    /// custom code may not collide with the named wire values.
    pub fn build(self) -> (r: Result<Response, BuilderError>)
        ensures
            match r {
                Ok(resp) => {
                    &&& self.code is Some && resp.code == self.code->0
                    &&& self.version is Some && resp.version == self.version->0
                    &&& resp.token == self.token
                    &&& resp.user == self.user
                    &&& resp.time == self.time
                    &&& resp.message == self.message
                    &&& resp.custom == self.custom
                    &&& resp.varmap == self.varmap
                    &&& code_wf(resp.code)
                },
                Err(e) => {
                    ||| e == BuilderError::NoCode && self.code is None
                    ||| e == BuilderError::NoVersion && self.code is Some && self.version is None
                    ||| e == BuilderError::ReservedCode && self.code is Some && self.version
                        is Some && !code_wf(self.code->0)
                },
            },
    {
        let ResponseBuilder { code, version, token, user, time, message, custom, varmap } = self;
        if let Some(code) = code {
            if let Some(version) = version {
                if let ResponseCode::Custom(v) = code {
                    if reserved_code(v) {
                        return Err(BuilderError::ReservedCode);
                    }
                }
                return Ok(Response { code, version, token, user, time, message, custom, varmap });
            }
            return Err(BuilderError::NoVersion);
        }
        Err(BuilderError::NoCode)
    }
}

impl Default for ResponseBuilder {
    /// A builder already carrying the protocol version and the `OK` code.
    fn default() -> (b: ResponseBuilder)
        ensures
            b.code == Some(ResponseCode::OK),
            b.version == Some(Version::CHAT10),
            b.token is None,
            b.user is None,
            b.time is None,
            b.message is None,
            b.custom is None,
            b.varmap is None,
    {
        ResponseBuilder {
            code: Some(ResponseCode::OK),
            version: Some(Version::CHAT10),
            token: None,
            user: None,
            time: None,
            message: None,
            custom: None,
            varmap: None,
        }
    }
}

/// A code line parses back to the code its wire value names.
proof fn lemma_parse_code_of_rendered(c: ResponseCode)
    ensures
        spec_parse_code_line(spec_code_line(c)) == Some(code_of_num(code_num(c))),
{
    let line = spec_code_line(c);
    let n = code_num(c) as int;
    let d = dec_digits(n);
    assert(line.subrange(6, line.len() as int - 1) =~= d);
    if n < 10 {
    } else if n < 100 {
        assert(10 * ((0x30 + n / 10) - 0x30) + ((0x30 + n % 10) - 0x30) == n);
    } else {
        assert(100 * ((0x30 + n / 100) - 0x30) + 10 * ((0x30 + (n / 10) % 10) - 0x30) + ((0x30 + n
            % 10) - 0x30) == n) by (nonlinear_arith)
            requires
                100 <= n <= 255,
        ;
    }
}

/// Folding a final message line, if any, sets the message field.
proof fn lemma_fold_message(lines: Seq<Seq<u8>>, off: int, msg: Option<Seq<char>>, acc: RespModel)
    requires
        0 <= off <= lines.len(),
        lines.len() - off == (match msg {
            Some(_) => 1int,
            None => 0,
        }),
        match msg {
            Some(s) => lines[off] == render_kv_quoted(w_message(), ascii_bytes(s)) && chars_wf(s)
                && value_wf(ascii_bytes(s)),
            None => true,
        },
    ensures
        spec_parse_resp_lines(lines, off, acc) == Ok::<RespModel, ParseError>(
            match msg {
                Some(s) => RespModel { message: Some(s), ..acc },
                None => acc,
            },
        ),
{
    match msg {
        Some(s) => {
            lemma_resp_keys_text();
            text::lemma_parse_of_rendered_kv(w_message(), ascii_bytes(s));
            text::lemma_ascii_bytes_of_str(s);
            let acc2 = RespModel { message: Some(s), ..acc };
            assert(spec_resp_apply(acc, w_message(), ascii_bytes(s)) == Ok::<
                RespModel,
                ParseError,
            >(acc2));
            assert(spec_parse_resp_lines(lines, off + 1, acc2) == Ok::<RespModel, ParseError>(
                acc2,
            ));
            assert(spec_parse_resp_lines(lines, off, acc) == spec_parse_resp_lines(
                lines,
                off + 1,
                acc2,
            ));
        },
        None => {},
    }
}

/// Folding rendered custom lines and then an optional message line
/// appends the pairs and sets the message.
#[verifier::rlimit(50)]
proof fn lemma_fold_customs_message(
    lines: Seq<Seq<u8>>,
    off: int,
    ps: Seq<(Seq<char>, Seq<char>)>,
    msg: Option<Seq<char>>,
    acc: RespModel,
)
    requires
        0 <= off,
        off + ps.len() + (match msg {
            Some(_) => 1int,
            None => 0,
        }) == lines.len(),
        forall|j: int|
            0 <= j < ps.len() ==> lines[off + j] == render_kv_quoted(
                ascii_bytes((#[trigger] ps[j]).0),
                ascii_bytes(ps[j].1),
            ),
        forall|j: int|
            0 <= j < ps.len() ==> {
                let p = #[trigger] ps[j];
                &&& chars_wf(p.0)
                &&& key_wf(ascii_bytes(p.0))
                &&& chars_wf(p.1)
                &&& value_wf(ascii_bytes(p.1))
                &&& ascii_bytes(p.0) != w_token()
                &&& ascii_bytes(p.0) != w_user()
                &&& ascii_bytes(p.0) != w_time()
                &&& ascii_bytes(p.0) != w_message()
            },
        pairs_unique(ps),
        forall|j: int|
            0 <= j < ps.len() ==> crate::strmap::pairs_lookup(
                acc.custom,
                (#[trigger] ps[j]).0,
            ) is None,
        match msg {
            Some(s) => lines[off + ps.len()] == render_kv_quoted(w_message(), ascii_bytes(s))
                && chars_wf(s) && value_wf(ascii_bytes(s)),
            None => true,
        },
    ensures
        spec_parse_resp_lines(lines, off, acc) == Ok::<RespModel, ParseError>(
            match msg {
                Some(s) => RespModel { custom: acc.custom + ps, message: Some(s), ..acc },
                None => RespModel { custom: acc.custom + ps, ..acc },
            },
        ),
    decreases ps.len(),
{
    if ps.len() == 0 {
        lemma_fold_message(lines, off, msg, acc);
        assert(acc.custom + ps =~= acc.custom);
        match msg {
            Some(s) => {
                assert(RespModel { custom: acc.custom + ps, message: Some(s), ..acc }
                    == RespModel { message: Some(s), ..acc });
            },
            None => {
                assert(RespModel { custom: acc.custom + ps, ..acc } == acc);
            },
        }
    } else {
        let k0 = ps[0].0;
        let v0 = ps[0].1;
        text::lemma_parse_of_rendered_kv(ascii_bytes(k0), ascii_bytes(v0));
        assert(spec_parse_kv(lines[off]) == Some((ascii_bytes(k0), ascii_bytes(v0))));
        text::lemma_ascii_bytes_of_str(k0);
        text::lemma_ascii_bytes_of_str(v0);
        crate::strmap::lemma_lookup_none(acc.custom, k0);
        crate::strmap::lemma_pairs_insert_shape(acc.custom, k0, v0);
        let acc1 = RespModel { custom: acc.custom.push((k0, v0)), ..acc };
        assert(spec_resp_apply(acc, ascii_bytes(k0), ascii_bytes(v0)) == Ok::<
            RespModel,
            ParseError,
        >(acc1));
        let rest = ps.drop_first();
        assert forall|j: int|
            0 <= j < rest.len() implies crate::strmap::pairs_lookup(
            acc1.custom,
            (#[trigger] rest[j]).0,
        ) is None by {
            assert(rest[j] == ps[j + 1]);
            assert(ps[j + 1].0 != k0);
            crate::strmap::lemma_lookup_none(acc.custom, ps[j + 1].0);
            crate::strmap::lemma_lookup_after_push(acc.custom, k0, v0, ps[j + 1].0);
        }
        assert forall|j: int|
            0 <= j < rest.len() implies lines[off + 1 + j] == render_kv_quoted(
            ascii_bytes((#[trigger] rest[j]).0),
            ascii_bytes(rest[j].1),
        ) by {
            assert(rest[j] == ps[j + 1]);
        }
        assert forall|j: int|
            0 <= j < rest.len() implies {
            let p = #[trigger] rest[j];
            &&& chars_wf(p.0)
            &&& key_wf(ascii_bytes(p.0))
            &&& chars_wf(p.1)
            &&& value_wf(ascii_bytes(p.1))
            &&& ascii_bytes(p.0) != w_token()
            &&& ascii_bytes(p.0) != w_user()
            &&& ascii_bytes(p.0) != w_time()
            &&& ascii_bytes(p.0) != w_message()
        } by {
            assert(rest[j] == ps[j + 1]);
        }
        assert forall|i: int, j: int|
            0 <= i < j < rest.len() implies (#[trigger] rest[i]).0 != (#[trigger] rest[j]).0 by {
            assert(rest[i] == ps[i + 1]);
            assert(rest[j] == ps[j + 1]);
        }
        lemma_fold_customs_message(lines, off + 1, rest, msg, acc1);
        assert(acc1.custom + rest =~= acc.custom + ps);
        match msg {
            Some(s) => {
                assert(RespModel { custom: acc1.custom + rest, message: Some(s), ..acc1 }
                    == RespModel { custom: acc.custom + ps, message: Some(s), ..acc });
            },
            None => {
                assert(RespModel { custom: acc1.custom + rest, ..acc1 } == RespModel {
                    custom: acc.custom + ps,
                    ..acc
                });
            },
        }
    }
}

/// Parsing a well-formed response's rendering gives back the code, the
/// version, the token, the user, the message and the custom headers; the
/// timestamp field does not travel.
#[verifier::rlimit(100)]
pub proof fn lemma_response_round_trip(m: RespModel)
    requires
        resp_model_wf(m),
    ensures
        ({
            let r = spec_parse_response(spec_render_response(m));
            &&& r is Ok
            &&& r->Ok_0.code == m.code
            &&& r->Ok_0.version == m.version
            &&& r->Ok_0.token == m.token
            &&& r->Ok_0.user == m.user
            &&& r->Ok_0.message == m.message
            &&& r->Ok_0.custom == m.custom
            &&& r->Ok_0.time is None
        }),
{
    let lines = spec_response_lines(m);
    let text_bytes = spec_render_response(m);
    lemma_response_lines_clean(m);
    text::lemma_split_of_joined(lines);
    assert(split_lines(text_bytes) == lines);
    assert(spec_parse_version(lines[0]) == Ok::<Version, ParseError>(Version::CHAT10));
    lemma_parse_code_of_rendered(m.code);
    lemma_code_num_round_trip(m.code);
    assert(spec_parse_code_line(lines[1]) == Some(m.code));
    let acc0 = RespModel {
        code: m.code,
        version: m.version,
        token: None,
        user: None,
        time: None,
        message: None,
        custom: Seq::empty(),
    };
    let seg_tok: Seq<Seq<u8>> = match m.token {
        Some(t) => seq![render_kv_quoted(w_token(), ascii_bytes(t))],
        None => seq![],
    };
    let seg_user: Seq<Seq<u8>> = match m.user {
        Some(u) => seq![render_kv_quoted(w_user(), ascii_bytes(u))],
        None => seq![],
    };
    let seg_cust = m.custom.map(
        |i: int, p: (Seq<char>, Seq<char>)| render_kv_quoted(ascii_bytes(p.0), ascii_bytes(p.1)),
    );
    let seg_msg: Seq<Seq<u8>> = match m.message {
        Some(msg) => seq![render_kv_quoted(w_message(), ascii_bytes(msg))],
        None => seq![],
    };
    assert(lines == seq![w_version_line(), spec_code_line(m.code)] + seg_tok + seg_user + seg_cust
        + seg_msg);
    lemma_resp_keys_text();
    let acc1 = match m.token {
        Some(t) => {
            text::lemma_parse_of_rendered_kv(w_token(), ascii_bytes(t));
            text::lemma_ascii_bytes_of_str(t);
            assert(lines[2] == render_kv_quoted(w_token(), ascii_bytes(t)));
            RespModel { token: Some(t), ..acc0 }
        },
        None => acc0,
    };
    let off1 = 2 + seg_tok.len() as int;
    assert(spec_parse_resp_lines(lines, 2, acc0) == spec_parse_resp_lines(lines, off1, acc1));
    let acc2 = match m.user {
        Some(u) => {
            text::lemma_parse_of_rendered_kv(w_user(), ascii_bytes(u));
            text::lemma_ascii_bytes_of_str(u);
            assert(lines[off1] == render_kv_quoted(w_user(), ascii_bytes(u)));
            RespModel { user: Some(u), ..acc1 }
        },
        None => acc1,
    };
    let off2 = off1 + seg_user.len() as int;
    assert(spec_parse_resp_lines(lines, off1, acc1) == spec_parse_resp_lines(lines, off2, acc2));
    assert forall|j: int|
        0 <= j < m.custom.len() implies lines[off2 + j] == render_kv_quoted(
        ascii_bytes((#[trigger] m.custom[j]).0),
        ascii_bytes(m.custom[j].1),
    ) by {
        assert(seg_cust[j] == render_kv_quoted(
            ascii_bytes(m.custom[j].0),
            ascii_bytes(m.custom[j].1),
        ));
    }
    match m.message {
        Some(s) => {
            assert(lines[off2 + m.custom.len()] == render_kv_quoted(
                w_message(),
                ascii_bytes(s),
            ));
        },
        None => {},
    }
    lemma_fold_customs_message(lines, off2, m.custom, m.message, acc2);
    assert(Seq::empty() + m.custom =~= m.custom);
    let r = spec_parse_response(text_bytes);
    assert(r is Ok);
    assert(r->Ok_0.custom =~= m.custom);
}

/// A whole frame round trip: a well-formed response laid into a frame
/// and read back, zero tail and all, keeps its code, version, token,
/// user, message and custom headers.
pub proof fn lemma_response_frame_round_trip(m: RespModel)
    requires
        resp_model_wf(m),
        spec_render_response(m).len() <= 512,
    ensures
        ({
            let r = spec_parse_response(trim_zeros(crate::text::zero_pad(spec_render_response(m))));
            &&& r is Ok
            &&& r->Ok_0.code == m.code
            &&& r->Ok_0.version == m.version
            &&& r->Ok_0.token == m.token
            &&& r->Ok_0.user == m.user
            &&& r->Ok_0.message == m.message
            &&& r->Ok_0.custom == m.custom
        }),
{
    let rendered = spec_render_response(m);
    lemma_response_lines_clean(m);
    text::lemma_join_lines_text(spec_response_lines(m));
    assert(rendered.len() > 0);
    assert(text::is_text_byte(rendered[rendered.len() - 1]));
    let pad = Seq::new((512 - rendered.len()) as nat, |i: int| 0u8);
    text::lemma_trim_of_padded(rendered, pad);
    lemma_response_round_trip(m);
}

/// Lays a string into a frame, truncating past the frame size; the tail
/// is zero-filled.
pub fn string_to_bytes(input: String) -> (frame: [u8; 512])
    ensures
        frame@ == text::zero_pad(
            vstd::utf8::encode_utf8(input@).take(
                if vstd::utf8::encode_utf8(input@).len() <= 512 {
                    vstd::utf8::encode_utf8(input@).len() as int
                } else {
                    512
                },
            ),
        ),
{
    let t = input.as_str();
    let b = t.as_bytes();
    let len = if b.len() <= 512 {
        b.len()
    } else {
        512
    };
    let frame = text::pack_frame(text::slice_range(b, 0, len));
    proof {
        assert(b@.subrange(0, len as int) =~= vstd::utf8::encode_utf8(input@).take(
            if vstd::utf8::encode_utf8(input@).len() <= 512 {
                vstd::utf8::encode_utf8(input@).len() as int
            } else {
                512
            },
        ));
    }
    frame
}

} // verus!
