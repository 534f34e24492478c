//! Sending a message: trailing newlines come off, then the frame.

use vstd::prelude::*;
use crate::client::ClientError;
use crate::request::{Method, ParseError, Request, ReqModel, Version};
use crate::strmap::StrMap;
use crate::text::{ascii_bytes, ascii_str, chars_wf, zero_pad, NL};
use crate::varmap::Varmap;

verus! {

/// The message with its trailing newlines taken off.
pub open spec fn trim_trailing_nl(s: Seq<char>) -> Seq<char>
    decreases s.len(),
{
    if s.len() == 0 {
        s
    } else if s[s.len() - 1] == '\n' {
        trim_trailing_nl(s.drop_last())
    } else {
        s
    }
}

proof fn lemma_trim_trailing_nl(s: Seq<char>, end: int)
    requires
        0 <= end <= s.len(),
        end == 0 || s[end - 1] != '\n',
        forall|i: int| end <= i < s.len() ==> s[i] == '\n',
    ensures
        trim_trailing_nl(s) =~= s.subrange(0, end),
    decreases s.len(),
{
    if s.len() == 0 {
    } else if s[s.len() - 1] == '\n' {
        assert(end < s.len());
        lemma_trim_trailing_nl(s.drop_last(), end);
    } else {
        assert(end == s.len());
    }
}

/// Builds send requests.
#[derive(Debug)]
pub struct DefaultSend;

impl DefaultSend {
    /// The send request frame for a message, its trailing newlines
    /// dropped first.  A message that then cannot stand as a quoted
    /// value, or outgrows the frame, is refused.
    pub fn request_frame(&self, message: &String) -> (r: Result<[u8; 512], ClientError>)
        ensures
            ({
                let m = ReqModel {
                    version: Version::CHAT10,
                    method: Method::Send,
                    value: trim_trailing_nl(message@),
                    custom: Seq::empty(),
                };
                match r {
                    Ok(f) => f@ == zero_pad(crate::request::spec_render_request(m))
                        && crate::request::spec_render_request(m).len() <= 512,
                    Err(e) => (!chars_wf(m.value) || !crate::text::value_wf(ascii_bytes(m.value))
                        || crate::request::spec_render_request(m).len() > 512) && (e matches
                    ClientError::ParseError(ParseError::InvalidFormat)),
                }
            }),
    {
        if !message.as_str().is_ascii() {
            proof {
                let i = choose|i: int|
                    0 <= i < message@.len() && !('\0' <= #[trigger] message@[i] && message@[i]
                        <= '\u{7f}');
                lemma_trim_in(message@, i);
            }
            return Err(ClientError::ParseError(ParseError::InvalidFormat));
        }
        let t = message.as_str();
        proof {
            broadcast use vstd::string::is_ascii_spec_bytes;

            assert(vstd::string::is_ascii(t));
            assert(vstd::string::StringSliceAdditionalSpecFns::spec_bytes(t) =~= ascii_bytes(
                message@,
            ));
        }
        let b = t.as_bytes();
        let mut end: usize = b.len();
        while end > 0 && b[end - 1] == NL
            invariant
                end <= b@.len(),
                b@ == ascii_bytes(message@),
                forall|i: int| end <= i < b@.len() ==> b@[i] == NL,
            decreases end,
        {
            end -= 1;
        }
        let ghost trimmed = trim_trailing_nl(message@);
        proof {
            assert forall|i: int| end <= i < message@.len() implies message@[i] == '\n' by {
                assert(ascii_bytes(message@)[i] == NL);
                assert(message@[i] <= '\u{7f}');
            }
            if end > 0 {
                assert(ascii_bytes(message@)[end - 1] != NL);
                assert(message@[end - 1] != '\n');
            }
            lemma_trim_trailing_nl(message@, end as int);
            assert(b@.subrange(0, end as int) =~= ascii_bytes(trimmed));
        }
        if !crate::text::check_all_text(b, 0, end) {
            proof {
                let w = b@.subrange(0, end as int);
                let i = choose|i: int| 0 <= i < w.len() && !crate::text::is_text_byte(#[trigger] w[i]);
                assert(w[i] == ascii_bytes(trimmed)[i]);
                assert(trimmed[i] as u8 == w[i]);
                assert(trimmed[i] == message@[i]);
                assert(message@[i] <= '\u{7f}');
                assert(!('\u{1}' <= trimmed[i] <= '\u{7f}'));
            }
            return Err(ClientError::ParseError(ParseError::InvalidFormat));
        }
        proof {
            assert(crate::text::all_text(ascii_bytes(trimmed)));
            assert(chars_wf(trimmed)) by {
                assert forall|i: int| 0 <= i < trimmed.len() implies '\u{1}'
                    <= #[trigger] trimmed[i] <= '\u{7f}' by {
                    assert(crate::text::is_text_byte(ascii_bytes(trimmed)[i]));
                    assert(trimmed[i] == message@[i]);
                    assert(message@[i] <= '\u{7f}');
                }
            }
            crate::text::lemma_ascii_bytes_of_str(trimmed);
        }
        let body = crate::text::string_from_ascii(crate::text::slice_range(b, 0, end));
        proof {
            assert(body@ == trimmed);
        }
        let req = Request {
            addr: String::new(),
            version: Version::CHAT10,
            method: Method::Send,
            value: body,
            custom: StrMap::new(),
            varmap: Varmap::new(),
        };
        proof {
            assert(req.spec_model().custom =~= Seq::<(Seq<char>, Seq<char>)>::empty());
        }
        match req.as_bytes() {
            Ok(f) => Ok(f),
            Err(_) => Err(ClientError::ParseError(ParseError::InvalidFormat)),
        }
    }
}

/// A character off the ASCII range survives the newline trim.
proof fn lemma_trim_in(s: Seq<char>, i: int)
    requires
        0 <= i < s.len(),
        !('\0' <= s[i] && s[i] <= '\u{7f}'),
    ensures
        !chars_wf(trim_trailing_nl(s)),
    decreases s.len(),
{
    if s.len() > 0 && s[s.len() - 1] == '\n' {
        if i < s.len() - 1 {
            lemma_trim_in(s.drop_last(), i);
        }
    } else {
        assert(trim_trailing_nl(s) == s);
        assert(!('\u{1}' <= s[i] <= '\u{7f}'));
    }
}

} // verus!
