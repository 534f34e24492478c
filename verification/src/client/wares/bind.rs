//! Binding a name: the request text and the token in the reply.

use vstd::prelude::*;
use crate::client::ClientError;
use crate::request::{w_bind, w_method, w_name, w_version_line};
use crate::response::Response;
use crate::text::{
    all_word, ascii_bytes, ascii_str, chars_wf, join_lines, render_kv_bare, GT, LT, NL,
};

verus! {

/// The text of a bind request: the name travels as a bare word.
pub open spec fn spec_bind_text(name: Seq<char>) -> Seq<u8> {
    join_lines(
        seq![
            w_version_line(),
            render_kv_bare(w_method(), w_bind()),
            render_kv_bare(w_name(), ascii_bytes(name)),
        ],
    )
}

/// Builds bind requests and takes the token out of the reply.
#[derive(Debug)]
pub struct DefaultBind;

impl DefaultBind {
    /// The bind request for a name.  A name that is not a bare word
    /// cannot travel and is refused.
    pub fn request_text(&self, name: &String) -> (r: Result<String, ClientError>)
        ensures
            match r {
                Ok(s) => chars_wf(name@) && name@.len() > 0 && all_word(ascii_bytes(name@)) && s@
                    == ascii_str(spec_bind_text(name@)),
                Err(e) => (!chars_wf(name@) || name@.len() == 0 || !all_word(ascii_bytes(name@)))
                    && e matches ClientError::ParseError(crate::request::ParseError::InvalidFormat),
            },
    {
        if !check_word_string(name) {
            return Err(ClientError::ParseError(crate::request::ParseError::InvalidFormat));
        }
        proof {
            lemma_word_text(ascii_bytes(name@));
        }
        let mut out: Vec<u8> = Vec::new();
        out.push(LT);
        out.push(0x43);
        out.push(0x48);
        out.push(0x41);
        out.push(0x54);
        out.push(0x20);
        out.push(0x5c);
        out.push(0x20);
        out.push(0x31);
        out.push(0x2e);
        out.push(0x30);
        out.push(GT);
        out.push(NL);
        out.push(LT);
        let mkey = crate::request::method_key_str();
        crate::text::push_string_bytes(&mut out, &mkey);
        out.push(0x40);
        let bname = crate::request::Method::Bind.to_str();
        crate::text::push_str_bytes(&mut out, bname);
        out.push(GT);
        out.push(NL);
        out.push(LT);
        let nkey = crate::request::Method::Bind.value_key_str();
        crate::text::push_string_bytes(&mut out, &nkey);
        out.push(0x40);
        crate::text::push_string_bytes(&mut out, name);
        out.push(GT);
        proof {
            crate::request::lemma_value_keys_text();
            crate::text::lemma_ascii_str_of_bytes(w_method());
            crate::text::lemma_ascii_str_of_bytes(w_bind());
            crate::text::lemma_ascii_str_of_bytes(w_name());
            let l0 = w_version_line();
            let l1 = render_kv_bare(w_method(), w_bind());
            let l2 = render_kv_bare(w_name(), ascii_bytes(name@));
            assert(out@ =~= l0 + seq![NL] + l1 + seq![NL] + l2);
            assert(join_lines(seq![l2]) == l2);
            assert(seq![l1, l2].drop_first() =~= seq![l2]);
            assert(join_lines(seq![l1, l2]) =~= l1 + seq![NL] + l2);
            assert(seq![l0, l1, l2].drop_first() =~= seq![l1, l2]);
            assert(join_lines(seq![l0, l1, l2]) =~= l0 + seq![NL] + join_lines(seq![l1, l2]));
            assert(out@ =~= spec_bind_text(name@));
            assert(crate::text::all_text(out@)) by {
                crate::text::lemma_render_kv_bare_clean(w_method(), w_bind());
                crate::text::lemma_render_kv_bare_clean(w_name(), ascii_bytes(name@));
                crate::text::lemma_join_lines_text(seq![l0, l1, l2]);
            }
        }
        Ok(crate::text::string_from_ascii(out.as_slice()))
    }

    /// Takes the token out of a bind reply; a reply without one has
    /// nothing to bind.
    pub fn extract_token(&self, resp: Response) -> (r: Result<String, ClientError>)
        ensures
            match r {
                Ok(t) => resp.token is Some && t@ == resp.token->0@,
                Err(e) => resp.token is None && (e matches ClientError::MissingToken),
            },
    {
        match resp.token {
            Some(t) => Ok(t),
            None => Err(ClientError::MissingToken),
        }
    }
}

/// True of a string that can travel as a bare word.
pub(crate) fn check_word_string(s: &String) -> (r: bool)
    ensures
        r == (chars_wf(s@) && s@.len() > 0 && all_word(ascii_bytes(s@))),
{
    if !s.as_str().is_ascii() {
        proof {
            let i = choose|i: int|
                0 <= i < s@.len() && !('\0' <= #[trigger] s@[i] && s@[i] <= '\u{7f}');
            assert(!('\u{1}' <= s@[i] <= '\u{7f}'));
        }
        return false;
    }
    let t = s.as_str();
    proof {
        broadcast use vstd::string::is_ascii_spec_bytes;

        assert(vstd::string::is_ascii(t));
        assert(vstd::string::StringSliceAdditionalSpecFns::spec_bytes(t) =~= ascii_bytes(s@));
    }
    let b = t.as_bytes();
    let r = b.len() > 0 && crate::text::check_all_word(b, 0, b.len());
    proof {
        assert(b@.subrange(0, b@.len() as int) =~= ascii_bytes(s@));
        if r {
            assert forall|i: int| 0 <= i < s@.len() implies '\u{1}' <= #[trigger] s@[i]
                <= '\u{7f}' by {
                assert(crate::text::is_word_byte(ascii_bytes(s@)[i]));
                assert(s@[i] <= '\u{7f}');
            }
        }
    }
    r
}

/// Word bytes are text bytes.
pub(crate) proof fn lemma_word_text(v: Seq<u8>)
    requires
        all_word(v),
    ensures
        crate::text::all_text(v),
{
    assert forall|i: int| 0 <= i < v.len() implies crate::text::is_text_byte(#[trigger] v[i]) by {
        assert(crate::text::is_word_byte(v[i]));
    }
}

} // verus!
