//! Byte-level text model shared by the request and response codecs.
//!
//! Frames carry ASCII text padded with trailing zero bytes.  The
//! specifications here fix what counts as a key, a bare word and a quoted
//! value, how a frame's text is recovered from its bytes, and how text is
//! split into lines.  Executable scanners are proved against these
//! specifications.

use vstd::prelude::*;

verus! {

pub const NL: u8 = 0x0a;
pub const QUOTE: u8 = 0x27;
pub const LT: u8 = 0x3c;
pub const GT: u8 = 0x3e;
pub const AT: u8 = 0x40;

/// ASCII letter, the only bytes allowed in a header key.
pub open spec fn is_alpha_byte(b: u8) -> bool {
    (0x41 <= b <= 0x5a) || (0x61 <= b <= 0x7a)
}

/// ASCII decimal digit.
pub open spec fn is_digit_byte(b: u8) -> bool {
    0x30 <= b <= 0x39
}

/// Word byte: letter, digit or underscore; the bytes of a bare value.
pub open spec fn is_word_byte(b: u8) -> bool {
    is_alpha_byte(b) || is_digit_byte(b) || b == 0x5f
}

/// A byte that may appear in frame text at all: ASCII, not NUL.
pub open spec fn is_text_byte(b: u8) -> bool {
    1 <= b <= 0x7f
}

/// A byte allowed inside a single-quoted value: text, no quote, no newline.
pub open spec fn is_quoted_byte(b: u8) -> bool {
    is_text_byte(b) && b != QUOTE && b != NL
}

pub open spec fn all_text(v: Seq<u8>) -> bool {
    forall|i: int| 0 <= i < v.len() ==> is_text_byte(#[trigger] v[i])
}

pub open spec fn all_alpha(v: Seq<u8>) -> bool {
    forall|i: int| 0 <= i < v.len() ==> is_alpha_byte(#[trigger] v[i])
}

pub open spec fn all_word(v: Seq<u8>) -> bool {
    forall|i: int| 0 <= i < v.len() ==> is_word_byte(#[trigger] v[i])
}

pub open spec fn all_quoted(v: Seq<u8>) -> bool {
    forall|i: int| 0 <= i < v.len() ==> is_quoted_byte(#[trigger] v[i])
}

/// The characters denoted by a sequence of ASCII bytes.
pub open spec fn ascii_str(v: Seq<u8>) -> Seq<char> {
    Seq::new(v.len(), |i: int| v[i] as char)
}

/// The bytes of a sequence of ASCII characters.
pub open spec fn ascii_bytes(s: Seq<char>) -> Seq<u8> {
    Seq::new(s.len(), |i: int| s[i] as u8)
}

/// Characters a library string may hold: ASCII, not NUL.
pub open spec fn chars_wf(s: Seq<char>) -> bool {
    forall|i: int| 0 <= i < s.len() ==> '\u{1}' <= #[trigger] s[i] <= '\u{7f}'
}

pub proof fn lemma_ascii_str_of_bytes(v: Seq<u8>)
    requires
        all_text(v),
    ensures
        chars_wf(ascii_str(v)),
        ascii_bytes(ascii_str(v)) =~= v,
{
}

pub proof fn lemma_ascii_bytes_of_str(s: Seq<char>)
    requires
        chars_wf(s),
    ensures
        all_text(ascii_bytes(s)),
        ascii_str(ascii_bytes(s)) =~= s,
{
}

/// Text bytes and their character readings match up one to one.
pub proof fn lemma_ascii_str_injective(a: Seq<u8>, b: Seq<u8>)
    requires
        all_text(a),
        all_text(b),
    ensures
        (ascii_str(a) == ascii_str(b)) <==> (a == b),
{
    if ascii_str(a) == ascii_str(b) {
        lemma_ascii_str_of_bytes(a);
        lemma_ascii_str_of_bytes(b);
    }
}

/// A frame: text in front, zero bytes behind.
pub open spec fn zero_pad(v: Seq<u8>) -> Seq<u8> {
    v + Seq::new((512 - v.len()) as nat, |i: int| 0u8)
}

/// Lays text into a fresh frame, the tail zero-filled.
pub fn pack_frame(out: &[u8]) -> (frame: [u8; 512])
    requires
        out@.len() <= 512,
    ensures
        frame@ == zero_pad(out@),
{
    let mut frame: [u8; 512] = vstd::array::array_fill_for_copy_types(0u8);
    let mut i: usize = 0;
    while i < out.len()
        invariant
            out@.len() <= 512,
            i <= out@.len(),
            frame@.len() == 512,
            forall|j: int| 0 <= j < i ==> frame@[j] == out@[j],
            forall|j: int| i <= j < 512 ==> frame@[j] == 0,
        decreases out@.len() - i,
    {
        frame[i] = out[i];
        i += 1;
    }
    proof {
        assert(frame@ =~= zero_pad(out@));
    }
    frame
}

/// Relies on String::push: appends exactly the given character.
#[verifier::external_body]
fn push_char(s: &mut String, c: char)
    ensures
        final(s)@ == old(s)@.push(c),
{
    s.push(c);
}

/// Builds the string spelled by a sequence of ASCII text bytes.
pub fn string_from_ascii(v: &[u8]) -> (s: String)
    requires
        all_text(v@),
    ensures
        s@ == ascii_str(v@),
        chars_wf(s@),
{
    let mut s = String::new();
    let mut i: usize = 0;
    while i < v.len()
        invariant
            all_text(v@),
            i <= v@.len(),
            s@ =~= ascii_str(v@).subrange(0, i as int),
        decreases v@.len() - i,
    {
        let b = v[i];
        push_char(&mut s, b as char);
        i += 1;
        proof {
            assert(s@ =~= ascii_str(v@).subrange(0, i as int));
        }
    }
    proof {
        assert(s@ =~= ascii_str(v@));
        lemma_ascii_str_of_bytes(v@);
    }
    s
}

/// The bytes of a well-formed library string.
pub fn string_ascii_bytes<'a>(s: &'a String) -> (b: &'a [u8])
    requires
        chars_wf(s@),
    ensures
        b@ == ascii_bytes(s@),
{
    let t = s.as_str();
    proof {
        broadcast use vstd::string::is_ascii_spec_bytes;

        assert(vstd::string::is_ascii(t));
        assert(vstd::string::StringSliceAdditionalSpecFns::spec_bytes(t) =~= ascii_bytes(s@));
    }
    let r = t.as_bytes();
    r
}

/// Text of a frame: the bytes with the zero-filled tail removed.
pub open spec fn trim_zeros(v: Seq<u8>) -> Seq<u8>
    decreases v.len(),
{
    if v.len() == 0 {
        v
    } else if v[v.len() - 1] == 0 {
        trim_zeros(v.drop_last())
    } else {
        v
    }
}

pub proof fn lemma_trim_zeros_split(v: Seq<u8>, end: int)
    requires
        0 <= end <= v.len(),
        end == 0 || v[end - 1] != 0,
        forall|i: int| end <= i < v.len() ==> v[i] == 0,
    ensures
        trim_zeros(v) =~= v.subrange(0, end),
    decreases v.len(),
{
    if v.len() == 0 {
    } else if v[v.len() - 1] == 0 {
        assert(end < v.len());
        lemma_trim_zeros_split(v.drop_last(), end);
    } else {
        assert(end == v.len());
    }
}

/// Padding text with zero bytes up to any frame size leaves the text intact,
/// as long as the text does not itself end in a zero byte.
pub proof fn lemma_trim_of_padded(t: Seq<u8>, pad: Seq<u8>)
    requires
        t.len() == 0 || t[t.len() - 1] != 0,
        forall|i: int| 0 <= i < pad.len() ==> pad[i] == 0,
    ensures
        trim_zeros(t + pad) =~= t,
{
    lemma_trim_zeros_split(t + pad, t.len() as int);
    assert((t + pad).subrange(0, t.len() as int) =~= t);
}

/// Index of the end of the frame text: every byte from it on is zero and
/// the byte before it, if any, is not.
pub fn text_end(frame: &[u8; 512]) -> (end: usize)
    ensures
        end <= 512,
        trim_zeros(frame@) == frame@.subrange(0, end as int),
        forall|i: int| end <= i < 512 ==> frame@[i] == 0,
        end == 0 || frame@[end - 1] != 0,
{
    let mut end: usize = 512;
    while end > 0 && frame[end - 1] == 0
        invariant
            end <= 512,
            forall|i: int| end <= i < 512 ==> frame@[i] == 0,
        decreases end,
    {
        end -= 1;
    }
    proof {
        lemma_trim_zeros_split(frame@, end as int);
    }
    end
}

/// First newline at or after `pos`, or the end of the text.
pub open spec fn line_end(v: Seq<u8>, pos: int) -> int
    decreases v.len() - pos,
{
    if pos < 0 || pos >= v.len() {
        v.len() as int
    } else if v[pos] == NL {
        pos
    } else {
        line_end(v, pos + 1)
    }
}

pub proof fn lemma_line_end(v: Seq<u8>, pos: int)
    requires
        0 <= pos <= v.len(),
    ensures
        pos <= line_end(v, pos) <= v.len(),
        line_end(v, pos) < v.len() ==> v[line_end(v, pos)] == NL,
        forall|i: int| pos <= i < line_end(v, pos) ==> v[i] != NL,
    decreases v.len() - pos,
{
    if pos < v.len() && v[pos] != NL {
        lemma_line_end(v, pos + 1);
    }
}

/// The lines of the text from `pos` on, in the manner of a line iterator:
/// the final line has no trailing newline, and text ending in a newline has
/// no empty last line.
pub open spec fn lines_from(v: Seq<u8>, pos: int) -> Seq<Seq<u8>>
    decreases v.len() - pos,
    via lines_from_decreases
{
    if pos < 0 || pos >= v.len() {
        seq![]
    } else {
        let e = line_end(v, pos);
        if e >= v.len() {
            seq![v.subrange(pos, v.len() as int)]
        } else {
            seq![v.subrange(pos, e)] + lines_from(v, e + 1)
        }
    }
}

#[via_fn]
proof fn lines_from_decreases(v: Seq<u8>, pos: int) {
    if 0 <= pos < v.len() {
        lemma_line_end(v, pos);
    }
}

pub open spec fn split_lines(v: Seq<u8>) -> Seq<Seq<u8>> {
    lines_from(v, 0)
}

/// Text assembled from lines, one newline between each pair.
pub open spec fn join_lines(lines: Seq<Seq<u8>>) -> Seq<u8>
    decreases lines.len(),
{
    if lines.len() == 0 {
        seq![]
    } else if lines.len() == 1 {
        lines[0]
    } else {
        lines[0] + seq![NL] + join_lines(lines.drop_first())
    }
}

pub open spec fn lines_wf(lines: Seq<Seq<u8>>) -> bool {
    forall|i: int|
        0 <= i < lines.len() ==> (#[trigger] lines[i]).len() > 0 && all_text(lines[i]) && forall|
            j: int,
        | 0 <= j < lines[i].len() ==> lines[i][j] != NL
}

proof fn lemma_line_end_of_prefix(l: Seq<u8>, rest: Seq<u8>)
    requires
        forall|j: int| 0 <= j < l.len() ==> l[j] != NL,
        rest.len() == 0 || rest[0] == NL,
    ensures
        line_end(l + rest, 0) == if rest.len() == 0 {
            l.len() as int
        } else {
            l.len() as int
        },
{
    let v = l + rest;
    lemma_line_end(v, 0);
    let e = line_end(v, 0);
    if e < l.len() {
        assert(v[e] == l[e]);
        assert(false);
    }
    if rest.len() == 0 {
        assert(e == v.len());
    } else {
        assert(v[l.len() as int] == rest[0]);
        if e > l.len() {
            assert(false);
        }
    }
}

/// Splitting joined lines recovers the lines, provided each line is
/// nonempty and newline-free.
pub proof fn lemma_split_of_joined(lines: Seq<Seq<u8>>)
    requires
        lines.len() > 0,
        forall|i: int| 0 <= i < lines.len() ==> (#[trigger] lines[i]).len() > 0,
        forall|i: int, j: int|
            0 <= i < lines.len() && 0 <= j < lines[i].len() ==> #[trigger] lines[i][j] != NL,
    ensures
        split_lines(join_lines(lines)) =~= lines,
    decreases lines.len(),
{
    let v = join_lines(lines);
    if lines.len() == 1 {
        lemma_line_end_of_prefix(lines[0], seq![]);
        assert(lines[0] + seq![] =~= lines[0]);
        assert(line_end(v, 0) == v.len());
        assert(v.subrange(0, v.len() as int) =~= lines[0]);
        assert(split_lines(v) =~= lines);
    } else {
        let rest = seq![NL] + join_lines(lines.drop_first());
        assert(v =~= lines[0] + rest);
        lemma_line_end_of_prefix(lines[0], rest);
        let e = line_end(v, 0);
        assert(e == lines[0].len());
        assert(e < v.len());
        assert(v.subrange(0, e) =~= lines[0]);
        assert(v.subrange(e + 1, v.len() as int) =~= join_lines(lines.drop_first()));
        lemma_split_of_joined(lines.drop_first());
        assert(lines_from(v, 0) =~= seq![v.subrange(0, e)] + lines_from(v, e + 1));
        lemma_lines_from_is_split(v, e + 1);
        assert(split_lines(v) =~= seq![lines[0]] + split_lines(join_lines(lines.drop_first())));
        assert(seq![lines[0]] + lines.drop_first() =~= lines);
    }
}

/// The lines of a suffix equal `lines_from` at that offset.
proof fn lemma_lines_from_is_split(v: Seq<u8>, pos: int)
    requires
        0 <= pos <= v.len(),
    ensures
        lines_from(v, pos) =~= split_lines(v.subrange(pos, v.len() as int)),
{
    lemma_lines_shift(v, pos, pos);
}

/// The lines of a suffix, read from any offset within it, are the lines of
/// the whole read from the corresponding offset.
proof fn lemma_lines_shift(v: Seq<u8>, pos: int, q: int)
    requires
        0 <= pos <= q <= v.len(),
    ensures
        lines_from(v.subrange(pos, v.len() as int), q - pos) =~= lines_from(v, q),
    decreases v.len() - q,
{
    let w = v.subrange(pos, v.len() as int);
    if q >= v.len() {
    } else {
        lemma_line_end_shift(v, pos, q);
        let e = line_end(v, q);
        lemma_line_end(v, q);
        if e >= v.len() {
            assert(w.subrange(q - pos, w.len() as int) =~= v.subrange(q, v.len() as int));
        } else {
            lemma_lines_shift(v, pos, e + 1);
            assert(w.subrange(q - pos, e - pos) =~= v.subrange(q, e));
        }
    }
}

/// `line_end` looks the same from a suffix as from the whole.
proof fn lemma_line_end_shift(v: Seq<u8>, pos: int, q: int)
    requires
        0 <= pos <= q <= v.len(),
    ensures
        line_end(v.subrange(pos, v.len() as int), q - pos) == line_end(v, q) - pos,
{
    let w = v.subrange(pos, v.len() as int);
    lemma_line_end(v, q);
    lemma_line_end(w, q - pos);
    let e = line_end(v, q);
    let f = line_end(w, q - pos);
    if f + pos < e {
        assert(v[f + pos] == w[f]);
        assert(false);
    }
    if e - pos < f {
        assert(w[e - pos] == v[e]);
        assert(false);
    }
}

/// First non-letter at or after `i`, or the end of the line.
pub open spec fn alpha_run(v: Seq<u8>, i: int) -> int
    decreases v.len() - i,
{
    if i < 0 || i >= v.len() {
        v.len() as int
    } else if !is_alpha_byte(v[i]) {
        i
    } else {
        alpha_run(v, i + 1)
    }
}

pub proof fn lemma_alpha_run(v: Seq<u8>, i: int)
    requires
        0 <= i <= v.len(),
    ensures
        i <= alpha_run(v, i) <= v.len(),
        alpha_run(v, i) < v.len() ==> !is_alpha_byte(v[alpha_run(v, i)]),
        forall|j: int| i <= j < alpha_run(v, i) ==> is_alpha_byte(v[j]),
    decreases v.len() - i,
{
    if i < v.len() && is_alpha_byte(v[i]) {
        lemma_alpha_run(v, i + 1);
    }
}

/// `alpha_run` lands exactly on the first non-letter.
pub proof fn lemma_alpha_run_exact(v: Seq<u8>, i: int, j: int)
    requires
        0 <= i <= j < v.len(),
        forall|m: int| i <= m < j ==> is_alpha_byte(v[m]),
        !is_alpha_byte(v[j]),
    ensures
        alpha_run(v, i) == j,
    decreases j - i,
{
    if i < j {
        lemma_alpha_run_exact(v, i + 1, j);
    }
}

/// A key/value line: `<KEY@VALUE>` with KEY one or more letters and VALUE
/// either a bare word or a single-quoted run free of quotes.  The result
/// holds the key and the value with its quotes stripped.
pub open spec fn spec_parse_kv(line: Seq<u8>) -> Option<(Seq<u8>, Seq<u8>)> {
    let n = line.len() as int;
    if n < 2 || line[0] != LT || line[n - 1] != GT {
        None
    } else {
        let k = alpha_run(line, 1);
        if k <= 1 || k >= n - 1 || line[k] != AT {
            None
        } else {
            let raw = line.subrange(k + 1, n - 1);
            let key = line.subrange(1, k);
            if raw.len() == 0 {
                None
            } else if raw[0] == QUOTE {
                if raw.len() >= 3 && raw[raw.len() - 1] == QUOTE && all_quoted(
                    raw.subrange(1, raw.len() - 1),
                ) {
                    Some((key, raw.subrange(1, raw.len() - 1)))
                } else {
                    None
                }
            } else if all_word(raw) {
                Some((key, raw))
            } else {
                None
            }
        }
    }
}

/// A key/value line as the serializer writes it: the value single-quoted.
pub open spec fn render_kv_quoted(k: Seq<u8>, v: Seq<u8>) -> Seq<u8> {
    seq![LT] + k + seq![AT, QUOTE] + v + seq![QUOTE, GT]
}

/// A key/value line with a bare value.
pub open spec fn render_kv_bare(k: Seq<u8>, v: Seq<u8>) -> Seq<u8> {
    seq![LT] + k + seq![AT] + v + seq![GT]
}

/// A well-formed header key: one or more letters.
pub open spec fn key_wf(k: Seq<u8>) -> bool {
    k.len() > 0 && all_alpha(k)
}

/// A well-formed header value: nonempty, quotable.
pub open spec fn value_wf(v: Seq<u8>) -> bool {
    v.len() > 0 && all_quoted(v)
}

/// Parsing a quoted rendering recovers the key and the value.
pub proof fn lemma_parse_of_rendered_kv(k: Seq<u8>, v: Seq<u8>)
    requires
        key_wf(k),
        value_wf(v),
    ensures
        spec_parse_kv(render_kv_quoted(k, v)) == Some((k, v)),
{
    let line = render_kv_quoted(k, v);
    let n = line.len() as int;
    assert(line[0] == LT);
    assert(line[n - 1] == GT);
    assert(forall|m: int| 1 <= m < k.len() + 1 ==> is_alpha_byte(#[trigger] line[m]));
    assert(line[k.len() + 1 as int] == AT);
    lemma_alpha_run_exact(line, 1, k.len() + 1 as int);
    let kk = alpha_run(line, 1);
    assert(kk == k.len() + 1);
    let raw = line.subrange(kk + 1, n - 1);
    assert(raw =~= seq![QUOTE] + v + seq![QUOTE]);
    assert(raw[0] == QUOTE);
    assert(raw[raw.len() - 1] == QUOTE);
    assert(raw.subrange(1, raw.len() - 1) =~= v);
    assert(line.subrange(1, kk) =~= k);
}

/// Parsing a bare rendering recovers the key and the value.
pub proof fn lemma_parse_of_rendered_kv_bare(k: Seq<u8>, v: Seq<u8>)
    requires
        key_wf(k),
        v.len() > 0,
        all_word(v),
    ensures
        spec_parse_kv(render_kv_bare(k, v)) == Some((k, v)),
{
    let line = render_kv_bare(k, v);
    let n = line.len() as int;
    assert(line[0] == LT);
    assert(line[n - 1] == GT);
    assert(forall|m: int| 1 <= m < k.len() + 1 ==> is_alpha_byte(#[trigger] line[m]));
    assert(line[k.len() + 1 as int] == AT);
    lemma_alpha_run_exact(line, 1, k.len() + 1 as int);
    let kk = alpha_run(line, 1);
    let raw = line.subrange(kk + 1, n - 1);
    assert(raw =~= v);
    assert(raw[0] != QUOTE);
    assert(line.subrange(1, kk) =~= k);
}

/// A rendered quoted line is nonempty text without newlines.
pub proof fn lemma_render_kv_quoted_clean(k: Seq<u8>, v: Seq<u8>)
    requires
        key_wf(k),
        value_wf(v),
    ensures
        render_kv_quoted(k, v).len() > 0,
        all_text(render_kv_quoted(k, v)),
        forall|j: int|
            0 <= j < render_kv_quoted(k, v).len() ==> #[trigger] render_kv_quoted(k, v)[j] != NL,
{
    let line = render_kv_quoted(k, v);
    assert forall|j: int| 0 <= j < line.len() implies is_text_byte(#[trigger] line[j]) && line[j]
        != NL by {
        let n = k.len() as int;
        if j == 0 {
        } else if j <= n {
            assert(line[j] == k[j - 1]);
            assert(is_alpha_byte(k[j - 1]));
        } else if j == n + 1 || j == n + 2 {
        } else if j <= n + 2 + v.len() {
            assert(line[j] == v[j - n - 3]);
            assert(is_quoted_byte(v[j - n - 3]));
        } else {
        }
    }
}

/// A rendered bare line is nonempty text without newlines.
pub proof fn lemma_render_kv_bare_clean(k: Seq<u8>, v: Seq<u8>)
    requires
        key_wf(k),
        v.len() > 0,
        all_word(v),
    ensures
        render_kv_bare(k, v).len() > 0,
        all_text(render_kv_bare(k, v)),
        forall|j: int|
            0 <= j < render_kv_bare(k, v).len() ==> #[trigger] render_kv_bare(k, v)[j] != NL,
{
    let line = render_kv_bare(k, v);
    assert forall|j: int| 0 <= j < line.len() implies is_text_byte(#[trigger] line[j]) && line[j]
        != NL by {
        let n = k.len() as int;
        if j == 0 {
        } else if j <= n {
            assert(line[j] == k[j - 1]);
            assert(is_alpha_byte(k[j - 1]));
        } else if j == n + 1 {
        } else if j <= n + 1 + v.len() {
            assert(line[j] == v[j - n - 2]);
            assert(is_word_byte(v[j - n - 2]));
        } else {
        }
    }
}

/// Whatever parses out of a key/value line is well formed and newline-free.
pub proof fn lemma_parsed_kv_wf(line: Seq<u8>)
    requires
        spec_parse_kv(line) is Some,
    ensures
        key_wf(spec_parse_kv(line)->Some_0.0),
        value_wf(spec_parse_kv(line)->Some_0.1),
{
    let n = line.len() as int;
    let k = alpha_run(line, 1);
    lemma_alpha_run(line, 1);
    let key = line.subrange(1, k);
    assert(all_alpha(key));
    let raw = line.subrange(k + 1, n - 1);
    if raw[0] == QUOTE {
    } else {
        let v = raw;
        assert(all_word(v));
        assert forall|i: int| 0 <= i < v.len() implies is_quoted_byte(#[trigger] v[i]) by {
            assert(is_word_byte(v[i]));
        }
    }
}

/// First newline at or after `pos`, or the end of the slice.
pub fn find_line_end(v: &[u8], pos: usize) -> (e: usize)
    requires
        pos <= v@.len(),
    ensures
        e == line_end(v@, pos as int),
        pos <= e <= v@.len(),
        e < v@.len() ==> v@[e as int] == NL,
        forall|i: int| pos <= i < e ==> v@[i] != NL,
{
    proof {
        lemma_line_end(v@, pos as int);
    }
    let mut i: usize = pos;
    while i < v.len() && v[i] != NL
        invariant
            pos <= i <= v@.len(),
            line_end(v@, pos as int) == line_end(v@, i as int),
            forall|j: int| pos <= j < i ==> v@[j] != NL,
        decreases v@.len() - i,
    {
        i += 1;
    }
    proof {
        lemma_line_end(v@, i as int);
    }
    i
}

pub fn byte_is_alpha(b: u8) -> (r: bool)
    ensures
        r == is_alpha_byte(b),
{
    (0x41 <= b && b <= 0x5a) || (0x61 <= b && b <= 0x7a)
}

pub fn byte_is_digit(b: u8) -> (r: bool)
    ensures
        r == is_digit_byte(b),
{
    0x30 <= b && b <= 0x39
}

pub fn byte_is_word(b: u8) -> (r: bool)
    ensures
        r == is_word_byte(b),
{
    byte_is_alpha(b) || byte_is_digit(b) || b == 0x5f
}

pub fn byte_is_text(b: u8) -> (r: bool)
    ensures
        r == is_text_byte(b),
{
    1 <= b && b <= 0x7f
}

pub fn byte_is_quoted(b: u8) -> (r: bool)
    ensures
        r == is_quoted_byte(b),
{
    byte_is_text(b) && b != QUOTE && b != NL
}

/// First non-letter at or after `i`, or the end of the slice.
pub fn scan_alpha(v: &[u8], i: usize) -> (r: usize)
    requires
        i <= v@.len(),
    ensures
        r == alpha_run(v@, i as int),
        i <= r <= v@.len(),
{
    proof {
        lemma_alpha_run(v@, i as int);
    }
    let mut j: usize = i;
    while j < v.len() && byte_is_alpha(v[j])
        invariant
            i <= j <= v@.len(),
            alpha_run(v@, i as int) == alpha_run(v@, j as int),
        decreases v@.len() - j,
    {
        j += 1;
    }
    j
}

pub fn check_all_word(v: &[u8], from: usize, to: usize) -> (r: bool)
    requires
        from <= to <= v@.len(),
    ensures
        r == all_word(v@.subrange(from as int, to as int)),
{
    let mut j: usize = from;
    while j < to && byte_is_word(v[j])
        invariant
            from <= j <= to <= v@.len(),
            forall|m: int| from <= m < j ==> is_word_byte(#[trigger] v@[m]),
        decreases to - j,
    {
        j += 1;
    }
    let ghost w = v@.subrange(from as int, to as int);
    if j == to {
        proof {
            assert forall|m: int| 0 <= m < w.len() implies is_word_byte(#[trigger] w[m]) by {
                assert(w[m] == v@[from + m]);
            }
        }
        true
    } else {
        proof {
            assert(w[j - from] == v@[j as int]);
        }
        false
    }
}

pub fn check_all_text(v: &[u8], from: usize, to: usize) -> (r: bool)
    requires
        from <= to <= v@.len(),
    ensures
        r == all_text(v@.subrange(from as int, to as int)),
{
    let mut j: usize = from;
    while j < to && byte_is_text(v[j])
        invariant
            from <= j <= to <= v@.len(),
            forall|m: int| from <= m < j ==> is_text_byte(#[trigger] v@[m]),
        decreases to - j,
    {
        j += 1;
    }
    let ghost w = v@.subrange(from as int, to as int);
    if j == to {
        proof {
            assert forall|m: int| 0 <= m < w.len() implies is_text_byte(#[trigger] w[m]) by {
                assert(w[m] == v@[from + m]);
            }
        }
        true
    } else {
        proof {
            assert(w[j - from] == v@[j as int]);
        }
        false
    }
}

pub fn check_all_quoted(v: &[u8], from: usize, to: usize) -> (r: bool)
    requires
        from <= to <= v@.len(),
    ensures
        r == all_quoted(v@.subrange(from as int, to as int)),
{
    let mut j: usize = from;
    while j < to && byte_is_quoted(v[j])
        invariant
            from <= j <= to <= v@.len(),
            forall|m: int| from <= m < j ==> is_quoted_byte(#[trigger] v@[m]),
        decreases to - j,
    {
        j += 1;
    }
    let ghost w = v@.subrange(from as int, to as int);
    if j == to {
        proof {
            assert forall|m: int| 0 <= m < w.len() implies is_quoted_byte(#[trigger] w[m]) by {
                assert(w[m] == v@[from + m]);
            }
        }
        true
    } else {
        proof {
            assert(w[j - from] == v@[j as int]);
        }
        false
    }
}

/// Parses one `<KEY@VALUE>` line, returning the key and the unquoted value.
pub fn parse_kv_bytes(line: &[u8]) -> (r: Option<(String, String)>)
    ensures
        match r {
            Some(kv) => {
                &&& spec_parse_kv(line@) is Some
                &&& kv.0@ == ascii_str(spec_parse_kv(line@)->Some_0.0)
                &&& kv.1@ == ascii_str(spec_parse_kv(line@)->Some_0.1)
                &&& chars_wf(kv.0@)
                &&& chars_wf(kv.1@)
            },
            None => spec_parse_kv(line@) is None,
        },
{
    let n = line.len();
    if n < 2 || line[0] != LT || line[n - 1] != GT {
        return None;
    }
    let k = scan_alpha(line, 1);
    if k <= 1 || k >= n - 1 || line[k] != AT {
        return None;
    }
    proof {
        lemma_alpha_run(line@, 1);
    }
    let raw_start = k + 1;
    let raw_end = n - 1;
    let ghost raw = line@.subrange(raw_start as int, raw_end as int);
    if raw_end == raw_start {
        return None;
    }
    proof {
        assert(raw[0] == line@[raw_start as int]);
        assert(raw[raw.len() - 1] == line@[raw_end - 1]);
    }
    let value: String;
    if line[raw_start] == QUOTE {
        if raw_end - raw_start >= 3 && line[raw_end - 1] == QUOTE && check_all_quoted(
            line,
            raw_start + 1,
            raw_end - 1,
        ) {
            proof {
                assert(line@.subrange(raw_start + 1, raw_end - 1) =~= raw.subrange(
                    1,
                    raw.len() - 1,
                ));
                assert(all_text(line@.subrange(raw_start + 1, raw_end - 1)));
            }
            value = string_from_ascii(slice_range(line, raw_start + 1, raw_end - 1));
        } else {
            proof {
                if raw_end - raw_start < 3 {
                } else if line@[raw_end - 1] != QUOTE {
                } else {
                    assert(line@.subrange(raw_start + 1, raw_end - 1) =~= raw.subrange(
                        1,
                        raw.len() - 1,
                    ));
                    assert(!all_quoted(raw.subrange(1, raw.len() - 1)));
                }
            }
            return None;
        }
    } else if check_all_word(line, raw_start, raw_end) {
        proof {
            assert(all_word(raw));
            assert forall|m: int| 0 <= m < raw.len() implies is_text_byte(#[trigger] raw[m]) by {
                assert(is_word_byte(raw[m]));
            }
        }
        value = string_from_ascii(slice_range(line, raw_start, raw_end));
    } else {
        return None;
    }
    let ghost keyb = line@.subrange(1, k as int);
    proof {
        assert(all_alpha(keyb));
        assert forall|m: int| 0 <= m < keyb.len() implies is_text_byte(#[trigger] keyb[m]) by {
            assert(is_alpha_byte(keyb[m]));
        }
    }
    let key = string_from_ascii(slice_range(line, 1, k));
    Some((key, value))
}

/// A subslice by index pair.
pub fn slice_range<'a>(v: &'a [u8], from: usize, to: usize) -> (r: &'a [u8])
    requires
        from <= to <= v@.len(),
    ensures
        r@ == v@.subrange(from as int, to as int),
{
    vstd::slice::slice_subrange(v, from, to)
}

/// Joining one more line appends a newline and the line.
pub proof fn lemma_join_push(lines: Seq<Seq<u8>>, x: Seq<u8>)
    requires
        lines.len() > 0,
    ensures
        join_lines(lines.push(x)) =~= join_lines(lines) + seq![NL] + x,
    decreases lines.len(),
{
    if lines.len() == 1 {
        assert(lines.push(x).drop_first() =~= seq![x]);
        assert(join_lines(seq![x]) == x);
        assert(lines.push(x)[0] == lines[0]);
    } else {
        lemma_join_push(lines.drop_first(), x);
        assert(lines.push(x).drop_first() =~= lines.drop_first().push(x));
        assert(lines.push(x)[0] == lines[0]);
    }
}

/// Joined lines of text are text.
pub proof fn lemma_join_lines_text(lines: Seq<Seq<u8>>)
    requires
        forall|i: int| 0 <= i < lines.len() ==> all_text(#[trigger] lines[i]),
    ensures
        all_text(join_lines(lines)),
    decreases lines.len(),
{
    if lines.len() <= 1 {
    } else {
        lemma_join_lines_text(lines.drop_first());
        let v = join_lines(lines);
        let rest = join_lines(lines.drop_first());
        assert forall|i: int| 0 <= i < v.len() implies is_text_byte(#[trigger] v[i]) by {
            if i < lines[0].len() {
                assert(v[i] == lines[0][i]);
            } else if i == lines[0].len() {
                assert(v[i] == NL);
            } else {
                assert(v[i] == rest[i - lines[0].len() - 1]);
            }
        }
    }
}

/// The bytes of a well-formed string slice.
pub fn str_ascii_bytes<'a>(s: &'a str) -> (b: &'a [u8])
    requires
        chars_wf(s@),
    ensures
        b@ == ascii_bytes(s@),
{
    proof {
        broadcast use vstd::string::is_ascii_spec_bytes;

        assert(vstd::string::is_ascii(s));
        assert(vstd::string::StringSliceAdditionalSpecFns::spec_bytes(s) =~= ascii_bytes(s@));
    }
    s.as_bytes()
}

/// Appends the bytes of a well-formed string slice.
pub fn push_str_bytes(out: &mut Vec<u8>, s: &str)
    requires
        chars_wf(s@),
    ensures
        final(out)@ == old(out)@ + ascii_bytes(s@),
{
    let b = str_ascii_bytes(s);
    let mut i: usize = 0;
    while i < b.len()
        invariant
            i <= b@.len(),
            b@ == ascii_bytes(s@),
            out@ =~= old(out)@ + b@.subrange(0, i as int),
        decreases b@.len() - i,
    {
        out.push(b[i]);
        i += 1;
    }
    proof {
        assert(out@ =~= old(out)@ + ascii_bytes(s@));
    }
}

/// Appends the bytes of a well-formed string.
pub fn push_string_bytes(out: &mut Vec<u8>, s: &String)
    requires
        chars_wf(s@),
    ensures
        final(out)@ == old(out)@ + ascii_bytes(s@),
{
    let b = string_ascii_bytes(s);
    let mut i: usize = 0;
    while i < b.len()
        invariant
            i <= b@.len(),
            b@ == ascii_bytes(s@),
            out@ =~= old(out)@ + b@.subrange(0, i as int),
        decreases b@.len() - i,
    {
        out.push(b[i]);
        i += 1;
    }
    proof {
        assert(out@ =~= old(out)@ + ascii_bytes(s@));
    }
}

/// Appends one `<KEY@'VALUE'>` line image (without the newline).
pub fn push_kv_quoted(out: &mut Vec<u8>, k: &String, v: &String)
    requires
        chars_wf(k@),
        chars_wf(v@),
    ensures
        final(out)@ == old(out)@ + render_kv_quoted(ascii_bytes(k@), ascii_bytes(v@)),
{
    out.push(LT);
    push_string_bytes(out, k);
    out.push(AT);
    out.push(QUOTE);
    push_string_bytes(out, v);
    out.push(QUOTE);
    out.push(GT);
    proof {
        assert(out@ =~= old(out)@ + render_kv_quoted(ascii_bytes(k@), ascii_bytes(v@)));
    }
}

} // verus!
