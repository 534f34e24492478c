//! Calendar timestamps for the `Time` header.
//!
//! A timestamp renders as the nineteen characters `YYYY-MM-DD HH:MM:SS`
//! and parses back from exactly that shape, with real calendar bounds on
//! the fields.  The current UTC time comes from the system clock through
//! one trusted call; everything around it is verified.

use vstd::prelude::*;
use crate::text;

verus! {

#[derive(Clone, Copy, Debug, PartialEq, Eq, Structural)]
pub struct Timestamp {
    pub year: u16,
    pub month: u8,
    pub day: u8,
    pub hour: u8,
    pub minute: u8,
    pub second: u8,
}

pub open spec fn is_leap_year(y: int) -> bool {
    y % 4 == 0 && (y % 100 != 0 || y % 400 == 0)
}

pub open spec fn days_in_month(y: int, m: int) -> int {
    if m == 2 {
        if is_leap_year(y) {
            29
        } else {
            28
        }
    } else if m == 4 || m == 6 || m == 9 || m == 11 {
        30
    } else {
        31
    }
}

impl Timestamp {
    /// A real calendar date and time, with a four-digit year.
    pub open spec fn wf(&self) -> bool {
        &&& self.year <= 9999
        &&& 1 <= self.month <= 12
        &&& 1 <= self.day <= days_in_month(self.year as int, self.month as int)
        &&& self.hour <= 23
        &&& self.minute <= 59
        &&& self.second <= 59
    }
}

/// The two decimal digits of a value below one hundred.
pub open spec fn two_digits(n: int) -> Seq<u8> {
    seq![(0x30 + n / 10) as u8, (0x30 + n % 10) as u8]
}

/// The four decimal digits of a value below ten thousand.
pub open spec fn four_digits(n: int) -> Seq<u8> {
    seq![
        (0x30 + n / 1000) as u8,
        (0x30 + (n / 100) % 10) as u8,
        (0x30 + (n / 10) % 10) as u8,
        (0x30 + n % 10) as u8,
    ]
}

/// The byte image `YYYY-MM-DD HH:MM:SS` of a timestamp.
pub open spec fn spec_render_timestamp(ts: Timestamp) -> Seq<u8> {
    four_digits(ts.year as int) + seq![0x2du8] + two_digits(ts.month as int) + seq![0x2du8]
        + two_digits(ts.day as int) + seq![0x20u8] + two_digits(ts.hour as int) + seq![0x3au8]
        + two_digits(ts.minute as int) + seq![0x3au8] + two_digits(ts.second as int)
}

/// The numeric value of two decimal digit bytes, or nothing.
pub open spec fn spec_two_digit_value(v: Seq<u8>, i: int) -> Option<int> {
    if text::is_digit_byte(v[i]) && text::is_digit_byte(v[i + 1]) {
        Some(10 * (v[i] - 0x30) + (v[i + 1] - 0x30))
    } else {
        None
    }
}

/// A timestamp read back from a nineteen-byte image, checked against the
/// calendar; anything else is nothing.
pub open spec fn spec_parse_timestamp(v: Seq<u8>) -> Option<Timestamp> {
    if v.len() != 19 {
        None
    } else if !(v[4] == 0x2d && v[7] == 0x2d && v[10] == 0x20 && v[13] == 0x3a && v[16] == 0x3a) {
        None
    } else {
        match (
            spec_two_digit_value(v, 0),
            spec_two_digit_value(v, 2),
            spec_two_digit_value(v, 5),
            spec_two_digit_value(v, 8),
            spec_two_digit_value(v, 11),
            spec_two_digit_value(v, 14),
            spec_two_digit_value(v, 17),
        ) {
            (Some(y1), Some(y2), Some(mo), Some(d), Some(h), Some(mi), Some(s)) => {
                let ts = Timestamp {
                    year: (y1 * 100 + y2) as u16,
                    month: mo as u8,
                    day: d as u8,
                    hour: h as u8,
                    minute: mi as u8,
                    second: s as u8,
                };
                if ts.wf() {
                    Some(ts)
                } else {
                    None
                }
            },
            _ => None,
        }
    }
}

fn push_two_digits(out: &mut Vec<u8>, n: u8)
    requires
        n < 100,
    ensures
        final(out)@ == old(out)@ + two_digits(n as int),
{
    out.push(0x30 + n / 10);
    out.push(0x30 + n % 10);
    proof {
        assert(out@ =~= old(out)@ + two_digits(n as int));
    }
}

/// Renders a timestamp as its nineteen `YYYY-MM-DD HH:MM:SS` characters.
pub fn format_timestamp(ts: &Timestamp) -> (s: String)
    requires
        ts.wf(),
    ensures
        s@ == text::ascii_str(spec_render_timestamp(*ts)),
        s@.len() == 19,
        text::chars_wf(s@),
{
    let mut v: Vec<u8> = Vec::new();
    v.push(0x30 + (ts.year / 1000) as u8);
    v.push(0x30 + ((ts.year / 100) % 10) as u8);
    v.push(0x30 + ((ts.year / 10) % 10) as u8);
    v.push(0x30 + (ts.year % 10) as u8);
    v.push(0x2d);
    push_two_digits(&mut v, ts.month);
    v.push(0x2d);
    push_two_digits(&mut v, ts.day);
    v.push(0x20);
    push_two_digits(&mut v, ts.hour);
    v.push(0x3a);
    push_two_digits(&mut v, ts.minute);
    v.push(0x3a);
    push_two_digits(&mut v, ts.second);
    proof {
        assert(v@ =~= spec_render_timestamp(*ts));
        assert(text::all_text(v@));
    }
    text::string_from_ascii(v.as_slice())
}

fn read_two_digits(v: &[u8], i: usize) -> (r: Option<u8>)
    requires
        i + 2 <= v@.len(),
    ensures
        match r {
            Some(n) => spec_two_digit_value(v@, i as int) == Some(n as int) && n < 100,
            None => spec_two_digit_value(v@, i as int) is None,
        },
{
    if text::byte_is_digit(v[i]) && text::byte_is_digit(v[i + 1]) {
        Some(10 * (v[i] - 0x30) + (v[i + 1] - 0x30))
    } else {
        None
    }
}

/// Parses the nineteen-byte `YYYY-MM-DD HH:MM:SS` image of a timestamp.
pub fn parse_timestamp(v: &[u8]) -> (r: Option<Timestamp>)
    ensures
        r == spec_parse_timestamp(v@),
        r is Some ==> r->Some_0.wf(),
{
    if v.len() != 19 {
        return None;
    }
    if !(v[4] == 0x2d && v[7] == 0x2d && v[10] == 0x20 && v[13] == 0x3a && v[16] == 0x3a) {
        return None;
    }
    let y1 = read_two_digits(v, 0);
    let y2 = read_two_digits(v, 2);
    let mo = read_two_digits(v, 5);
    let d = read_two_digits(v, 8);
    let h = read_two_digits(v, 11);
    let mi = read_two_digits(v, 14);
    let s = read_two_digits(v, 17);
    match (y1, y2, mo, d, h, mi, s) {
        (Some(y1), Some(y2), Some(mo), Some(d), Some(h), Some(mi), Some(s)) => {
            let ts = Timestamp {
                year: (y1 as u16) * 100 + (y2 as u16),
                month: mo,
                day: d,
                hour: h,
                minute: mi,
                second: s,
            };
            if timestamp_wf_exec(&ts) {
                Some(ts)
            } else {
                None
            }
        },
        _ => None,
    }
}

fn days_in_month_exec(y: u16, m: u8) -> (r: u8)
    ensures
        r as int == days_in_month(y as int, m as int),
{
    if m == 2 {
        if y % 4 == 0 && (y % 100 != 0 || y % 400 == 0) {
            29
        } else {
            28
        }
    } else if m == 4 || m == 6 || m == 9 || m == 11 {
        30
    } else {
        31
    }
}

fn timestamp_wf_exec(ts: &Timestamp) -> (r: bool)
    ensures
        r == ts.wf(),
{
    ts.year <= 9999 && 1 <= ts.month && ts.month <= 12 && 1 <= ts.day && ts.day
        <= days_in_month_exec(ts.year, ts.month) && ts.hour <= 23 && ts.minute <= 59 && ts.second
        <= 59
}

/// A well-formed timestamp parses back from its own rendering.
pub proof fn lemma_timestamp_round_trip(ts: Timestamp)
    requires
        ts.wf(),
    ensures
        spec_parse_timestamp(spec_render_timestamp(ts)) == Some(ts),
{
    let v = spec_render_timestamp(ts);
    assert(v.len() == 19);
    assert(v[0] == 0x30 + ts.year as int / 1000);
    assert(spec_two_digit_value(v, 0) == Some(ts.year as int / 100)) by {
        assert(v[0] == 0x30 + ts.year as int / 1000);
        assert(v[1] == 0x30 + (ts.year as int / 100) % 10);
        lemma_digit_split_high(ts.year as int);
    }
    assert(spec_two_digit_value(v, 2) == Some(ts.year as int % 100)) by {
        assert(v[2] == 0x30 + (ts.year as int / 10) % 10);
        assert(v[3] == 0x30 + ts.year as int % 10);
        lemma_digit_split_low(ts.year as int);
    }
    assert(spec_two_digit_value(v, 5) == Some(ts.month as int)) by {
        lemma_two_digit_value(ts.month as int);
    }
    assert(spec_two_digit_value(v, 8) == Some(ts.day as int)) by {
        lemma_two_digit_value(ts.day as int);
    }
    assert(spec_two_digit_value(v, 11) == Some(ts.hour as int)) by {
        lemma_two_digit_value(ts.hour as int);
    }
    assert(spec_two_digit_value(v, 14) == Some(ts.minute as int)) by {
        lemma_two_digit_value(ts.minute as int);
    }
    assert(spec_two_digit_value(v, 17) == Some(ts.second as int)) by {
        lemma_two_digit_value(ts.second as int);
    }
    assert((ts.year as int / 100) * 100 + ts.year as int % 100 == ts.year as int) by (nonlinear_arith);
}

/// For `n` below one hundred the two digit bytes recombine to `n`.
proof fn lemma_two_digit_value(n: int)
    requires
        0 <= n < 100,
    ensures
        10 * ((0x30 + n / 10) - 0x30) + ((0x30 + n % 10) - 0x30) == n,
        text::is_digit_byte((0x30 + n / 10) as u8),
        text::is_digit_byte((0x30 + n % 10) as u8),
{
}

/// The first two year digits recombine to the high part of the year.
proof fn lemma_digit_split_high(y: int)
    requires
        0 <= y <= 9999,
    ensures
        10 * ((0x30 + y / 1000) - 0x30) + ((0x30 + (y / 100) % 10) - 0x30) == y / 100,
        text::is_digit_byte((0x30 + y / 1000) as u8),
        text::is_digit_byte((0x30 + (y / 100) % 10) as u8),
{
    assert(10 * (y / 1000) + (y / 100) % 10 == y / 100) by (nonlinear_arith)
        requires
            0 <= y <= 9999,
    ;
}

/// The last two year digits recombine to the year modulo one hundred.
proof fn lemma_digit_split_low(y: int)
    requires
        0 <= y <= 9999,
    ensures
        10 * ((0x30 + (y / 10) % 10) - 0x30) + ((0x30 + y % 10) - 0x30) == y % 100,
        text::is_digit_byte((0x30 + (y / 10) % 10) as u8),
        text::is_digit_byte((0x30 + y % 10) as u8),
{
    assert(10 * ((y / 10) % 10) + y % 10 == y % 100) by (nonlinear_arith)
        requires
            0 <= y <= 9999,
    ;
}

/// Relies on chrono's `Utc::now` and its field accessors: the month is in
/// 1..=12, the day in 1..=31, the hour below 24, minute and second below
/// 60, and the year nonnegative in any era this clock can reach.
#[verifier::external_body]
fn utc_now_fields() -> (r: (i32, u32, u32, u32, u32, u32))
    ensures
        1 <= r.1 <= 12,
        1 <= r.2 <= 31,
        r.3 < 24,
        r.4 < 60,
        r.5 < 60,
{
    let now = chrono::Utc::now();
    (
        chrono::Datelike::year(&now),
        chrono::Datelike::month(&now),
        chrono::Datelike::day(&now),
        chrono::Timelike::hour(&now),
        chrono::Timelike::minute(&now),
        chrono::Timelike::second(&now),
    )
}

/// The current UTC time, pinned into the calendar: fields out of the
/// four-digit era or off the month's length are clamped inward.
pub fn utc_now() -> (ts: Timestamp)
    ensures
        ts.wf(),
{
    let (y, mo, d, h, mi, s) = utc_now_fields();
    let year: u16 = if y < 0 {
        0
    } else if y > 9999 {
        9999
    } else {
        y as u16
    };
    let month: u8 = mo as u8;
    let mut day: u8 = d as u8;
    let limit = days_in_month_exec(year, month);
    if day > limit {
        day = limit;
    }
    Timestamp { year, month, day, hour: h as u8, minute: mi as u8, second: s as u8 }
}

} // verus!
