//! Decorative RGB hint carried in a frame's tail bytes.
//!
//! A client may mark a frame by writing a sentinel byte at positions 507
//! and 511 and the red, green and blue channels in between.  The starting
//! transform strips the mark before text parsing; the ending transform
//! stamps the same five bytes onto the reply.

use vstd::prelude::*;

verus! {

/// Sentinel byte framing the color channels in the frame tail.
pub const COLOR_SENTINEL: u8 = 0x23;

#[derive(Clone, Copy, Debug, PartialEq, Eq, Structural)]
pub struct Color {
    pub red: u8,
    pub green: u8,
    pub blue: u8,
}

/// Lowercase hexadecimal digit of a value below 16.
pub open spec fn hex_digit(n: u8) -> u8 {
    if n < 10 {
        (0x30 + n) as u8
    } else {
        (0x57 + n) as u8
    }
}

/// The six hex digits of a color, two per channel, high digit first.
pub open spec fn spec_color_hex(c: Color) -> Seq<u8> {
    seq![
        hex_digit(c.red / 16),
        hex_digit(c.red % 16),
        hex_digit(c.green / 16),
        hex_digit(c.green % 16),
        hex_digit(c.blue / 16),
        hex_digit(c.blue % 16),
    ]
}

fn hex_digit_exec(n: u8) -> (r: u8)
    requires
        n < 16,
    ensures
        r == hex_digit(n),
{
    if n < 10 {
        0x30 + n
    } else {
        0x57 + n
    }
}

/// True of a frame tail that carries the color mark: both sentinel bytes.
pub open spec fn has_color_mark(bytes: Seq<u8>) -> bool {
    bytes.len() == 512 && bytes[507] == COLOR_SENTINEL && bytes[511] == COLOR_SENTINEL
}

/// The color a marked frame carries.
pub open spec fn spec_color_of(bytes: Seq<u8>) -> Color {
    Color { red: bytes[508], green: bytes[509], blue: bytes[510] }
}

/// The frame with its five color-mark bytes zeroed.
pub open spec fn spec_clear_mark(bytes: Seq<u8>) -> Seq<u8> {
    bytes.update(507, 0u8).update(508, 0u8).update(509, 0u8).update(510, 0u8).update(511, 0u8)
}

/// The frame with a color mark stamped on its tail.
pub open spec fn spec_stamp_mark(bytes: Seq<u8>, c: Color) -> Seq<u8> {
    bytes.update(507, COLOR_SENTINEL).update(508, c.red).update(509, c.green).update(
        510,
        c.blue,
    ).update(511, COLOR_SENTINEL)
}

impl Color {
    /// The color as six lowercase hex digits, two per channel.
    pub fn to_string(&self) -> (s: String)
        ensures
            s@ == crate::text::ascii_str(spec_color_hex(*self)),
            s@.len() == 6,
    {
        let mut v: Vec<u8> = Vec::new();
        v.push(hex_digit_exec(self.red / 16));
        v.push(hex_digit_exec(self.red % 16));
        v.push(hex_digit_exec(self.green / 16));
        v.push(hex_digit_exec(self.green % 16));
        v.push(hex_digit_exec(self.blue / 16));
        v.push(hex_digit_exec(self.blue % 16));
        proof {
            assert(v@ =~= spec_color_hex(*self));
        }
        crate::text::string_from_ascii(v.as_slice())
    }
}

/// Recognizes the color mark in a frame tail.  On a marked frame the five
/// mark bytes are zeroed, so that text parsing sees clean padding, and the
/// encoded color is returned; an unmarked frame is left untouched.
pub fn fill_bytes(bytes: &mut [u8; 512]) -> (r: Result<Color, ()>)
    ensures
        has_color_mark(old(bytes)@) ==> r == Ok::<Color, ()>(spec_color_of(old(bytes)@))
            && final(bytes)@ == spec_clear_mark(old(bytes)@),
        !has_color_mark(old(bytes)@) ==> r == Err::<Color, ()>(()) && final(bytes)@ == old(bytes)@,
{
    if !(bytes[511] == bytes[507] && bytes[511] == COLOR_SENTINEL) {
        return Err(());
    }
    let blue = bytes[510];
    let green = bytes[509];
    let red = bytes[508];
    bytes[507] = 0;
    bytes[508] = 0;
    bytes[509] = 0;
    bytes[510] = 0;
    bytes[511] = 0;
    Ok(Color { red, green, blue })
}

/// Stamps the color mark onto a frame tail: sentinel, channels, sentinel.
pub fn stamp_color(bytes: &mut [u8; 512], c: Color)
    ensures
        final(bytes)@ == spec_stamp_mark(old(bytes)@, c),
{
    bytes[507] = COLOR_SENTINEL;
    bytes[508] = c.red;
    bytes[509] = c.green;
    bytes[510] = c.blue;
    bytes[511] = COLOR_SENTINEL;
}

/// The mark taken off a frame and stamped onto a reply reproduces the five
/// original tail bytes, whatever the reply frame held there before.
pub proof fn lemma_color_mark_round_trip(original: Seq<u8>, reply: Seq<u8>)
    requires
        has_color_mark(original),
        reply.len() == 512,
    ensures
        forall|i: int|
            507 <= i < 512 ==> spec_stamp_mark(reply, spec_color_of(original))[i] == original[i],
{
}

} // verus!
