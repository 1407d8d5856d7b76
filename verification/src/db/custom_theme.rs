use vstd::prelude::*;

use crate::domain::drivers::{colour_text_ok, hex_digit, hex_digit_value, strip_hashes, Rgb8};
use crate::text::{trim, trimmed};

verus! {

/// The colours of the user's own theme, as `#RRGGBB` texts.
#[derive(Debug, Clone)]
pub struct CustomTheme {
    pub background: String,
    pub surface: String,
    pub accent: String,
}

/// `u8::from_str_radix` on two bytes in base 16: both hex digits, or a `+` sign and one digit;
/// `None` otherwise.
pub open spec fn hex_channel(b0: u8, b1: u8) -> Option<u8> {
    match (hex_digit_value(b0), hex_digit_value(b1)) {
        (Some(h), Some(l)) => Some((16 * h + l) as u8),
        (None, Some(l)) => if b0 == 43 {
            Some(l)
        } else {
            None
        },
        _ => None,
    }
}

/// The colour of a `RRGGBB` text (leading `#`s dropped): `None` unless it is six bytes long and
/// each pair of bytes reads as a hex number.
pub open spec fn hex_color_from(bytes: Seq<u8>) -> Option<Rgb8> {
    let h = strip_hashes(bytes);
    if h.len() != 6 {
        None
    } else {
        match (hex_channel(h[0], h[1]), hex_channel(h[2], h[3]), hex_channel(h[4], h[5])) {
            (Some(r), Some(g), Some(b)) => Some(Rgb8 { r, g, b }),
            _ => None,
        }
    }
}

fn parse_channel(b0: u8, b1: u8) -> (r: Option<u8>)
    ensures
        r == hex_channel(b0, b1),
{
    match (hex_digit(b0), hex_digit(b1)) {
        (Some(h), Some(l)) => Some(16 * h + l),
        (None, Some(l)) => if b0 == 43 {
            Some(l)
        } else {
            None
        },
        _ => None,
    }
}

/// A theme colour from its text: trimmed, leading `#`s dropped, then six hex digits. The text
/// must split into its channels at character boundaries (the slicing would panic otherwise).
pub fn parse_hex_color(value: &str) -> (r: Option<Rgb8>)
    requires
        colour_text_ok(trimmed(value@)),
    ensures
        r == hex_color_from(vstd::utf8::encode_utf8(trimmed(value@))),
{
    let text = trim(value);
    let bytes = text.as_bytes();
    let mut start: usize = 0;
    assert(bytes@.subrange(0, bytes@.len() as int) =~= bytes@);
    while start < bytes.len() && bytes[start] == 35
        invariant
            start <= bytes@.len(),
            strip_hashes(bytes@) == strip_hashes(bytes@.subrange(start as int, bytes@.len() as int)),
        decreases bytes.len() - start,
    {
        assert(bytes@.subrange(start as int, bytes@.len() as int)[0] == bytes@[start as int]);
        assert(bytes@.subrange(start as int, bytes@.len() as int).drop_first() =~= bytes@.subrange(
            start + 1,
            bytes@.len() as int,
        ));
        start = start + 1;
    }
    let ghost rest = bytes@.subrange(start as int, bytes@.len() as int);
    assert(strip_hashes(rest) == rest);
    if bytes.len() - start != 6 {
        return None;
    }
    let r = parse_channel(bytes[start], bytes[start + 1]);
    let g = parse_channel(bytes[start + 2], bytes[start + 3]);
    let b = parse_channel(bytes[start + 4], bytes[start + 5]);
    match (r, g, b) {
        (Some(r), Some(g), Some(b)) => Some(Rgb8 { r, g, b }),
        _ => None,
    }
}

impl CustomTheme {
    /// The three colours, each read by `parse_hex_color`; `None` when any does not read (the
    /// theme then has no palette).
    pub fn colors(&self) -> (r: Option<(Rgb8, Rgb8, Rgb8)>)
        requires
            colour_text_ok(trimmed(self.background@)),
            colour_text_ok(trimmed(self.surface@)),
            colour_text_ok(trimmed(self.accent@)),
        ensures
            r == (match (
                hex_color_from(vstd::utf8::encode_utf8(trimmed(self.background@))),
                hex_color_from(vstd::utf8::encode_utf8(trimmed(self.surface@))),
                hex_color_from(vstd::utf8::encode_utf8(trimmed(self.accent@))),
            ) {
                (Some(b), Some(s), Some(a)) => Some((b, s, a)),
                _ => None,
            }),
    {
        let background = parse_hex_color(self.background.as_str());
        let surface = parse_hex_color(self.surface.as_str());
        let accent = parse_hex_color(self.accent.as_str());
        match (background, surface, accent) {
            (Some(b), Some(s), Some(a)) => Some((b, s, a)),
            _ => None,
        }
    }
}

} // verus!
