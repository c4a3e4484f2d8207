//! The color types every other module works with.
use vstd::prelude::*;
use crate::text::push_char;
use vstd::string::StringSliceAdditionalSpecFns;

verus! {

/// A single 8-bit RGB color.
#[derive(Debug, Clone, Copy, PartialEq, Eq, Structural)]
pub struct Rgb {
    pub r: u8,
    pub g: u8,
    pub b: u8,
}

/// Value of an ASCII hexadecimal digit, either case.
pub open spec fn hex_digit_value(c: u8) -> Option<u8> {
    if 0x30 <= c <= 0x39 {
        Some((c - 0x30) as u8)
    } else if 0x61 <= c <= 0x66 {
        Some((c - 0x61 + 10) as u8)
    } else if 0x41 <= c <= 0x46 {
        Some((c - 0x41 + 10) as u8)
    } else {
        None
    }
}

/// Base-16 reading of a two-byte field: two hex digits, high digit first;
/// anything else (a sign among them) is no field.
pub open spec fn hex_pair_value(hi: u8, lo: u8) -> Option<u8> {
    match (hex_digit_value(hi), hex_digit_value(lo)) {
        (Some(h), Some(l)) => Some((h * 16 + l) as u8),
        _ => None,
    }
}

/// Number of `#` bytes at the front of `b`.
pub open spec fn leading_hashes(b: Seq<u8>) -> nat
    decreases b.len(),
{
    if b.len() > 0 && b[0] == 0x23 {
        1 + leading_hashes(b.drop_first())
    } else {
        0
    }
}

/// The bytes of a hex color once every leading `#` is removed.
pub open spec fn hex_body(s: Seq<u8>) -> Seq<u8> {
    s.skip(leading_hashes(s) as int)
}

/// The color a hex string denotes: after the leading `#`s, exactly six bytes
/// forming three base-16 fields (red, green, blue).
pub open spec fn parse_hex(s: Seq<u8>) -> Option<Rgb> {
    let t = hex_body(s);
    if t.len() != 6 {
        None
    } else {
        match (hex_pair_value(t[0], t[1]), hex_pair_value(t[2], t[3]), hex_pair_value(t[4], t[5])) {
            (Some(r), Some(g), Some(b)) => Some(Rgb { r, g, b }),
            _ => None,
        }
    }
}

/// Inputs on which slicing the six-byte body into fields cuts no character:
/// the others make the parser panic.
pub open spec fn hex_input_ok(s: Seq<char>) -> bool {
    let b = vstd::utf8::encode_utf8(s);
    let k = leading_hashes(b) as int;
    ||| hex_body(b).len() != 6
    ||| vstd::utf8::is_ascii_chars(s)
    ||| (vstd::utf8::is_char_boundary(b, k + 2) && vstd::utf8::is_char_boundary(b, k + 4))
}

/// The color a text denotes, read as `Rgb::from_hex` reads it.
pub open spec fn text_color(s: Seq<char>) -> Option<Rgb> {
    parse_hex(vstd::utf8::encode_utf8(s))
}

/// Lowercase hex digit for a value below 16.
pub open spec fn hex_char(n: u8) -> char {
    if n < 10 {
        (0x30 + n) as char
    } else {
        (0x61 + n - 10) as char
    }
}

/// Two lowercase hex digits of a byte.
pub open spec fn hex_byte(n: u8) -> Seq<char> {
    seq![hex_char(n / 16), hex_char(n % 16)]
}

/// `#rrggbb` in lowercase.
pub open spec fn hex_text(c: Rgb) -> Seq<char> {
    seq!['#'] + hex_byte(c.r) + hex_byte(c.g) + hex_byte(c.b)
}

fn hex_digit(b: u8) -> (r: Option<u8>)
    ensures
        r == hex_digit_value(b),
{
    if 0x30 <= b && b <= 0x39 {
        Some(b - 0x30)
    } else if 0x61 <= b && b <= 0x66 {
        Some(b - 0x61 + 10)
    } else if 0x41 <= b && b <= 0x46 {
        Some(b - 0x41 + 10)
    } else {
        None
    }
}

fn hex_pair(hi: u8, lo: u8) -> (r: Option<u8>)
    ensures
        r == hex_pair_value(hi, lo),
{
    match (hex_digit(hi), hex_digit(lo)) {
        (Some(h), Some(l)) => Some(h * 16 + l),
        _ => None,
    }
}

pub(crate) fn push_hex_byte(s: &mut String, n: u8)
    ensures
        final(s)@ == old(s)@ + hex_byte(n),
{
    let hi = n / 16;
    let lo = n % 16;
    let ch = if hi < 10 { (0x30 + hi) as char } else { (0x61 + hi - 10) as char };
    let cl = if lo < 10 { (0x30 + lo) as char } else { (0x61 + lo - 10) as char };
    push_char(s, ch);
    push_char(s, cl);
    assert(s@ =~= old(s)@ + hex_byte(n));
}

impl Rgb {
    pub fn new(r: u8, g: u8, b: u8) -> (c: Self)
        ensures
            c == (Rgb { r, g, b }),
    {
        Rgb { r, g, b }
    }

    /// Parse a hex string like "#1a2b3c" or "1a2b3c".
    pub fn from_hex(hex: &str) -> (c: Option<Self>)
        requires
            hex_input_ok(hex@),
        ensures
            c == text_color(hex@),
    {
        let b = hex.as_bytes();
        let mut k: usize = 0;
        assert(b@.skip(0) =~= b@);
        while k < b.len() && b[k] == 0x23
            invariant
                k <= b@.len(),
                b@ == hex.spec_bytes(),
                leading_hashes(b@) == k + leading_hashes(b@.skip(k as int)),
            decreases b.len() - k,
        {
            assert(b@.skip(k as int).drop_first() =~= b@.skip(k + 1));
            k = k + 1;
        }
        assert(leading_hashes(b@.skip(k as int)) == 0);
        if b.len() - k != 6 {
            return None;
        }
        let r = hex_pair(b[k], b[k + 1]);
        let g = hex_pair(b[k + 2], b[k + 3]);
        let bl = hex_pair(b[k + 4], b[k + 5]);
        match (r, g, bl) {
            (Some(r), Some(g), Some(bl)) => Some(Rgb { r, g, b: bl }),
            _ => None,
        }
    }

    /// Format as "#rrggbb".
    pub fn to_hex(&self) -> (s: String)
        ensures
            s@ == hex_text(*self),
    {
        let mut s = String::new();
        push_char(&mut s, '#');
        push_hex_byte(&mut s, self.r);
        push_hex_byte(&mut s, self.g);
        push_hex_byte(&mut s, self.b);
        assert(s@ =~= hex_text(*self));
        s
    }
}

/// Formatting a color as hex and reading the text back gives the same color.
pub proof fn lemma_hex_roundtrip(c: Rgb)
    ensures
        text_color(hex_text(c)) == Some(c),
        hex_input_ok(hex_text(c)),
{
    let t = hex_text(c);
    assert(vstd::utf8::is_ascii_chars(t));
    vstd::utf8::is_ascii_chars_encode_utf8(t);
    let b = vstd::utf8::encode_utf8(t);
    assert(b.drop_first().drop_first() =~= b.skip(2));
    assert(leading_hashes(b.drop_first()) == 0);
    assert(leading_hashes(b) == 1);
    assert(hex_body(b) =~= b.skip(1));
    assert(hex_pair_value(b[1], b[2]) == Some(c.r));
    assert(hex_pair_value(b[3], b[4]) == Some(c.g));
    assert(hex_pair_value(b[5], b[6]) == Some(c.b));
}

/// An ASCII letter byte in lower case; every other byte as it is.
pub open spec fn lower_byte(b: u8) -> u8 {
    if 0x41 <= b <= 0x5a { (b + 32) as u8 } else { b }
}

/// A character in lower case if it is an ASCII capital; every other
/// character as it is.
pub open spec fn lower_char(c: char) -> char {
    if 'A' <= c && c <= 'Z' { ((c as u32) + 32) as char } else { c }
}

proof fn lemma_hex_digit_case(b: u8)
    ensures
        hex_digit_value(lower_byte(b)) == hex_digit_value(b),
{
}

proof fn lemma_leading_hashes_case(s: Seq<u8>, t: Seq<u8>)
    requires
        s.len() == t.len(),
        forall|k: int| 0 <= k < s.len() ==> #[trigger] t[k] == lower_byte(s[k]),
    ensures
        leading_hashes(s) == leading_hashes(t),
    decreases s.len(),
{
    if s.len() > 0 {
        assert(t[0] == lower_byte(s[0]));
        lemma_leading_hashes_case(s.drop_first(), t.drop_first());
    }
}

proof fn lemma_leading_hashes_le(s: Seq<u8>)
    ensures
        leading_hashes(s) <= s.len(),
    decreases s.len(),
{
    if s.len() > 0 {
        lemma_leading_hashes_le(s.drop_first());
    }
}

/// Hex colors are read without regard to case: bytes that differ only in the
/// case of their ASCII letters denote the same color (or both none), so each
/// hex digit `A`–`F` reads as its lower-case form `a`–`f` does.
pub proof fn lemma_parse_hex_ignores_case(s: Seq<u8>, t: Seq<u8>)
    requires
        s.len() == t.len(),
        forall|k: int| 0 <= k < s.len() ==> #[trigger] t[k] == lower_byte(s[k]),
    ensures
        parse_hex(s) == parse_hex(t),
{
    lemma_leading_hashes_case(s, t);
    lemma_leading_hashes_le(s);
    let k = leading_hashes(s) as int;
    let bs = hex_body(s);
    let bt = hex_body(t);
    assert(bs.len() == bt.len());
    if bs.len() == 6 {
        assert forall|i: int| 0 <= i < 6 implies hex_digit_value(#[trigger] bt[i]) == hex_digit_value(bs[i]) by {
            assert(bt[i] == t[k + i]);
            assert(bs[i] == s[k + i]);
            lemma_hex_digit_case(s[k + i]);
        }
        assert(hex_digit_value(bt[0]) == hex_digit_value(bs[0]));
        assert(hex_digit_value(bt[1]) == hex_digit_value(bs[1]));
        assert(hex_digit_value(bt[2]) == hex_digit_value(bs[2]));
        assert(hex_digit_value(bt[3]) == hex_digit_value(bs[3]));
        assert(hex_digit_value(bt[4]) == hex_digit_value(bs[4]));
        assert(hex_digit_value(bt[5]) == hex_digit_value(bs[5]));
    }
}

/// The same for texts: a hex color text and its ASCII letters put in lower
/// case denote the same color.
pub proof fn lemma_text_color_ignores_case(s: Seq<char>, t: Seq<char>)
    requires
        vstd::utf8::is_ascii_chars(s),
        s.len() == t.len(),
        forall|k: int| 0 <= k < s.len() ==> #[trigger] t[k] == lower_char(s[k]),
    ensures
        text_color(s) == text_color(t),
{
    assert(vstd::utf8::is_ascii_chars(t)) by {
        assert forall|k: int| 0 <= k < t.len() implies '\0' <= #[trigger] t[k] <= '\u{7f}' by {
            assert(t[k] == lower_char(s[k]));
        }
    }
    vstd::utf8::is_ascii_chars_encode_utf8(s);
    vstd::utf8::is_ascii_chars_encode_utf8(t);
    let bs = vstd::utf8::encode_utf8(s);
    let bt = vstd::utf8::encode_utf8(t);
    assert forall|k: int| 0 <= k < bs.len() implies #[trigger] bt[k] == lower_byte(bs[k]) by {
        assert(s[k] as u8 == bs[k]);
        assert(t[k] as u8 == bt[k]);
        assert(t[k] == lower_char(s[k]));
    }
    lemma_parse_hex_ignores_case(bs, bt);
}

/// YIQ perceptual luminance scaled by 1000 (0.299 R + 0.587 G + 0.114 B),
/// the key colors are ordered by from dark to light.
pub open spec fn luma(c: Rgb) -> nat {
    (299 * c.r + 587 * c.g + 114 * c.b) as nat
}

impl Rgb {
    /// YIQ luminance times 1000, exact in integers.
    pub fn luma(&self) -> (k: u32)
        ensures
            k == luma(*self),
    {
        299 * (self.r as u32) + 587 * (self.g as u32) + 114 * (self.b as u32)
    }
}

/// Largest channel.
pub open spec fn max_chan(c: Rgb) -> int {
    if c.r >= c.g && c.r >= c.b { c.r as int } else if c.g >= c.b { c.g as int } else { c.b as int }
}

/// Smallest channel.
pub open spec fn min_chan(c: Rgb) -> int {
    if c.r <= c.g && c.r <= c.b { c.r as int } else if c.g <= c.b { c.g as int } else { c.b as int }
}

/// Numerator of the HSL saturation: max - min (on the 0..255 scale).
pub open spec fn sat_num(c: Rgb) -> int {
    max_chan(c) - min_chan(c)
}

/// Denominator of the HSL saturation: max + min while the lightness is at
/// most one half, 510 - max - min above; 1 for a gray (saturation 0).
pub open spec fn sat_den(c: Rgb) -> int {
    let sum = max_chan(c) + min_chan(c);
    if max_chan(c) == min_chan(c) {
        1
    } else if sum > 255 {
        510 - sum
    } else {
        sum
    }
}

impl Rgb {
    /// HSL saturation as the exact fraction `num / den` (den > 0).
    pub fn saturation(&self) -> (f: (u32, u32))
        ensures
            f.0 == sat_num(*self),
            f.1 == sat_den(*self),
            f.1 > 0,
            f.0 <= 255,
            f.1 <= 510,
    {
        let mx = if self.r >= self.g && self.r >= self.b { self.r } else if self.g >= self.b { self.g } else { self.b };
        let mn = if self.r <= self.g && self.r <= self.b { self.r } else if self.g <= self.b { self.g } else { self.b };
        let sum = mx as u32 + mn as u32;
        let den: u32 = if mx == mn { 1 } else if sum > 255 { 510 - sum } else { sum };
        ((mx - mn) as u32, den)
    }
}

/// The three semantic colors pywal exposes as "special".
#[derive(Debug, Clone, Copy, PartialEq, Eq, Structural)]
pub struct Special {
    pub background: Rgb,
    pub foreground: Rgb,
    pub cursor: Rgb,
}

/// The canonical color scheme: wallpaper, opacity, special roles and the
/// sixteen terminal slots.
#[derive(Debug, Clone, PartialEq, Eq)]
pub struct ColorDict {
    pub wallpaper: String,
    pub alpha: u8,
    pub special: Special,
    pub colors: [Rgb; 16],
}

impl ColorDict {
    /// Convenience accessor: color0..color15 by index.
    pub fn color(&self, index: usize) -> (c: &Rgb)
        requires
            index < 16,
        ensures
            *c == self.colors@[index as int],
    {
        &self.colors[index]
    }
}

} // verus!
