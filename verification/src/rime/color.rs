use vstd::prelude::*;

use crate::rime::text::{chars_of, decimal_u64, dec_digits, string_of};

verus! {

broadcast use vstd::string::group_string_axioms;

/// A colour as Rime stores it: the channels are kept apart, while the
/// configuration text orders them blue, green, red (and alpha first).
#[derive(Debug, Clone, Copy, PartialEq, Eq, Structural)]
pub struct RimeColor {
    pub r: u8,
    pub g: u8,
    pub b: u8,
    pub a: u8,
}

// ---------------------------------------------------------------------------
// The text form
// ---------------------------------------------------------------------------

pub open spec fn is_hex_digit(c: char) -> bool {
    ('0' <= c && c <= '9') || ('a' <= c && c <= 'f') || ('A' <= c && c <= 'F')
}

pub open spec fn hex_value(c: char) -> int {
    if '0' <= c && c <= '9' {
        c as int - '0' as int
    } else if 'a' <= c && c <= 'f' {
        c as int - 'a' as int + 10
    } else {
        c as int - 'A' as int + 10
    }
}

/// The upper-case hex digit of `v` (below sixteen).
pub open spec fn hex_digit(v: int) -> char {
    if v < 10 {
        ('0' as int + v) as char
    } else {
        ('A' as int + v - 10) as char
    }
}

/// Two upper-case hex digits.
pub open spec fn hex_byte(b: u8) -> Seq<char> {
    seq![hex_digit(b as int / 16), hex_digit(b as int % 16)]
}

/// The byte written by the two hex digits at `i` and `i + 1`.
pub open spec fn byte_at(s: Seq<char>, i: int) -> u8 {
    (16 * hex_value(s[i]) + hex_value(s[i + 1])) as u8
}

/// `0x` followed by `2 * n` hex digits and nothing else.
pub open spec fn hex_shape(s: Seq<char>, n: int) -> bool {
    &&& s.len() == 2 + 2 * n
    &&& s[0] == '0'
    &&& s[1] == 'x'
    &&& forall|i: int| 2 <= i < s.len() ==> is_hex_digit(#[trigger] s[i])
}

/// `s` without its spaces.
pub open spec fn without_spaces(s: Seq<char>) -> Seq<char>
    decreases s.len(),
{
    if s.len() == 0 {
        s
    } else if s.last() == ' ' {
        without_spaces(s.drop_last())
    } else {
        without_spaces(s.drop_last()).push(s.last())
    }
}

/// The colour a Rime colour text stands for, spaces ignored: `0xAABBGGRR`,
/// or `0xBBGGRR` for an opaque colour.
pub open spec fn color_of_hex(text: Seq<char>) -> Option<RimeColor> {
    let c = without_spaces(text);
    if hex_shape(c, 4) {
        Some(RimeColor { r: byte_at(c, 8), g: byte_at(c, 6), b: byte_at(c, 4), a: byte_at(c, 2) })
    } else if hex_shape(c, 3) {
        Some(RimeColor { r: byte_at(c, 6), g: byte_at(c, 4), b: byte_at(c, 2), a: 255 })
    } else {
        None
    }
}

/// The Rime text of a colour: alpha is written only when it is not opaque.
pub open spec fn hex_of_color(c: RimeColor) -> Seq<char> {
    if c.a < 255 {
        seq!['0', 'x'] + hex_byte(c.a) + hex_byte(c.b) + hex_byte(c.g) + hex_byte(c.r)
    } else {
        seq!['0', 'x'] + hex_byte(c.b) + hex_byte(c.g) + hex_byte(c.r)
    }
}

/// Alpha in hundredths, rounded to nearest (no value lies half-way).
pub open spec fn alpha_hundredths(a: u8) -> int {
    (200 * a + 255) / 510
}

/// Two decimal places of the alpha fraction, as in `0.50`.
pub open spec fn alpha_text(a: u8) -> Seq<char> {
    let x = alpha_hundredths(a);
    dec_digits((x / 100) as nat) + seq!['.', hex_digit((x % 100) / 10), hex_digit(x % 10)]
}

/// The CSS form of a colour.
pub open spec fn css_of_color(c: RimeColor) -> Seq<char> {
    if c.a < 255 {
        "rgba("@ + dec_digits(c.r as nat) + ", "@ + dec_digits(c.g as nat) + ", "@ + dec_digits(
            c.b as nat,
        ) + ", "@ + alpha_text(c.a) + ")"@
    } else {
        "rgb("@ + dec_digits(c.r as nat) + ", "@ + dec_digits(c.g as nat) + ", "@ + dec_digits(
            c.b as nat,
        ) + ")"@
    }
}

// ---------------------------------------------------------------------------
// The pattern match
// ---------------------------------------------------------------------------

pub open spec fn hex8_pattern() -> Seq<char> {
    "^0x([A-Fa-f0-9]{2})([A-Fa-f0-9]{2})([A-Fa-f0-9]{2})([A-Fa-f0-9]{2})$"@
}

pub open spec fn hex6_pattern() -> Seq<char> {
    "^0x([A-Fa-f0-9]{2})([A-Fa-f0-9]{2})([A-Fa-f0-9]{2})$"@
}

/// Matches `text` against one of the two colour patterns (`regex::Regex::new`
/// and `Regex::captures`). Claimed of the crate: an anchored pattern of `0x`
/// and `n` groups of two ASCII hex digits matches exactly the texts of that
/// shape, and group `i` is the `i`-th pair of digits.
#[verifier::external_body]
fn capture_hex_groups(pattern: &str, text: &str, n: usize) -> (groups: Option<Vec<String>>)
    requires
        (pattern@ == hex8_pattern() && n == 4) || (pattern@ == hex6_pattern() && n == 3),
    ensures
        groups is Some <==> hex_shape(text@, n as int),
        groups matches Some(g) ==> g@.len() == n && forall|i: int|
            0 <= i < n ==> (#[trigger] g@[i])@ == text@.subrange(2 + 2 * i, 4 + 2 * i),
{
    let re = regex::Regex::new(pattern).unwrap();
    re.captures(text).map(|caps| (1..=n).map(|i| caps[i].to_string()).collect())
}

// ---------------------------------------------------------------------------
// Executable code
// ---------------------------------------------------------------------------

fn hex_char_value(c: char) -> (v: u8)
    requires
        is_hex_digit(c),
    ensures
        v as int == hex_value(c),
        v < 16,
{
    if '0' <= c && c <= '9' {
        (c as u32 - '0' as u32) as u8
    } else if 'a' <= c && c <= 'f' {
        (c as u32 - 'a' as u32 + 10) as u8
    } else {
        (c as u32 - 'A' as u32 + 10) as u8
    }
}

/// The byte written by a two-digit hex group.
fn parse_hex_pair(group: &String) -> (b: u8)
    requires
        group@.len() == 2,
        is_hex_digit(group@[0]),
        is_hex_digit(group@[1]),
    ensures
        b == byte_at(group@, 0),
{
    let cs = chars_of(group.as_str());
    let hi = hex_char_value(cs[0]);
    let lo = hex_char_value(cs[1]);
    16 * hi + lo
}

fn hex_digit_char(v: u8) -> (c: char)
    requires
        v < 16,
    ensures
        c == hex_digit(v as int),
{
    if v < 10 {
        ((48u8 + v) as char)
    } else {
        ((55u8 + v) as char)
    }
}

fn push_hex_byte(out: &mut Vec<char>, b: u8)
    ensures
        final(out)@ == old(out)@ + hex_byte(b),
{
    out.push(hex_digit_char(b / 16));
    out.push(hex_digit_char(b % 16));
    assert(final(out)@ =~= old(out)@ + hex_byte(b));
}

fn remove_spaces(text: &str) -> (r: Vec<char>)
    ensures
        r@ == without_spaces(text@),
{
    let cs = chars_of(text);
    let mut r: Vec<char> = Vec::new();
    let mut i: usize = 0;
    while i < cs.len()
        invariant
            i <= cs@.len(),
            cs@ == text@,
            r@ == without_spaces(cs@.take(i as int)),
        decreases cs@.len() - i,
    {
        assert(cs@.take(i + 1).drop_last() =~= cs@.take(i as int));
        if cs[i] != ' ' {
            r.push(cs[i]);
        }
        i = i + 1;
    }
    assert(cs@.take(i as int) =~= cs@);
    r
}

impl RimeColor {
    pub fn new(r: u8, g: u8, b: u8, a: u8) -> (c: Self)
        ensures
            c == (RimeColor { r, g, b, a }),
    {
        RimeColor { r, g, b, a }
    }

    pub fn white() -> (c: Self)
        ensures
            c == (RimeColor { r: 255, g: 255, b: 255, a: 255 }),
    {
        RimeColor { r: 255, g: 255, b: 255, a: 255 }
    }

    pub fn black() -> (c: Self)
        ensures
            c == (RimeColor { r: 0, g: 0, b: 0, a: 255 }),
    {
        RimeColor { r: 0, g: 0, b: 0, a: 255 }
    }

    pub fn clear() -> (c: Self)
        ensures
            c == (RimeColor { r: 0, g: 0, b: 0, a: 0 }),
    {
        RimeColor { r: 0, g: 0, b: 0, a: 0 }
    }

    /// Reads `0xAABBGGRR` or `0xBBGGRR` (spaces ignored).
    pub fn from_hex(hex: &str) -> (c: Option<Self>)
        ensures
            c == color_of_hex(hex@),
    {
        let cleaned_chars = remove_spaces(hex);
        let cleaned = string_of(cleaned_chars.as_slice());
        let ghost s = cleaned@;
        if let Some(g) = capture_hex_groups(
            "^0x([A-Fa-f0-9]{2})([A-Fa-f0-9]{2})([A-Fa-f0-9]{2})([A-Fa-f0-9]{2})$",
            cleaned.as_str(),
            4,
        ) {
            proof {
                assert(g@[0]@ == s.subrange(2, 4));
                assert(g@[1]@ == s.subrange(4, 6));
                assert(g@[2]@ == s.subrange(6, 8));
                assert(g@[3]@ == s.subrange(8, 10));
                assert(is_hex_digit(s[2]) && is_hex_digit(s[3]) && is_hex_digit(s[4]) && is_hex_digit(s[5]));
                assert(is_hex_digit(s[6]) && is_hex_digit(s[7]) && is_hex_digit(s[8]) && is_hex_digit(s[9]));
            }
            let alpha = parse_hex_pair(&g[0]);
            let blue = parse_hex_pair(&g[1]);
            let green = parse_hex_pair(&g[2]);
            let red = parse_hex_pair(&g[3]);
            return Some(RimeColor::new(red, green, blue, alpha));
        }
        if let Some(g) = capture_hex_groups(
            "^0x([A-Fa-f0-9]{2})([A-Fa-f0-9]{2})([A-Fa-f0-9]{2})$",
            cleaned.as_str(),
            3,
        ) {
            proof {
                assert(g@[0]@ == s.subrange(2, 4));
                assert(g@[1]@ == s.subrange(4, 6));
                assert(g@[2]@ == s.subrange(6, 8));
                assert(is_hex_digit(s[2]) && is_hex_digit(s[3]) && is_hex_digit(s[4]) && is_hex_digit(s[5]));
                assert(is_hex_digit(s[6]) && is_hex_digit(s[7]));
            }
            let blue = parse_hex_pair(&g[0]);
            let green = parse_hex_pair(&g[1]);
            let red = parse_hex_pair(&g[2]);
            return Some(RimeColor::new(red, green, blue, 255));
        }
        None
    }

    /// `0xAABBGGRR` when the colour is translucent, `0xBBGGRR` otherwise.
    pub fn to_hex(self) -> (s: String)
        ensures
            s@ == hex_of_color(self),
    {
        let mut out: Vec<char> = Vec::new();
        out.push('0');
        out.push('x');
        if self.a < 255 {
            push_hex_byte(&mut out, self.a);
        }
        push_hex_byte(&mut out, self.b);
        push_hex_byte(&mut out, self.g);
        push_hex_byte(&mut out, self.r);
        assert(out@ =~= hex_of_color(self));
        string_of(out.as_slice())
    }

    /// `rgb(r, g, b)`, or `rgba(r, g, b, alpha)` with alpha to two places.
    pub fn to_css(self) -> (s: String)
        ensures
            s@ == css_of_color(self),
    {
        let mut out: Vec<char> = Vec::new();
        let r = decimal_u64(self.r as u64);
        let g = decimal_u64(self.g as u64);
        let b = decimal_u64(self.b as u64);
        if self.a < 255 {
            out.append(&mut chars_of("rgba("));
        } else {
            out.append(&mut chars_of("rgb("));
        }
        out.append(&mut r.clone());
        out.append(&mut chars_of(", "));
        out.append(&mut g.clone());
        out.append(&mut chars_of(", "));
        out.append(&mut b.clone());
        if self.a < 255 {
            out.append(&mut chars_of(", "));
            let x: u32 = (200 * (self.a as u32) + 255) / 510;
            let mut whole = decimal_u64((x / 100) as u64);
            out.append(&mut whole);
            out.push('.');
            out.push(hex_digit_char(((x % 100) / 10) as u8));
            out.push(hex_digit_char((x % 10) as u8));
        }
        out.append(&mut chars_of(")"));
        assert(out@ =~= css_of_color(self));
        string_of(out.as_slice())
    }
}

/// A colour survives being written out and read back.
pub proof fn hex_roundtrip(c: RimeColor)
    ensures
        color_of_hex(hex_of_color(c)) == Some(c),
{
    let s = hex_of_color(c);
    lemma_no_spaces_kept(s);
    lemma_hex_byte(c.a);
    lemma_hex_byte(c.b);
    lemma_hex_byte(c.g);
    lemma_hex_byte(c.r);
    if c.a < 255 {
        assert(s.len() == 10);
        assert(s.subrange(2, 4) == hex_byte(c.a));
        assert(s[2] == hex_byte(c.a)[0] && s[3] == hex_byte(c.a)[1]);
        assert(s[4] == hex_byte(c.b)[0] && s[5] == hex_byte(c.b)[1]);
        assert(s[6] == hex_byte(c.g)[0] && s[7] == hex_byte(c.g)[1]);
        assert(s[8] == hex_byte(c.r)[0] && s[9] == hex_byte(c.r)[1]);
        assert(hex_shape(s, 4));
    } else {
        assert(s.len() == 8);
        assert(s[2] == hex_byte(c.b)[0] && s[3] == hex_byte(c.b)[1]);
        assert(s[4] == hex_byte(c.g)[0] && s[5] == hex_byte(c.g)[1]);
        assert(s[6] == hex_byte(c.r)[0] && s[7] == hex_byte(c.r)[1]);
        assert(hex_shape(s, 3));
    }
}

proof fn lemma_hex_byte(b: u8)
    ensures
        is_hex_digit(hex_byte(b)[0]),
        is_hex_digit(hex_byte(b)[1]),
        16 * hex_value(hex_byte(b)[0]) + hex_value(hex_byte(b)[1]) == b,
{
}

proof fn lemma_no_spaces_kept(s: Seq<char>)
    requires
        forall|i: int| 0 <= i < s.len() ==> s[i] != ' ',
    ensures
        without_spaces(s) == s,
    decreases s.len(),
{
    if s.len() > 0 {
        lemma_no_spaces_kept(s.drop_last());
        assert(s.drop_last().push(s.last()) =~= s);
    }
}

} // verus!
