//! Layout and rendering primitives for the `tclok` terminal clock.
use vstd::prelude::*;

use crate::text::push_char;
use vstd::utf8::is_ascii_chars;

pub mod cli;
pub mod clock;
pub mod layout;
pub mod neue_machina;
pub mod render;
pub mod session;
pub mod terminal;
pub mod text;

verus! {

/// How the hour of the day is written.
#[derive(Debug, Clone, Copy, PartialEq, Eq, Structural)]
pub enum HourFormat {
    H12,
    H24,
}

/// A 24-bit colour.
#[derive(Debug, Clone, Copy, PartialEq, Eq, Structural)]
pub struct Rgb {
    pub red: u8,
    pub green: u8,
    pub blue: u8,
}

/// The value of a hexadecimal digit, of either case.
pub open spec fn hex_digit_value(c: char) -> Option<nat> {
    if '0' <= c <= '9' {
        Some((c as nat - '0' as nat) as nat)
    } else if 'a' <= c <= 'f' {
        Some((c as nat - 'a' as nat + 10) as nat)
    } else if 'A' <= c <= 'F' {
        Some((c as nat - 'A' as nat + 10) as nat)
    } else {
        None
    }
}

/// The byte that two hex digits spell; none unless both are hex digits.
pub open spec fn hex_pair_value(a: char, b: char) -> Option<u8> {
    match (hex_digit_value(a), hex_digit_value(b)) {
        (Some(h), Some(l)) => Some((h * 16 + l) as u8),
        _ => None,
    }
}

/// The colour six characters spell, two per channel.
pub open spec fn hex_rgb(v: Seq<char>) -> Option<Rgb> {
    match (hex_pair_value(v[0], v[1]), hex_pair_value(v[2], v[3]), hex_pair_value(v[4], v[5])) {
        (Some(red), Some(green), Some(blue)) => Some(Rgb { red, green, blue }),
        _ => None,
    }
}

/// Every character written twice: `abc` becomes `aabbcc`.
pub open spec fn doubled(v: Seq<char>) -> Seq<char> {
    Seq::new(v.len() * 2, |i: int| v[i / 2])
}

/// `s` without one leading `#`, if it has one.
pub open spec fn without_hash(s: Seq<char>) -> Seq<char> {
    if s.len() > 0 && s[0] == '#' {
        s.drop_first()
    } else {
        s
    }
}

/// The colour a `#RRGGBB` or `#RGB` text names (the `#` is optional). A
/// three-digit form stands for each digit doubled, and is read again as a
/// six-digit form; so one that itself starts with `#` names no colour.
pub open spec fn parsed_hex_color(s: Seq<char>) -> Option<Rgb> {
    let v = without_hash(s);
    if !is_ascii_chars(v) {
        None
    } else if v.len() == 3 {
        if v[0] == '#' {
            None
        } else {
            hex_rgb(doubled(v))
        }
    } else if v.len() == 6 {
        hex_rgb(v)
    } else {
        None
    }
}

/// How deeply `Rgb::from_hex` calls itself on `s`.
pub open spec fn hex_depth(s: Seq<char>) -> nat {
    if without_hash(s).len() == 3 {
        1
    } else {
        0
    }
}

/// Each channel of the darker end of a gradient: four fifths of the channel,
/// where the multiplication by four holds at 255.
pub open spec fn darkened(channel: u8) -> u8 {
    let times_four = if channel * 4 > 255 {
        255
    } else {
        channel * 4
    };
    (times_four / 5) as u8
}

/// The sixteen hex digits in lower case, in order of value.
pub open spec fn lower_hex_digits() -> Seq<char> {
    "0123456789abcdef"@
}

/// The sixteen hex digits in upper case, in order of value.
pub open spec fn upper_hex_digits() -> Seq<char> {
    "0123456789ABCDEF"@
}

/// Each of `0`-`9`, `a`-`f` and `A`-`F` is a hex digit worth its place in
/// `0123456789abcdef`, and no other character is a hex digit.
pub proof fn lemma_hex_digit_values(c: char, i: int)
    requires
        0 <= i < 16,
    ensures
        hex_digit_value(lower_hex_digits()[i]) == Some(i as nat),
        hex_digit_value(upper_hex_digits()[i]) == Some(i as nat),
        hex_digit_value(c) matches Some(v) ==> v < 16 && (c == lower_hex_digits()[v as int] || c
            == upper_hex_digits()[v as int]),
{
    reveal_strlit("0123456789abcdef");
    reveal_strlit("0123456789ABCDEF");
}

/// Whether `v[k]` is the hex digit (of either case) worth `d[k]`, for each
/// `k`.
pub open spec fn spells_hex(v: Seq<char>, d: Seq<nat>) -> bool {
    &&& v.len() == d.len()
    &&& forall|k: int|
        0 <= k < v.len() ==> #[trigger] d[k] < 16 && (v[k] == lower_hex_digits()[d[k] as int]
            || v[k] == upper_hex_digits()[d[k] as int])
}

/// Six hex digits, with or without a leading `#`, name the colour whose
/// channels are the base-16 values of the pairs; three hex digits name the
/// colour whose channels are each digit's value times 17 (`#abc` is
/// `#aabbcc`).
pub proof fn lemma_hex_digits_name_their_colour(v: Seq<char>, d: Seq<nat>)
    requires
        spells_hex(v, d),
        v.len() == 6 || v.len() == 3,
    ensures
        v.len() == 6 ==> parsed_hex_color(v) == Some(
            Rgb {
                red: (16 * d[0] + d[1]) as u8,
                green: (16 * d[2] + d[3]) as u8,
                blue: (16 * d[4] + d[5]) as u8,
            },
        ),
        v.len() == 6 ==> parsed_hex_color(seq!['#'] + v) == parsed_hex_color(v),
        v.len() == 3 ==> parsed_hex_color(v) == Some(
            Rgb { red: (17 * d[0]) as u8, green: (17 * d[1]) as u8, blue: (17 * d[2]) as u8 },
        ),
        v.len() == 3 ==> parsed_hex_color(seq!['#'] + v) == parsed_hex_color(v),
{
    reveal_strlit("0123456789abcdef");
    reveal_strlit("0123456789ABCDEF");
    assert forall|k: int| 0 <= k < v.len() implies hex_digit_value(#[trigger] v[k]) == Some(d[k])
        && '\0' <= v[k] <= '\u{7f}' by {
        lemma_hex_digit_values(v[k], d[k] as int);
    }
    assert(is_ascii_chars(v));
    assert((seq!['#'] + v).drop_first() =~= v);
    assert(v[0] != '#');
    if v.len() == 3 {
        let e = doubled(v);
        assert(e[0] == v[0] && e[1] == v[0] && e[2] == v[1] && e[3] == v[1] && e[4] == v[2] && e[5]
            == v[2]);
    }
}

/// Only hex digits name a colour: a text that names one is, after an
/// optional leading `#`, three or six characters, each of them one of
/// `0`-`9`, `a`-`f` or `A`-`F`.
pub proof fn lemma_only_hex_digits_name_a_colour(s: Seq<char>)
    ensures
        parsed_hex_color(s) is Some ==> {
            let v = without_hash(s);
            &&& v.len() == 3 || v.len() == 6
            &&& forall|k: int|
                0 <= k < v.len() ==> lower_hex_digits().contains(#[trigger] v[k])
                    || upper_hex_digits().contains(v[k])
        },
{
    let v = without_hash(s);
    if parsed_hex_color(s) is Some {
        assert forall|c: char| #[trigger] hex_digit_value(c) is Some implies lower_hex_digits().contains(
            c,
        ) || upper_hex_digits().contains(c) by {
            let x = hex_digit_value(c)->0;
            lemma_hex_digit_values(c, 0);
            if c == lower_hex_digits()[x as int] {
                assert(lower_hex_digits().len() == 16) by {
                    reveal_strlit("0123456789abcdef");
                }
            } else {
                assert(upper_hex_digits().len() == 16) by {
                    reveal_strlit("0123456789ABCDEF");
                }
            }
        }
        if v.len() == 3 {
            let e = doubled(v);
            assert(e[0] == v[0] && e[2] == v[1] && e[4] == v[2]);
            assert(hex_digit_value(e[0]) is Some && hex_digit_value(e[2]) is Some && hex_digit_value(
                e[4],
            ) is Some);
        } else {
            assert(hex_digit_value(v[0]) is Some && hex_digit_value(v[1]) is Some && hex_digit_value(
                v[2],
            ) is Some && hex_digit_value(v[3]) is Some && hex_digit_value(v[4]) is Some
                && hex_digit_value(v[5]) is Some);
        }
        assert forall|k: int| 0 <= k < v.len() implies lower_hex_digits().contains(#[trigger] v[k])
            || upper_hex_digits().contains(v[k]) by {
            assert(hex_digit_value(v[k]) is Some);
        }
    }
}

/// A three-digit colour is the six-digit colour with each digit doubled:
/// `#abc` names the same colour as `#aabbcc` (and as `aabbcc`).
pub proof fn lemma_short_hex_is_doubled(s: Seq<char>)
    requires
        without_hash(s).len() == 3,
        without_hash(s)[0] != '#',
    ensures
        parsed_hex_color(s) == parsed_hex_color(doubled(without_hash(s))),
{
    let v = without_hash(s);
    let d = doubled(v);
    assert(d[0] == v[0]);
    assert(without_hash(d) == d);
    assert(is_ascii_chars(v) == is_ascii_chars(d)) by {
        if is_ascii_chars(v) {
            assert forall|i: int| 0 <= i < d.len() implies '\0' <= #[trigger] d[i] <= '\u{7f}' by {
                assert(d[i] == v[i / 2]);
            }
        }
        if is_ascii_chars(d) {
            assert forall|i: int| 0 <= i < v.len() implies '\0' <= #[trigger] v[i] <= '\u{7f}' by {
                assert(d[2 * i] == v[i]);
            }
        }
    }
}

/// The darker end of a gradient is never brighter than the top, channel by
/// channel: a channel below 64 becomes four fifths of itself, rounded down,
/// and a brighter one, whose fourfold value is held at 255, becomes 51.
pub proof fn lemma_darkened_is_darker(channel: u8)
    ensures
        darkened(channel) <= channel,
        channel < 64 ==> 5 * darkened(channel) <= 4 * channel < 5 * darkened(channel) + 5,
        channel >= 64 ==> darkened(channel) == 51,
{
}

/// The value of a hexadecimal digit.
fn hex_digit(c: char) -> (value: Option<u8>)
    ensures
        match value {
            Some(v) => hex_digit_value(c) == Some(v as nat),
            None => hex_digit_value(c) is None,
        },
{
    if '0' <= c && c <= '9' {
        Some((c as u32 - '0' as u32) as u8)
    } else if 'a' <= c && c <= 'f' {
        Some((c as u32 - 'a' as u32 + 10) as u8)
    } else if 'A' <= c && c <= 'F' {
        Some((c as u32 - 'A' as u32 + 10) as u8)
    } else {
        None
    }
}

/// Reads two characters as a base-16 byte (see `hex_pair_value`).
fn hex_pair(a: char, b: char) -> (value: Option<u8>)
    ensures
        value == hex_pair_value(a, b),
{
    match (hex_digit(a), hex_digit(b)) {
        (Some(h), Some(l)) => Some(h * 16 + l),
        _ => None,
    }
}

impl Rgb {
    pub fn new(red: u8, green: u8, blue: u8) -> (rgb: Self)
        ensures
            rgb.red == red,
            rgb.green == green,
            rgb.blue == blue,
    {
        Self { red, green, blue }
    }

    /// Reads a `#RRGGBB` or `#RGB` colour, of either case, with or without the
    /// leading `#`.
    pub fn from_hex(value: &str) -> (color: Option<Self>)
        ensures
            color == parsed_hex_color(value@),
        decreases hex_depth(value@),
    {
        let all = value.unicode_len();
        let text = value;
        let value = if all > 0 && text.get_char(0) == '#' {
            text.substring_char(1, all)
        } else {
            text
        };
        assert(value@ == without_hash(text@)) by {
            if text@.len() > 0 && text@[0] == '#' {
                assert(text@.subrange(1, all as int) =~= text@.drop_first());
            }
        }
        if !value.is_ascii() {
            return None;
        }
        let n = value.unicode_len();
        if n == 3 {
            let mut expanded = String::new();
            let mut i: usize = 0;
            while i < 3
                invariant
                    value@.len() == 3,
                    i <= 3,
                    expanded@ == doubled(value@.take(i as int)),
                decreases 3 - i,
            {
                let digit = value.get_char(i);
                push_char(&mut expanded, digit);
                push_char(&mut expanded, digit);
                i = i + 1;
                assert(expanded@ =~= doubled(value@.take(i as int)));
            }
            assert(value@.take(3) =~= value@);
            assert(hex_depth(expanded@) == 0) by {
                assert(expanded@.len() == 6);
            }
            let color = Self::from_hex(expanded.as_str());
            proof {
                let e = expanded@;
                assert(e[0] == value@[0]);
                if value@[0] != '#' {
                    assert(without_hash(e) == e);
                    assert(is_ascii_chars(e));
                }
            }
            return color;
        }
        if n != 6 {
            return None;
        }
        let red = hex_pair(value.get_char(0), value.get_char(1));
        let green = hex_pair(value.get_char(2), value.get_char(3));
        let blue = hex_pair(value.get_char(4), value.get_char(5));
        match (red, green, blue) {
            (Some(red), Some(green), Some(blue)) => Some(Self::new(red, green, blue)),
            _ => None,
        }
    }

    /// A gradient from this colour at the top to a darker shade at the bottom.
    pub fn gradient(self) -> (gradient: Gradient)
        ensures
            gradient.top == self,
            gradient.bottom == (Rgb {
                red: darkened(self.red),
                green: darkened(self.green),
                blue: darkened(self.blue),
            }),
    {
        Gradient {
            top: self,
            bottom: Self::new(darken(self.red), darken(self.green), darken(self.blue)),
        }
    }
}

/// Four fifths of a channel (see `darkened`).
fn darken(channel: u8) -> (value: u8)
    ensures
        value == darkened(channel),
{
    let times_four: u16 = if channel as u16 * 4 > 255 {
        255
    } else {
        channel as u16 * 4
    };
    (times_four / 5) as u8
}

/// A vertical two-colour gradient.
#[derive(Debug, Clone, Copy, PartialEq, Eq, Structural)]
pub struct Gradient {
    pub top: Rgb,
    pub bottom: Rgb,
}

/// What the user asked the clock to show.
#[derive(Debug, Clone, Copy, PartialEq, Eq, Structural)]
pub struct Options {
    pub hour_format: HourFormat,
    pub show_seconds: bool,
    pub color: Option<Rgb>,
    pub gradient: bool,
}

/// The options used when none are given.
pub open spec fn default_options() -> Options {
    Options { hour_format: HourFormat::H24, show_seconds: true, color: None, gradient: false }
}

impl Default for Options {
    /// A 24-hour clock with seconds, in the terminal's own colour.
    fn default() -> (options: Self)
        ensures
            options == default_options(),
    {
        Self { hour_format: HourFormat::H24, show_seconds: true, color: None, gradient: false }
    }
}

} // verus!
