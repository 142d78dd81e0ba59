//! Colors given as text: hex values, ANSI names, and names defined in the
//! theme.

use crate::foreign::{push_char, push_str, str_to_lowercase, str_trim, string_map_get, trim_spec, unicode_lowercase, value_for_text};
use std::collections::HashMap;
use crate::text::{decimal, decimal_spec, str_equals};
use vstd::prelude::*;
use vstd::utf8::{encode_utf8, is_char_boundary};

verus! {

/// An RGB color, 0-255 per channel.
#[derive(Debug, Clone, Copy, PartialEq, Eq, Structural)]
pub struct Rgb {
    pub r: u8,
    pub g: u8,
    pub b: u8,
}

/// `s` without its leading `'#'` characters.
pub open spec fn strip_hashes(s: Seq<char>) -> Seq<char>
    decreases s.len(),
{
    if s.len() > 0 && s[0] == '#' {
        strip_hashes(s.drop_first())
    } else {
        s
    }
}

/// The part of a color text that holds the digits: trimmed, without
/// leading `'#'`.
pub open spec fn hex_body(s: Seq<char>) -> Seq<char> {
    strip_hashes(trim_spec(s))
}

/// The value of a hex digit byte.
pub open spec fn hex_digit(b: u8) -> Option<u8> {
    if 48 <= b <= 57 {
        Some((b - 48) as u8)
    } else if 97 <= b <= 102 {
        Some((b - 87) as u8)
    } else if 65 <= b <= 70 {
        Some((b - 55) as u8)
    } else {
        None
    }
}

/// The value of a channel written as two hex digits.
pub open spec fn hex_pair(b0: u8, b1: u8) -> Option<u8> {
    match (hex_digit(b0), hex_digit(b1)) {
        (Some(x), Some(y)) => Some((16 * x + y) as u8),
        _ => None,
    }
}

/// Six hex digits.
pub open spec fn six_hex_digits(b: Seq<u8>) -> bool {
    b.len() == 6 && forall|i: int| 0 <= i < 6 ==> (#[trigger] hex_digit(b[i])) is Some
}

/// The message for a body of the wrong byte length.
pub open spec fn length_message(n: nat) -> Seq<char> {
    "invalid hex color: expected 6 characters, got "@ + decimal_spec(n)
}

/// The message for a bad component.
pub open spec fn component_message(name: Seq<char>, body: Seq<char>) -> Seq<char> {
    "invalid hex color: bad "@ + name + " component in '"@ + body + "'"@
}

fn hex_digit_of(b: u8) -> (r: Option<u8>)
    ensures
        r == hex_digit(b),
{
    if 48 <= b && b <= 57 {
        Some(b - 48)
    } else if 97 <= b && b <= 102 {
        Some(b - 87)
    } else if 65 <= b && b <= 70 {
        Some(b - 55)
    } else {
        None
    }
}

/// Reads a channel of two hex digits (see `hex_pair`).
fn hex_pair_of(b0: u8, b1: u8) -> (r: Option<u8>)
    ensures
        r == hex_pair(b0, b1),
{
    match (hex_digit_of(b0), hex_digit_of(b1)) {
        (Some(x), Some(y)) => Some(16 * x + y),
        _ => None,
    }
}

proof fn lemma_strip_hashes(s: Seq<char>, j: int)
    requires
        0 <= j <= s.len(),
        forall|i: int| 0 <= i < j ==> s[i] == '#',
    ensures
        strip_hashes(s) == strip_hashes(s.subrange(j, s.len() as int)),
    decreases j,
{
    if j > 0 {
        assert(s.drop_first().subrange(j - 1, s.drop_first().len() as int) =~= s.subrange(j, s.len() as int));
        lemma_strip_hashes(s.drop_first(), j - 1);
    } else {
        assert(s.subrange(0, s.len() as int) =~= s);
    }
}

fn component_error(name: &str, body: &str) -> (m: String)
    ensures
        m@ == component_message(name@, body@),
{
    let mut m = String::new();
    push_str(&mut m, "invalid hex color: bad ");
    push_str(&mut m, name);
    push_str(&mut m, " component in '");
    push_str(&mut m, body);
    push_str(&mut m, "'");
    assert(m@ =~= component_message(name@, body@));
    m
}

/// Parses a hex color (`"#2ecc71"` or `"2ecc71"`, surrounding whitespace
/// and leading `'#'`s ignored): six hex digits, two per channel; it
/// succeeds exactly on six hex digits.
pub fn parse_hex(s: &str) -> (r: Result<Rgb, String>)
    requires
        encode_utf8(hex_body(s@)).len() == 6 ==> is_char_boundary(encode_utf8(hex_body(s@)), 2) && is_char_boundary(
            encode_utf8(hex_body(s@)),
            4,
        ),
    ensures
        ({
            let t = hex_body(s@);
            let b = encode_utf8(t);
            &&& r is Ok <==> six_hex_digits(b)
            &&& match r {
                Ok(rgb) => b.len() == 6 && hex_pair(b[0], b[1]) == Some(rgb.r) && hex_pair(b[2], b[3]) == Some(rgb.g)
                    && hex_pair(b[4], b[5]) == Some(rgb.b),
                Err(e) => if b.len() != 6 {
                    e@ == length_message(b.len())
                } else if hex_pair(b[0], b[1]) is None {
                    e@ == component_message("red"@, t)
                } else if hex_pair(b[2], b[3]) is None {
                    e@ == component_message("green"@, t)
                } else {
                    hex_pair(b[4], b[5]) is None && e@ == component_message("blue"@, t)
                },
            }
        }),
{
    let t = str_trim(s);
    let n = t.unicode_len();
    let mut k: usize = 0;
    while k < n && t.get_char(k) == '#'
        invariant
            n == t@.len(),
            k <= n,
            forall|i: int| 0 <= i < k ==> t@[i] == '#',
        decreases n - k,
    {
        k = k + 1;
    }
    let body = t.substring_char(k, n);
    proof {
        lemma_strip_hashes(t@, k as int);
        assert(strip_hashes(body@) == body@);
    }
    let bytes = body.as_bytes();
    if bytes.len() != 6 {
        let mut m = String::new();
        push_str(&mut m, "invalid hex color: expected 6 characters, got ");
        let d = decimal(bytes.len() as u64);
        push_str(&mut m, d.as_str());
        return Err(m);
    }
    let r = match hex_pair_of(bytes[0], bytes[1]) {
        Some(v) => v,
        None => {
            return Err(component_error("red", body));
        },
    };
    let g = match hex_pair_of(bytes[2], bytes[3]) {
        Some(v) => v,
        None => {
            return Err(component_error("green", body));
        },
    };
    let b = match hex_pair_of(bytes[4], bytes[5]) {
        Some(v) => v,
        None => {
            return Err(component_error("blue", body));
        },
    };
    Ok(Rgb { r, g, b })
}

/// Whether `parse_hex` accepts a text without panicking: a body of six
/// bytes splits into pairs at character boundaries.
pub open spec fn hex_input_ok(s: Seq<char>) -> bool {
    encode_utf8(hex_body(s)).len() == 6 ==> is_char_boundary(encode_utf8(hex_body(s)), 2) && is_char_boundary(
        encode_utf8(hex_body(s)),
        4,
    )
}

/// The color a hex text names: six bytes, each pair a base-16 number.
pub open spec fn hex_rgb_spec(s: Seq<char>) -> Option<Rgb> {
    let b = encode_utf8(hex_body(s));
    if b.len() == 6 && hex_pair(b[0], b[1]) is Some && hex_pair(b[2], b[3]) is Some && hex_pair(b[4], b[5]) is Some {
        Some(Rgb { r: hex_pair(b[0], b[1])->0, g: hex_pair(b[2], b[3])->0, b: hex_pair(b[4], b[5])->0 })
    } else {
        None
    }
}

/// A terminal color: the terminal's default, one of the sixteen ANSI
/// colors, a palette index, or an RGB value.
#[derive(Debug, Clone, Copy, PartialEq, Eq, Structural)]
pub enum Color {
    Reset,
    Black,
    Red,
    Green,
    Yellow,
    Blue,
    Magenta,
    Cyan,
    Gray,
    DarkGray,
    LightRed,
    LightGreen,
    LightYellow,
    LightBlue,
    LightMagenta,
    LightCyan,
    White,
    Rgb(u8, u8, u8),
    Indexed(u8),
}

/// The color of an ANSI name, already in lowercase with `_` for `-`:
/// `default`, `reset` and `transparent` are the terminal's default; `gray`
/// and `grey`, `dark_gray` and its spellings, and `light_...` with or
/// without the underscore name the bright variants.
pub open spec fn ansi_name_spec(s: Seq<char>) -> Option<Color> {
    if s == "default"@ || s == "reset"@ || s == "transparent"@ {
        Some(Color::Reset)
    } else if s == "black"@ {
        Some(Color::Black)
    } else if s == "red"@ {
        Some(Color::Red)
    } else if s == "green"@ {
        Some(Color::Green)
    } else if s == "yellow"@ {
        Some(Color::Yellow)
    } else if s == "blue"@ {
        Some(Color::Blue)
    } else if s == "magenta"@ {
        Some(Color::Magenta)
    } else if s == "cyan"@ {
        Some(Color::Cyan)
    } else if s == "gray"@ || s == "grey"@ {
        Some(Color::Gray)
    } else if s == "dark_gray"@ || s == "dark_grey"@ || s == "darkgray"@ || s == "darkgrey"@ {
        Some(Color::DarkGray)
    } else if s == "light_red"@ || s == "lightred"@ {
        Some(Color::LightRed)
    } else if s == "light_green"@ || s == "lightgreen"@ {
        Some(Color::LightGreen)
    } else if s == "light_yellow"@ || s == "lightyellow"@ {
        Some(Color::LightYellow)
    } else if s == "light_blue"@ || s == "lightblue"@ {
        Some(Color::LightBlue)
    } else if s == "light_magenta"@ || s == "lightmagenta"@ {
        Some(Color::LightMagenta)
    } else if s == "light_cyan"@ || s == "lightcyan"@ {
        Some(Color::LightCyan)
    } else if s == "white"@ {
        Some(Color::White)
    } else {
        None
    }
}

/// The color of a normalized ANSI name (see `ansi_name_spec`).
pub fn ansi_color_for_name(s: &str) -> (r: Option<Color>)
    ensures
        r == ansi_name_spec(s@),
{
    if str_equals(s, "default") || str_equals(s, "reset") || str_equals(s, "transparent") {
        Some(Color::Reset)
    } else if str_equals(s, "black") {
        Some(Color::Black)
    } else if str_equals(s, "red") {
        Some(Color::Red)
    } else if str_equals(s, "green") {
        Some(Color::Green)
    } else if str_equals(s, "yellow") {
        Some(Color::Yellow)
    } else if str_equals(s, "blue") {
        Some(Color::Blue)
    } else if str_equals(s, "magenta") {
        Some(Color::Magenta)
    } else if str_equals(s, "cyan") {
        Some(Color::Cyan)
    } else if str_equals(s, "gray") || str_equals(s, "grey") {
        Some(Color::Gray)
    } else if str_equals(s, "dark_gray") || str_equals(s, "dark_grey") || str_equals(s, "darkgray") || str_equals(s, "darkgrey") {
        Some(Color::DarkGray)
    } else if str_equals(s, "light_red") || str_equals(s, "lightred") {
        Some(Color::LightRed)
    } else if str_equals(s, "light_green") || str_equals(s, "lightgreen") {
        Some(Color::LightGreen)
    } else if str_equals(s, "light_yellow") || str_equals(s, "lightyellow") {
        Some(Color::LightYellow)
    } else if str_equals(s, "light_blue") || str_equals(s, "lightblue") {
        Some(Color::LightBlue)
    } else if str_equals(s, "light_magenta") || str_equals(s, "lightmagenta") {
        Some(Color::LightMagenta)
    } else if str_equals(s, "light_cyan") || str_equals(s, "lightcyan") {
        Some(Color::LightCyan)
    } else if str_equals(s, "white") {
        Some(Color::White)
    } else {
        None
    }
}

/// A text with each `-` replaced by `_`.
pub open spec fn dashes_to_underscores(s: Seq<char>) -> Seq<char> {
    s.map_values(|c: char| if c == '-' { '_' } else { c })
}

/// A text with each `-` replaced by `_`.
fn replace_dashes(s: &str) -> (r: String)
    ensures
        r@ == dashes_to_underscores(s@),
{
    let n = s.unicode_len();
    let mut out = String::new();
    let mut i: usize = 0;
    while i < n
        invariant
            n == s@.len(),
            i <= n,
            out@ == dashes_to_underscores(s@.take(i as int)),
        decreases n - i,
    {
        let c = s.get_char(i);
        let d = if c == '-' {
            '_'
        } else {
            c
        };
        push_char(&mut out, d);
        assert(dashes_to_underscores(s@.take(i + 1)) =~= dashes_to_underscores(s@.take(i as int)).push(d));
        i = i + 1;
    }
    assert(s@.take(n as int) =~= s@);
    out
}

/// The color an ANSI name gives: the name in (Unicode) lowercase, `-` read
/// as `_`, looked up as `ansi_name_spec` says.
pub open spec fn parse_ansi_spec(name: Seq<char>) -> Option<Color> {
    ansi_name_spec(dashes_to_underscores(unicode_lowercase(name)))
}

/// The color of an ANSI name (see `parse_ansi_spec`).
pub fn parse_ansi_name(name: &str) -> (r: Option<Color>)
    ensures
        r == parse_ansi_spec(name@),
{
    let lower = str_to_lowercase(name);
    let normalized = replace_dashes(lower.as_str());
    ansi_color_for_name(normalized.as_str())
}

/// The RGB color of a parsed hex value.
pub open spec fn rgb_color(rgb: Option<Rgb>) -> Option<Color> {
    match rgb {
        Some(c) => Some(Color::Rgb(c.r, c.g, c.b)),
        None => None,
    }
}

/// The color of a hex text, where it parses.
fn hex_color(s: &str) -> (r: Option<Color>)
    requires
        hex_input_ok(s@),
    ensures
        r == rgb_color(hex_rgb_spec(s@)),
{
    match parse_hex(s) {
        Ok(rgb) => Some(Color::Rgb(rgb.r, rgb.g, rgb.b)),
        Err(_) => None,
    }
}

/// The color a theme value names, once trimmed: a defined name gives its
/// definition read as hex; else a value starting with `#` is read as hex;
/// else as an ANSI name. None where that fails.
pub open spec fn resolve_color_spec(value: Seq<char>, defs: Map<String, String>) -> Option<Color> {
    let v = trim_spec(value);
    match value_for_text(defs, v) {
        Some(h) => rgb_color(hex_rgb_spec(h)),
        None => if v.len() > 0 && v[0] == '#' {
            rgb_color(hex_rgb_spec(v))
        } else {
            parse_ansi_spec(v)
        },
    }
}

/// Whether resolving a value never splits a hex text inside a character:
/// the definition it names, or the value itself when it is hex, splits
/// cleanly.
pub open spec fn resolve_input_ok(value: Seq<char>, defs: Map<String, String>) -> bool {
    let v = trim_spec(value);
    match value_for_text(defs, v) {
        Some(h) => hex_input_ok(h),
        None => v.len() > 0 && v[0] == '#' ==> hex_input_ok(v),
    }
}

/// The color a theme value names (see `resolve_color_spec`).
pub fn resolve_color(value: &str, defs: &HashMap<String, String>) -> (r: Option<Color>)
    requires
        resolve_input_ok(value@, defs@),
    ensures
        r == resolve_color_spec(value@, defs@),
{
    let v = str_trim(value);
    if let Some(hex) = string_map_get(defs, v) {
        return hex_color(hex.as_str());
    }
    if v.unicode_len() > 0 && v.get_char(0) == '#' {
        return hex_color(v);
    }
    parse_ansi_name(v)
}

/// The color a theme value names, or the fallback.
pub fn resolve_color_or(value: &str, defs: &HashMap<String, String>, fallback: Color) -> (r: Color)
    requires
        resolve_input_ok(value@, defs@),
    ensures
        r == (match resolve_color_spec(value@, defs@) {
            Some(c) => c,
            None => fallback,
        }),
{
    match resolve_color(value, defs) {
        Some(c) => c,
        None => fallback,
    }
}

/// The RGB value of a color given as RGB; none for the named colors.
pub fn color_to_rgb(color: Color) -> (r: Option<Rgb>)
    ensures
        r == (match color {
            Color::Rgb(r, g, b) => Some(Rgb { r, g, b }),
            _ => None,
        }),
{
    match color {
        Color::Rgb(r, g, b) => Some(Rgb { r, g, b }),
        _ => None,
    }
}


/// The RGBA value a highlighter is given for a color: an RGB color as it
/// is, opaque; each named ANSI color by the xterm palette; the terminal
/// default and indexed colors as opaque white.
pub open spec fn color_rgba_spec(c: Color) -> (u8, u8, u8, u8) {
    match c {
        Color::Rgb(r, g, b) => (r, g, b, 0xFF),
        Color::Black => (0, 0, 0, 0xFF),
        Color::Red => (205, 0, 0, 0xFF),
        Color::Green => (0, 205, 0, 0xFF),
        Color::Yellow => (205, 205, 0, 0xFF),
        Color::Blue => (0, 0, 238, 0xFF),
        Color::Magenta => (205, 0, 205, 0xFF),
        Color::Cyan => (0, 205, 205, 0xFF),
        Color::Gray => (229, 229, 229, 0xFF),
        Color::DarkGray => (127, 127, 127, 0xFF),
        Color::LightRed => (255, 0, 0, 0xFF),
        Color::LightGreen => (0, 255, 0, 0xFF),
        Color::LightYellow => (255, 255, 0, 0xFF),
        Color::LightBlue => (92, 92, 255, 0xFF),
        Color::LightMagenta => (255, 0, 255, 0xFF),
        Color::LightCyan => (0, 255, 255, 0xFF),
        Color::White => (255, 255, 255, 0xFF),
        _ => (255, 255, 255, 0xFF),
    }
}

/// The RGBA value a highlighter is given for a color (see
/// `color_rgba_spec`).
pub fn color_rgba(c: Color) -> (r: (u8, u8, u8, u8))
    ensures
        r == color_rgba_spec(c),
{
    match c {
        Color::Rgb(r, g, b) => (r, g, b, 0xFF),
        Color::Black => (0, 0, 0, 0xFF),
        Color::Red => (205, 0, 0, 0xFF),
        Color::Green => (0, 205, 0, 0xFF),
        Color::Yellow => (205, 205, 0, 0xFF),
        Color::Blue => (0, 0, 238, 0xFF),
        Color::Magenta => (205, 0, 205, 0xFF),
        Color::Cyan => (0, 205, 205, 0xFF),
        Color::Gray => (229, 229, 229, 0xFF),
        Color::DarkGray => (127, 127, 127, 0xFF),
        Color::LightRed => (255, 0, 0, 0xFF),
        Color::LightGreen => (0, 255, 0, 0xFF),
        Color::LightYellow => (255, 255, 0, 0xFF),
        Color::LightBlue => (92, 92, 255, 0xFF),
        Color::LightMagenta => (255, 0, 255, 0xFF),
        Color::LightCyan => (0, 255, 255, 0xFF),
        Color::White => (255, 255, 255, 0xFF),
        _ => (255, 255, 255, 0xFF),
    }
}

} // verus!
