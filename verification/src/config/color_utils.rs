//! Color handling for palette entries and themed-color atoms: colors
//! written as `#hex`, `rgb(...)` or `hsl(...)` are rewritten into an
//! `rgba(r, g, b, opacity)` form whose opacity component references the
//! configured opacity CSS variable. A string that is no valid color passes
//! through unchanged.

use vstd::prelude::*;

use colorsys::ColorAlpha;

use crate::config::user::CssValue;
use crate::ordered_map::OrderedMap;
use crate::utils::str_eq;
use crate::{wrap_css_variable, wrapped_css_variable};

verus! {

/// What the color crate finds in a hex color string (without its `#`): the
/// decimal text of the red, green and blue channels, the decimal text of
/// the alpha channel, and whether the color is fully opaque.
pub uninterp spec fn hex_color_of(s: Seq<char>) -> Option<
    (Seq<char>, Seq<char>, Seq<char>, Seq<char>, bool),
>;

/// What the color crate finds in an `rgb(...)`/`rgba(...)` string.
pub uninterp spec fn rgb_color_of(s: Seq<char>) -> Option<
    (Seq<char>, Seq<char>, Seq<char>, Seq<char>, bool),
>;

/// What the color crate finds in an `hsl(...)`/`hsla(...)` string, after
/// conversion to RGB.
pub uninterp spec fn hsl_color_of(s: Seq<char>) -> Option<
    (Seq<char>, Seq<char>, Seq<char>, Seq<char>, bool),
>;

/// Relies on `colorsys::Rgb::from_hex_str` and the channel getters `red`,
/// `green`, `blue` and `ColorAlpha::alpha`: parses a hex color string and
/// hands each channel back as decimal text, with whether alpha reads as 1.
#[verifier::external_body]
fn parse_hex_color(s: &str) -> (r: Option<(String, String, String, String, bool)>)
    ensures
        r is Some <==> hex_color_of(s@) is Some,
        r matches Some(t) ==> hex_color_of(s@) == Some((t.0@, t.1@, t.2@, t.3@, t.4)),
{
    match colorsys::Rgb::from_hex_str(s) {
        Ok(rgb) => {
            let alpha = rgb.alpha().to_string();
            let opaque = alpha == "1";
            Some((rgb.red().to_string(), rgb.green().to_string(), rgb.blue().to_string(), alpha, opaque))
        },
        Err(_) => None,
    }
}

/// Relies on `colorsys::Rgb`'s `FromStr` and the same channel getters:
/// parses an `rgb(...)`/`rgba(...)` string.
#[verifier::external_body]
fn parse_rgb_color(s: &str) -> (r: Option<(String, String, String, String, bool)>)
    ensures
        r is Some <==> rgb_color_of(s@) is Some,
        r matches Some(t) ==> rgb_color_of(s@) == Some((t.0@, t.1@, t.2@, t.3@, t.4)),
{
    match <colorsys::Rgb as core::str::FromStr>::from_str(s) {
        Ok(rgb) => {
            let alpha = rgb.alpha().to_string();
            let opaque = alpha == "1";
            Some((rgb.red().to_string(), rgb.green().to_string(), rgb.blue().to_string(), alpha, opaque))
        },
        Err(_) => None,
    }
}

/// Relies on `colorsys::Hsl`'s `FromStr` and `Rgb::from(Hsl)`: parses an
/// `hsl(...)`/`hsla(...)` string and converts it to RGB.
#[verifier::external_body]
fn parse_hsl_color(s: &str) -> (r: Option<(String, String, String, String, bool)>)
    ensures
        r is Some <==> hsl_color_of(s@) is Some,
        r matches Some(t) ==> hsl_color_of(s@) == Some((t.0@, t.1@, t.2@, t.3@, t.4)),
{
    match <colorsys::Hsl as core::str::FromStr>::from_str(s) {
        Ok(hsl) => {
            let rgb = colorsys::Rgb::from(hsl);
            let alpha = rgb.alpha().to_string();
            let opaque = alpha == "1";
            Some((rgb.red().to_string(), rgb.green().to_string(), rgb.blue().to_string(), alpha, opaque))
        },
        Err(_) => None,
    }
}

/// Whether `s` begins with the three characters `a`, `b`, `c`.
pub open spec fn starts_with3(s: Seq<char>, a: char, b: char, c: char) -> bool {
    s.len() >= 3 && s[0] == a && s[1] == b && s[2] == c
}

/// The parsed channels of a color string, dispatching on its prefix the
/// way the configuration loader does: `#` means hex, `rgb` and `hsl` name
/// their own notations, anything else is no color.
pub open spec fn parsed_color_of(value: Seq<char>) -> Option<
    (Seq<char>, Seq<char>, Seq<char>, Seq<char>, bool),
> {
    if value.len() > 0 && value[0] == '#' {
        hex_color_of(value.drop_first())
    } else if starts_with3(value, 'r', 'g', 'b') {
        rgb_color_of(value)
    } else if starts_with3(value, 'h', 's', 'l') {
        hsl_color_of(value)
    } else {
        None
    }
}

/// The opacity component: the wrapped opacity variable, multiplied by the
/// parsed alpha when the color is not fully opaque.
pub open spec fn spec_alpha_expr(alpha: Seq<char>, opaque: bool, opacity: Seq<char>) -> Seq<char> {
    if opaque {
        wrapped_css_variable(opacity)
    } else {
        "calc("@ + alpha + " * "@ + wrapped_css_variable(opacity) + ")"@
    }
}

/// A color string rewritten to `rgba(r, g, b, opacity)` form; a string
/// that parses as no color passes through unchanged.
pub open spec fn spec_rgba_color(value: Seq<char>, opacity: Seq<char>) -> Seq<char> {
    match parsed_color_of(value) {
        Some(t) => "rgba("@ + t.0 + ", "@ + t.1 + ", "@ + t.2 + ", "@ + spec_alpha_expr(
            t.3,
            t.4,
            opacity,
        ) + ")"@,
        None => value,
    }
}

/// Rewrite a color string into `rgba(...)` form with the opacity slot
/// referencing the given CSS variable; return the string unchanged when it
/// is no valid color.
pub fn get_rgba_color_from_string(value: &str, opacity: &str) -> (r: String)
    ensures
        r@ == spec_rgba_color(value@, opacity@),
{
    let n = value.unicode_len();
    let parsed: Option<(String, String, String, String, bool)> = if n > 0 && value.get_char(0)
        == '#' {
        let stripped = value.substring_char(1, n);
        proof {
            assert(stripped@ =~= value@.drop_first());
        }
        parse_hex_color(stripped)
    } else if n >= 3 && value.get_char(0) == 'r' && value.get_char(1) == 'g' && value.get_char(2)
        == 'b' {
        parse_rgb_color(value)
    } else if n >= 3 && value.get_char(0) == 'h' && value.get_char(1) == 's' && value.get_char(2)
        == 'l' {
        parse_hsl_color(value)
    } else {
        None
    };
    match parsed {
        Some(t) => {
            let wrapped = wrap_css_variable(opacity);
            let mut out = String::from_str("rgba(");
            out.append(t.0.as_str());
            out.append(", ");
            out.append(t.1.as_str());
            out.append(", ");
            out.append(t.2.as_str());
            out.append(", ");
            if t.4 {
                out.append(wrapped.as_str());
            } else {
                out.append("calc(");
                out.append(t.3.as_str());
                out.append(" * ");
                out.append(wrapped.as_str());
                out.append(")");
            }
            out.append(")");
            proof {
                assert(out@ =~= spec_rgba_color(value@, opacity@));
            }
            out
        },
        None => value.to_owned(),
    }
}

/// The palette lookup that precedes the rgba rewrite: a value equal to a
/// palette key is replaced by that palette entry.
pub open spec fn palette_resolved(
    value: Seq<char>,
    palette: Seq<(String, String)>,
) -> Seq<char> {
    match crate::ordered_map::find_key(palette, value) {
        Some(i) => palette[i].1@,
        None => value,
    }
}

/// Convert a configured color value to its CSS form: resolve it through
/// the palette, then rewrite it to `rgba(...)`.
pub fn convert_css_value_to_color(
    original: &CssValue,
    palette: &OrderedMap<String>,
    opacity: &str,
) -> (r: String)
    ensures
        r@ == spec_rgba_color(palette_resolved(original.spec_get_string(), palette@), opacity@),
{
    let string_value = original.get_string();
    match palette.get(string_value.as_str()) {
        Some(derived) => get_rgba_color_from_string(derived.as_str(), opacity),
        None => get_rgba_color_from_string(string_value.as_str(), opacity),
    }
}

} // verus!
