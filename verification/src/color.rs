//! Display colors for criteria.

use vstd::prelude::*;

verus! {

/// A lowercase hexadecimal digit.
pub open spec fn is_lower_hex_digit(c: char) -> bool {
    ('0' <= c && c <= '9') || ('a' <= c && c <= 'f')
}

/// A color written as `#rrggbb` with lowercase hexadecimal digits.
pub open spec fn is_hex_color(s: Seq<char>) -> bool {
    &&& s.len() == 7
    &&& s[0] == '#'
    &&& forall|i: int| 1 <= i < 7 ==> is_lower_hex_digit(#[trigger] s[i])
}

/// Draws a color from `random_color::RandomColor::new().to_hex()`.
///
/// Trusted: the generator formats three bytes as `#{:02x}{:02x}{:02x}`, so
/// every outcome is a `#` followed by six lowercase hexadecimal digits. Which
/// color comes out depends on the operating system's random source.
#[verifier::external_body]
fn draw_hex_color() -> (color: String)
    ensures
        is_hex_color(color@),
{
    random_color::RandomColor::new().to_hex()
}

/// A fresh display color for a criterion, as `#rrggbb`.
pub fn random_color() -> (color: String)
    ensures
        is_hex_color(color@),
{
    draw_hex_color()
}

} // verus!
