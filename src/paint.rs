//! Terminal rendering of text in a 24-bit foreground color.

use crate::hex::Rgb;
use vstd::prelude::*;

verus! {

/// The decimal digit `d` as a character.
pub open spec fn decimal_digit(d: nat) -> char {
    ((d + 48) as u8) as char
}

/// `n` written in decimal, without leading zeros.
pub open spec fn decimal(n: nat) -> Seq<char>
    decreases n,
{
    if n < 10 {
        seq![decimal_digit(n)]
    } else {
        decimal(n / 10).push(decimal_digit(n % 10))
    }
}

/// The escape sequence that selects `c` as the foreground color.
pub open spec fn color_prefix(c: Rgb) -> Seq<char> {
    seq!['\u{1b}', '[', '3', '8', ';', '2', ';'] + decimal(c.red as nat) + seq![';'] + decimal(
        c.green as nat,
    ) + seq![';'] + decimal(c.blue as nat) + seq!['m']
}

/// The escape sequence that resets all styles.
pub open spec fn reset_suffix() -> Seq<char> {
    seq!['\u{1b}', '[', '0', 'm']
}

/// `text` as it reads on a terminal in the foreground color `c`.
pub open spec fn painted(c: Rgb, text: Seq<char>) -> Seq<char> {
    color_prefix(c) + text + reset_suffix()
}

/// Relies on ansi_term's `Colour::RGB(..).paint(text)` and its `Display`: a
/// style with only a foreground color writes `ESC[38;2;<r>;<g>;<b>m` with each
/// component in decimal, then the text, then the reset code `ESC[0m`.
#[verifier::external_body]
pub(crate) fn paint(c: Rgb, text: &str) -> (r: String)
    ensures
        r@ == painted(c, text@),
{
    ansi_term::Colour::RGB(c.red, c.green, c.blue).paint(text).to_string()
}

} // verus!
