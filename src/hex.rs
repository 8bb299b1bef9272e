//! Parsing of hex color codes of zero to six digits into RGB triples.

use vstd::prelude::*;
use vstd::string::StringSliceAdditionalSpecFns;

verus! {

/// A color as three 8-bit components.
#[derive(Clone, Copy, Debug, PartialEq, Eq, Structural)]
pub struct Rgb {
    pub red: u8,
    pub green: u8,
    pub blue: u8,
}

/// Why a color code was rejected.
#[derive(Clone, Copy, Debug, PartialEq, Eq, Structural)]
pub enum ParseError {
    /// A character of the code is not a hex digit.
    InvalidDigits,
    /// More than six characters remain once the `#` delimiters are stripped.
    TooLong,
}

/// The byte `#`, which delimits color codes.
pub const HASH: u8 = 35;

/// The bytes `0`, `9`, `a`, `f`, `A` and `F`, which bound the hex digits.
pub const DIGIT_0: u8 = 48;
pub const DIGIT_9: u8 = 57;
pub const LOWER_A: u8 = 97;
pub const LOWER_F: u8 = 102;
pub const UPPER_A: u8 = 65;
pub const UPPER_F: u8 = 70;

/// The longest input that a color code may have, `#` delimiters aside.
pub const MAX_DIGITS: usize = 6;

/// `s` with its leading `#` characters removed.
pub open spec fn trim_start(s: Seq<u8>) -> Seq<u8>
    decreases s.len(),
{
    if s.len() > 0 && s[0] == HASH {
        trim_start(s.drop_first())
    } else {
        s
    }
}

/// `s` with its trailing `#` characters removed.
pub open spec fn trim_end(s: Seq<u8>) -> Seq<u8>
    decreases s.len(),
{
    if s.len() > 0 && s.last() == HASH {
        trim_end(s.drop_last())
    } else {
        s
    }
}

/// The digits of a color code: `s` without its leading and trailing `#`.
pub open spec fn stripped(s: Seq<u8>) -> Seq<u8> {
    trim_end(trim_start(s))
}

pub open spec fn is_hex_digit(c: u8) -> bool {
    (DIGIT_0 <= c <= DIGIT_9) || (LOWER_A <= c <= LOWER_F) || (UPPER_A <= c <= UPPER_F)
}

/// The value of a hex digit, in either case.
pub open spec fn digit_value(c: u8) -> nat {
    if DIGIT_0 <= c <= DIGIT_9 {
        (c - DIGIT_0) as nat
    } else if LOWER_A <= c <= LOWER_F {
        (c - LOWER_A + 10) as nat
    } else if UPPER_A <= c <= UPPER_F {
        (c - UPPER_A + 10) as nat
    } else {
        0
    }
}

pub open spec fn all_hex(s: Seq<u8>) -> bool {
    forall|i: int| 0 <= i < s.len() ==> is_hex_digit(#[trigger] s[i])
}

/// The number that the hex digits `s` write, most significant first; zero for
/// no digits.
pub open spec fn hex_number(s: Seq<u8>) -> nat
    decreases s.len(),
{
    if s.len() == 0 {
        0
    } else {
        hex_number(s.drop_last()) * 16 + digit_value(s.last())
    }
}

/// Where the green digits of `n` stripped digits begin: the red ones are the
/// one or two that precede the last four.
pub open spec fn green_start(n: nat) -> int {
    if n > 4 {
        n - 4
    } else {
        0
    }
}

/// Where the blue digits of `n` stripped digits begin: the last two, or all.
pub open spec fn blue_start(n: nat) -> int {
    if n > 2 {
        n - 2
    } else {
        0
    }
}

/// What a color code means. The blue component is read from the last two
/// digits, green from the two before them, red from what is left; a missing
/// component is zero, so that no digits at all give black.
pub open spec fn parse_spec(s: Seq<u8>) -> Result<Rgb, ParseError> {
    let d = stripped(s);
    let n = d.len();
    if n > 6 {
        Err(ParseError::TooLong)
    } else if !all_hex(d) {
        Err(ParseError::InvalidDigits)
    } else {
        Ok(
            Rgb {
                red: hex_number(d.subrange(0, green_start(n))) as u8,
                green: hex_number(d.subrange(green_start(n), blue_start(n))) as u8,
                blue: hex_number(d.subrange(blue_start(n), n as int)) as u8,
            },
        )
    }
}

/// The value of one hex digit, or `None` for any other byte.
pub fn hex_digit(c: u8) -> (r: Option<u8>)
    ensures
        r is Some <==> is_hex_digit(c),
        r matches Some(v) ==> v as nat == digit_value(c) && v < 16,
{
    if DIGIT_0 <= c && c <= DIGIT_9 {
        Some(c - DIGIT_0)
    } else if LOWER_A <= c && c <= LOWER_F {
        Some(c - LOWER_A + 10)
    } else if UPPER_A <= c && c <= UPPER_F {
        Some(c - UPPER_A + 10)
    } else {
        None
    }
}

/// The bounds of the digits of `b` once its `#` delimiters are stripped.
fn strip_bounds(b: &[u8]) -> (r: (usize, usize))
    ensures
        r.0 <= r.1 <= b@.len(),
        b@.subrange(r.0 as int, r.1 as int) == stripped(b@),
{
    let len = b.len();
    let mut i: usize = 0;
    assert(b@.subrange(0, len as int) =~= b@);
    while i < len && b[i] == HASH
        invariant
            i <= len == b@.len(),
            trim_start(b@) == trim_start(b@.subrange(i as int, len as int)),
        decreases len - i,
    {
        assert(b@.subrange(i as int, len as int).drop_first() =~= b@.subrange(
            i + 1,
            len as int,
        ));
        i = i + 1;
    }
    assert(trim_start(b@) == b@.subrange(i as int, len as int));
    let mut j: usize = len;
    while j > i && b[j - 1] == HASH
        invariant
            i <= j <= len == b@.len(),
            trim_start(b@) == b@.subrange(i as int, len as int),
            stripped(b@) == trim_end(b@.subrange(i as int, j as int)),
        decreases j,
    {
        assert(b@.subrange(i as int, j as int).drop_last() =~= b@.subrange(
            i as int,
            j - 1,
        ));
        j = j - 1;
    }
    (i, j)
}

/// The value of the one or two hex digits `b[lo..hi]`.
fn segment_value(b: &[u8], lo: usize, hi: usize) -> (v: u8)
    requires
        lo <= hi <= b@.len(),
        hi - lo <= 2,
        all_hex(b@.subrange(lo as int, hi as int)),
    ensures
        v as nat == hex_number(b@.subrange(lo as int, hi as int)),
{
    let mut acc: u8 = 0;
    let mut i: usize = lo;
    while i < hi
        invariant
            lo <= i <= hi <= b@.len(),
            hi - lo <= 2,
            all_hex(b@.subrange(lo as int, hi as int)),
            acc as nat == hex_number(b@.subrange(lo as int, i as int)),
            i == lo ==> acc == 0,
            i == lo + 1 ==> acc < 16,
        decreases hi - i,
    {
        assert(is_hex_digit(b@.subrange(lo as int, hi as int)[i - lo]));
        let d = hex_digit(b[i]);
        let dv = match d {
            Some(v) => v,
            None => 0,
        };
        assert(b@.subrange(lo as int, i + 1).drop_last() =~= b@.subrange(lo as int, i as int));
        acc = acc * 16 + dv;
        i = i + 1;
    }
    acc
}

/// Parses a color code of up to six hex digits, in either case, between any
/// number of leading and trailing `#` characters.
pub fn parse(color: &str) -> (r: Result<Rgb, ParseError>)
    ensures
        r == parse_spec(color.spec_bytes()),
{
    let b = color.as_bytes();
    let (lo, hi) = strip_bounds(b);
    let ghost d = b@.subrange(lo as int, hi as int);
    if hi - lo > MAX_DIGITS {
        return Err(ParseError::TooLong);
    }
    let mut i: usize = lo;
    while i < hi
        invariant
            lo <= i <= hi <= b@.len(),
            d == b@.subrange(lo as int, hi as int),
            d == stripped(color.spec_bytes()),
            hi - lo <= MAX_DIGITS,
            forall|k: int| lo <= k < i ==> is_hex_digit(#[trigger] b@[k]),
        decreases hi - i,
    {
        if hex_digit(b[i]).is_none() {
            assert(d[i - lo] == b@[i as int]);
            assert(!is_hex_digit(d[i - lo]));
            assert(!all_hex(d));
            return Err(ParseError::InvalidDigits);
        }
        i = i + 1;
    }
    assert(all_hex(d)) by {
        assert forall|k: int| 0 <= k < d.len() implies is_hex_digit(#[trigger] d[k]) by {
            assert(d[k] == b@[lo + k]);
        }
    }
    let n = hi - lo;
    let g = if n > 4 { hi - 4 } else { lo };
    let s = if n > 2 { hi - 2 } else { lo };
    assert forall|x: int, y: int| lo <= x <= y <= hi implies all_hex(
        #[trigger] b@.subrange(x, y),
    ) by {
        assert forall|k: int| 0 <= k < y - x implies is_hex_digit(
            #[trigger] b@.subrange(x, y)[k],
        ) by {
            assert(b@.subrange(x, y)[k] == d[x - lo + k]);
        }
    }
    assert(d.subrange(0, green_start(n as nat)) =~= b@.subrange(lo as int, g as int));
    assert(d.subrange(green_start(n as nat), blue_start(n as nat)) =~= b@.subrange(
        g as int,
        s as int,
    ));
    assert(d.subrange(blue_start(n as nat), n as int) =~= b@.subrange(s as int, hi as int));
    let red = segment_value(b, lo, g);
    let green = segment_value(b, g, s);
    let blue = segment_value(b, s, hi);
    Ok(Rgb { red, green, blue })
}

} // verus!
