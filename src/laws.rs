//! What holds of color codes that are written from numbers: every 24-bit
//! value, written in hex, parses back to itself.

use crate::hex::{
    all_hex, blue_start, digit_value, green_start, hex_number, is_hex_digit, parse_spec,
    stripped, trim_end, trim_start, ParseError, Rgb, DIGIT_0, HASH, LOWER_A,
};
use vstd::prelude::*;

verus! {

/// The lowercase hex digit for `v`, below sixteen.
pub open spec fn lower_hex_digit(v: nat) -> u8 {
    if v < 10 {
        (DIGIT_0 + v) as u8
    } else {
        (LOWER_A + v - 10) as u8
    }
}

/// `i` in lowercase hex, without leading zeros (zero is `0`).
pub open spec fn lower_hex(i: nat) -> Seq<u8>
    decreases i,
{
    if i < 16 {
        seq![lower_hex_digit(i)]
    } else {
        lower_hex(i / 16).push(lower_hex_digit(i % 16))
    }
}

/// `i` in lowercase hex, padded with zeros on the left to six digits.
pub open spec fn padded_hex(i: nat) -> Seq<u8> {
    Seq::new((6 - lower_hex(i).len()) as nat, |k: int| DIGIT_0) + lower_hex(i)
}

/// Sixteen to the power `n`.
pub open spec fn pow16(n: nat) -> nat
    decreases n,
{
    if n == 0 {
        1
    } else {
        16 * pow16((n - 1) as nat)
    }
}

/// Three components taken together as one 24-bit number, red highest.
pub open spec fn rgb_value(red: u8, green: u8, blue: u8) -> nat {
    red as nat * 65536 + green as nat * 256 + blue as nat
}

proof fn lemma_hex_number_concat(a: Seq<u8>, b: Seq<u8>)
    ensures
        hex_number(a + b) == hex_number(a) * pow16(b.len()) + hex_number(b),
    decreases b.len(),
{
    if b.len() == 0 {
        assert(a + b =~= a);
        assert(pow16(0) == 1);
    } else {
        let b1 = b.drop_last();
        assert(pow16(b.len()) == 16 * pow16(b1.len()));
        assert((a + b).drop_last() =~= a + b1);
        assert((a + b).last() == b.last());
        lemma_hex_number_concat(a, b1);
        let x = hex_number(a);
        let p = pow16(b1.len());
        let y = hex_number(b1);
        assert((x * p + y) * 16 + digit_value(b.last()) == x * (16 * p) + (y * 16 + digit_value(
            b.last(),
        ))) by (nonlinear_arith);
    }
}

proof fn lemma_hex_number_bound(s: Seq<u8>)
    ensures
        hex_number(s) < pow16(s.len()),
    decreases s.len(),
{
    if s.len() > 0 {
        lemma_hex_number_bound(s.drop_last());
        let y = hex_number(s.drop_last());
        let p = pow16(s.drop_last().len());
        assert(digit_value(s.last()) < 16);
        assert(y * 16 + digit_value(s.last()) < 16 * p) by (nonlinear_arith)
            requires
                y < p,
                digit_value(s.last()) < 16,
        ;
    }
}

proof fn lemma_zeros(n: nat)
    ensures
        hex_number(Seq::new(n, |k: int| DIGIT_0)) == 0,
        all_hex(Seq::new(n, |k: int| DIGIT_0)),
    decreases n,
{
    let z = Seq::new(n, |k: int| DIGIT_0);
    if n > 0 {
        assert(z.drop_last() =~= Seq::new((n - 1) as nat, |k: int| DIGIT_0));
        lemma_zeros((n - 1) as nat);
    }
}

proof fn lemma_lower_hex(i: nat)
    ensures
        lower_hex(i).len() >= 1,
        all_hex(lower_hex(i)),
        forall|k: int| 0 <= k < lower_hex(i).len() ==> #[trigger] lower_hex(i)[k] != HASH,
        hex_number(lower_hex(i)) == i,
    decreases i,
{
    let s = lower_hex(i);
    assert(digit_value(lower_hex_digit(i % 16)) == i % 16);
    assert(is_hex_digit(lower_hex_digit(i % 16)));
    if i < 16 {
        assert(s.drop_last() =~= Seq::<u8>::empty());
        assert(hex_number(Seq::<u8>::empty()) == 0);
    } else {
        assert(i == (i / 16) * 16 + i % 16) by (nonlinear_arith);
        lemma_lower_hex(i / 16);
        assert(s.drop_last() =~= lower_hex(i / 16));
        assert forall|k: int| 0 <= k < s.len() implies is_hex_digit(#[trigger] s[k]) && s[k]
            != HASH by {
            if k < s.len() - 1 {
                assert(s[k] == lower_hex(i / 16)[k]);
            }
        }
    }
}

proof fn lemma_lower_hex_len(i: nat, k: nat)
    requires
        1 <= k,
        i < pow16(k),
    ensures
        lower_hex(i).len() <= k,
    decreases i,
{
    if i >= 16 {
        assert(pow16(1) == 16) by {
            assert(pow16(0) == 1);
        }
        assert(k >= 2);
        let p = pow16((k - 1) as nat);
        assert(i / 16 < p) by (nonlinear_arith)
            requires
                i < 16 * p,
        ;
        lemma_lower_hex_len(i / 16, (k - 1) as nat);
    }
}

proof fn lemma_stripped_plain(d: Seq<u8>)
    requires
        d.len() >= 1,
        forall|k: int| 0 <= k < d.len() ==> #[trigger] d[k] != HASH,
    ensures
        stripped(seq![HASH] + d) == d,
{
    let s = seq![HASH] + d;
    assert(s.drop_first() =~= d);
    assert(trim_start(d) == d);
    assert(trim_end(d) == d);
}

/// The components that `parse_spec` reads from at most six hex digits write,
/// together, the number that the digits write.
proof fn lemma_parse_digits(s: Seq<u8>)
    requires
        stripped(s).len() <= 6,
        all_hex(stripped(s)),
    ensures
        parse_spec(s) matches Ok(c) && rgb_value(c.red, c.green, c.blue) == hex_number(
            stripped(s),
        ),
{
    let d = stripped(s);
    let n = d.len();
    let g = green_start(n);
    let b = blue_start(n);
    let rs = d.subrange(0, g);
    let gs = d.subrange(g, b);
    let bs = d.subrange(b, n as int);
    assert(pow16(0) == 1);
    assert(pow16(1) == 16);
    assert(pow16(2) == 256);
    assert(d =~= (rs + gs) + bs);
    lemma_hex_number_concat(rs + gs, bs);
    lemma_hex_number_concat(rs, gs);
    lemma_hex_number_bound(rs);
    lemma_hex_number_bound(gs);
    lemma_hex_number_bound(bs);
    let r = hex_number(rs);
    let gv = hex_number(gs);
    let bv = hex_number(bs);
    if n <= 2 {
        assert(rs.len() == 0 && gs.len() == 0);
        assert(r == 0 && gv == 0);
    } else if n <= 4 {
        assert(rs.len() == 0 && bs.len() == 2);
        assert(r == 0);
    } else {
        assert(gs.len() == 2 && bs.len() == 2);
    }
    assert(hex_number(d) == (r * pow16(gs.len()) + gv) * pow16(bs.len()) + bv);
    assert(r < 256 && gv < 256 && bv < 256);
    let c = Rgb { red: r as u8, green: gv as u8, blue: bv as u8 };
    assert(parse_spec(s) == Ok::<Rgb, ParseError>(c));
    assert(rgb_value(c.red, c.green, c.blue) == r * 65536 + gv * 256 + bv);
    assert(hex_number(d) == r * 65536 + gv * 256 + bv) by (nonlinear_arith)
        requires
            hex_number(d) == (r * pow16(gs.len()) + gv) * pow16(bs.len()) + bv,
            r == 0 || (gs.len() == 2 && bs.len() == 2),
            gv == 0 || bs.len() == 2,
            pow16(0) == 1,
            pow16(1) == 16,
            pow16(2) == 256,
            bs.len() <= 2,
            gs.len() <= 2,
    ;
}

/// Any value of at most 24 bits, written as `#` and its lowercase hex digits
/// without leading zeros, parses to components that together write it.
pub proof fn law_round_trip(i: nat)
    requires
        i <= 0xFFFFFF,
    ensures
        parse_spec(seq![HASH] + lower_hex(i)) matches Ok(c) && rgb_value(c.red, c.green, c.blue)
            == i,
{
    let d = lower_hex(i);
    lemma_lower_hex(i);
    assert(pow16(6) == 0x1000000) by {
        assert(pow16(0) == 1);
        assert(pow16(1) == 16);
        assert(pow16(2) == 256);
        assert(pow16(3) == 4096);
        assert(pow16(4) == 65536);
        assert(pow16(5) == 1048576);
    }
    lemma_lower_hex_len(i, 6);
    lemma_stripped_plain(d);
    lemma_parse_digits(seq![HASH] + d);
}

/// Any value of at most 24 bits, written as `#` and six lowercase hex digits,
/// zeros on the left, parses to components that together write it.
pub proof fn law_padded_round_trip(i: nat)
    requires
        i <= 0xFFFFFF,
    ensures
        parse_spec(seq![HASH] + padded_hex(i)) matches Ok(c) && rgb_value(
            c.red,
            c.green,
            c.blue,
        ) == i,
{
    let x = lower_hex(i);
    lemma_lower_hex(i);
    assert(pow16(6) == 0x1000000) by {
        assert(pow16(0) == 1);
        assert(pow16(1) == 16);
        assert(pow16(2) == 256);
        assert(pow16(3) == 4096);
        assert(pow16(4) == 65536);
        assert(pow16(5) == 1048576);
    }
    lemma_lower_hex_len(i, 6);
    let z = Seq::new((6 - x.len()) as nat, |k: int| DIGIT_0);
    let d = padded_hex(i);
    lemma_zeros((6 - x.len()) as nat);
    lemma_hex_number_concat(z, x);
    assert forall|k: int| 0 <= k < d.len() implies is_hex_digit(#[trigger] d[k]) && d[k]
        != HASH by {
        if k >= z.len() {
            assert(d[k] == x[k - z.len()]);
        } else {
            assert(d[k] == z[k]);
        }
    }
    assert(d.len() == 6);
    assert(all_hex(d));
    assert(hex_number(d) == i);
    lemma_stripped_plain(d);
    lemma_parse_digits(seq![HASH] + d);
}

} // verus!
