//! Human-readable file sizes.

use vstd::prelude::*;
use vstd::arithmetic::div_mod::{
    lemma_fundamental_div_mod_converse_div, lemma_fundamental_div_mod_converse_mod,
};
use crate::text::text_of;

verus! {

/// `2` to the power `s`.
pub open spec fn two_to(s: nat) -> nat
    decreases s,
{
    if s == 0 {
        1
    } else {
        2 * two_to((s - 1) as nat)
    }
}

/// The smallest number of halvings that brings `b` below `2^53`: how many
/// low bits a 64-bit float drops from `b`.
pub open spec fn float_shift(b: nat) -> nat
    decreases b,
{
    if b < 0x20_0000_0000_0000 {
        0
    } else {
        1 + float_shift(b / 2)
    }
}

/// `n / d` rounded to the nearest integer, halves to the even neighbour.
pub open spec fn round_half_even(n: nat, d: nat) -> nat {
    let q = n / d;
    let r = n % d;
    if 2 * r > d || (2 * r == d && q % 2 == 1) {
        q + 1
    } else {
        q
    }
}

/// The value of the 64-bit float nearest to `b` (ties to even), which is
/// what converting an integer to a float gives.
pub open spec fn as_float(b: nat) -> nat {
    let s = float_shift(b);
    round_half_even(b, two_to(s)) * two_to(s)
}

/// How many times a size is divided by 1024 before it is printed.
pub open spec fn size_unit(f: nat) -> nat {
    if f >= 0x4000_0000 {
        3
    } else if f >= 0x10_0000 {
        2
    } else if f >= 0x400 {
        1
    } else {
        0
    }
}

/// `1024` to the power `unit`.
pub open spec fn unit_scale(unit: nat) -> nat {
    if unit == 3 {
        0x4000_0000
    } else if unit == 2 {
        0x10_0000
    } else if unit == 1 {
        0x400
    } else {
        1
    }
}

/// The name of the unit after `unit` divisions by 1024.
pub open spec fn unit_label(unit: nat) -> Seq<char> {
    if unit == 3 {
        "GiB"@
    } else if unit == 2 {
        "MiB"@
    } else if unit == 1 {
        "KiB"@
    } else {
        "B"@
    }
}

/// The decimal digit for `d < 10`.
pub open spec fn digit(d: nat) -> char {
    (48 + d) as char
}

/// The decimal representation of `n`, without leading zeros.
pub open spec fn decimal(n: nat) -> Seq<char>
    decreases n,
{
    if n < 10 {
        seq![digit(n)]
    } else {
        decimal(n / 10) + seq![digit(n % 10)]
    }
}

/// The report for a size of `bytes`: the exact count in bytes below 1 KiB;
/// otherwise the size (as a 64-bit float) in the largest of KiB, MiB and GiB
/// it reaches, with one decimal rounded half to even.
pub open spec fn human_size_spec(bytes: u64) -> Seq<char> {
    let f = as_float(bytes as nat);
    let unit = size_unit(f);
    if unit == 0 {
        decimal(bytes as nat) + " B"@
    } else {
        let tenths = round_half_even(10 * f, unit_scale(unit));
        decimal(tenths / 10) + "."@ + decimal(tenths % 10) + " "@ + unit_label(unit)
    }
}

/// The decimal digits of `n`.
pub fn decimal_chars(n: u128) -> (digits: Vec<char>)
    ensures
        digits@ == decimal(n as nat),
    decreases n,
{
    if n < 10 {
        let d = ((n as u8) + 48) as char;
        assert(d == digit(n as nat));
        vec![d]
    } else {
        let mut digits = decimal_chars(n / 10);
        let d = (((n % 10) as u8) + 48) as char;
        assert(d == digit((n % 10) as nat));
        digits.push(d);
        digits
    }
}

/// `n / d` rounded to the nearest integer, halves to the even neighbour.
fn round_half_even_exec(n: u128, d: u128) -> (rounded: u128)
    requires
        d > 0,
        n < 0x100_0000_0000_0000_0000,
    ensures
        rounded == round_half_even(n as nat, d as nat),
{
    let q = n / d;
    let r = n % d;
    if r > d - r || (r == d - r && q % 2 == 1) {
        q + 1
    } else {
        q
    }
}

/// The value of the float nearest to `bytes`.
fn as_float_exec(bytes: u64) -> (f: u128)
    ensures
        f == as_float(bytes as nat),
        f <= 0x2_0000_0000_0000_0000,
{
    let b = bytes as u128;
    let mut x: u128 = b;
    let mut p: u128 = 1;
    let mut s: u64 = 0;
    while x >= 0x20_0000_0000_0000
        invariant
            p == two_to(s as nat),
            p >= 1,
            p * x <= b,
            b < p * x + p,
            b == bytes as u128,
            float_shift(b as nat) == s + float_shift(x as nat),
            s < p,
            p <= b + 1,
        decreases x,
    {
        let half = x / 2;
        proof {
            assert((2 * p) * half <= p * x) by (nonlinear_arith)
                requires
                    half == x / 2,
                    p >= 1,
            ;
            assert(p * x + p <= (2 * p) * half + 2 * p) by (nonlinear_arith)
                requires
                    half == x / 2,
                    p >= 1,
            ;
            assert(p * x >= p * 0x20_0000_0000_0000) by (nonlinear_arith)
                requires
                    x >= 0x20_0000_0000_0000,
                    p >= 1,
            ;
        }
        x = half;
        p = 2 * p;
        s = s + 1;
    }
    proof {
        assert(b == x * p + (b - p * x)) by (nonlinear_arith)
            requires
                p * x <= b,
        ;
        lemma_fundamental_div_mod_converse_div(b as int, p as int, x as int, (b - p * x) as int);
        lemma_fundamental_div_mod_converse_mod(b as int, p as int, x as int, (b - p * x) as int);
        assert(float_shift(x as nat) == 0);
    }
    let r = b - p * x;
    let q = if r > p - r || (r == p - r && x % 2 == 1) {
        x + 1
    } else {
        x
    };
    assert(q == round_half_even(b as nat, p as nat));
    assert(q * p <= b + p) by (nonlinear_arith)
        requires
            p * x <= b,
            q == x || q == x + 1,
            p >= 1,
    ;
    q * p
}

/// The size of `bytes` for a person to read: `"999 B"`, `"1.0 KiB"`,
/// `"1.5 MiB"` and so on up to GiB, with one decimal above bytes.
pub fn human_size(bytes: u64) -> (text: String)
    ensures
        text@ == human_size_spec(bytes),
{
    let f = as_float_exec(bytes);
    let unit: u128 = if f >= 0x4000_0000 {
        3
    } else if f >= 0x10_0000 {
        2
    } else if f >= 0x400 {
        1
    } else {
        0
    };
    if unit == 0 {
        let mut text = text_of(decimal_chars(bytes as u128).as_slice());
        text.append(" B");
        text
    } else {
        let scale: u128 = if unit == 3 {
            0x4000_0000
        } else if unit == 2 {
            0x10_0000
        } else {
            0x400
        };
        let tenths = round_half_even_exec(10 * f, scale);
        let mut text = text_of(decimal_chars(tenths / 10).as_slice());
        text.append(".");
        let fraction = text_of(decimal_chars(tenths % 10).as_slice());
        text.append(fraction.as_str());
        text.append(" ");
        if unit == 3 {
            text.append("GiB");
        } else if unit == 2 {
            text.append("MiB");
        } else {
            text.append("KiB");
        }
        text
    }
}

} // verus!
