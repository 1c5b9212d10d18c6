//! Display text for token counts.
//!
//! A count of a thousand or more is shown in thousands (`k`) or millions
//! (`M`) with one decimal place, exactly as formatting the `f64` quotient
//! `n as f64 / 1000.0` (or `/ 1_000_000.0`) with `{:.1}` shows it.  The
//! specification below spells that floating-point computation out over
//! the integers: a double is a 53-bit significand times a power of two,
//! every operation rounds to the nearest double with ties to even, and the
//! decimal text rounds the exact value of the double, ties to even.
use vstd::prelude::*;

use crate::text::{decimal, digit_char, push_decimal, push_signed_decimal, signed_decimal, string_of};

verus! {

/// `2^e`.
pub open spec fn two_pow(e: nat) -> nat
    decreases e,
{
    if e == 0 {
        1
    } else {
        2 * two_pow((e - 1) as nat)
    }
}

/// `num / den` rounded to the nearest integer, ties to the even one.
pub open spec fn round_half_even(num: nat, den: nat) -> nat {
    let q = num / den;
    let r = num % den;
    if 2 * r > den || (2 * r == den && q % 2 == 1) {
        q + 1
    } else {
        q
    }
}

/// How many low bits of `n` do not fit a 53-bit significand.
pub open spec fn excess_bits(n: nat) -> nat
    decreases n,
{
    if n < 9007199254740992 {
        0
    } else {
        1 + excess_bits(n / 2)
    }
}

/// `n as f64` for a natural number `n`: the nearest double, ties to even.
pub open spec fn int_to_double(n: nat) -> nat {
    let k = excess_bits(n);
    round_half_even(n, two_pow(k)) * two_pow(k)
}

/// The least `s` (from `from` on, at most 128) with `a * 2^s >= 2^52 * d`:
/// the scale at which `a / d` has a 53-bit significand.
pub open spec fn quotient_scale_from(a: nat, d: nat, from: nat) -> nat
    decreases 128 - from,
{
    if from >= 128 || a * two_pow(from) >= 4503599627370496 * d {
        from
    } else {
        quotient_scale_from(a, d, from + 1)
    }
}

/// The tenths in the text of the double quotient `n as f64 / d as f64`:
/// the quotient is the significand `m` over `2^s`, rounded to nearest
/// with ties to even, and its tenths are `10 m / 2^s` rounded likewise.
pub open spec fn quotient_tenths(n: nat, d: nat) -> nat {
    let a = int_to_double(n);
    let s = quotient_scale_from(a, d, 0);
    let m = round_half_even(a * two_pow(s), d);
    round_half_even(10 * m, two_pow(s))
}

/// The text of a number of tenths with one decimal place.
pub open spec fn tenths_text(q: nat) -> Seq<char> {
    decimal(q / 10) + seq!['.', digit_char(q % 10)]
}

/// The display text of a token count: millions with one decimal and `M`
/// from a million on, thousands with one decimal and `k` from a thousand
/// on, and the plain decimal number below that.
pub open spec fn token_text(n: int) -> Seq<char> {
    if n >= 1_000_000 {
        tenths_text(quotient_tenths(n as nat, 1_000_000)) + seq!['M']
    } else if n >= 1000 {
        tenths_text(quotient_tenths(n as nat, 1000)) + seq!['k']
    } else {
        signed_decimal(n)
    }
}

proof fn lemma_two_pow_mono(a: nat, b: nat)
    requires
        a <= b,
    ensures
        two_pow(a) <= two_pow(b),
    decreases b,
{
    if a < b {
        lemma_two_pow_mono(a, (b - 1) as nat);
    }
}

proof fn lemma_two_pow_72()
    ensures
        two_pow(72) == 4722366482869645213696,
{
    reveal_with_fuel(two_pow, 73);
}

fn round_half_even_u128(num: u128, den: u128) -> (r: u128)
    requires
        0 < den < 0x1_0000_0000_0000_0000_0000_0000_0000,
        num < 0x1_0000_0000_0000_0000_0000_0000_0000,
    ensures
        r == round_half_even(num as nat, den as nat),
{
    let q = num / den;
    let r = num % den;
    if 2 * r > den || (2 * r == den && q % 2 == 1) {
        q + 1
    } else {
        q
    }
}

/// `n as f64` as an integer, for `n` below `2^63`.
fn int_to_double_u128(n: u64) -> (a: u128)
    requires
        1000 <= n < 0x8000_0000_0000_0000,
    ensures
        a == int_to_double(n as nat),
        1 <= a <= 2 * n,
{
    let mut t: u64 = n;
    let mut k: u64 = 0;
    let mut p: u64 = 1;
    while t >= 9007199254740992
        invariant
            excess_bits(n as nat) == k + excess_bits(t as nat),
            p == two_pow(k as nat),
            t * p <= n,
            n < 0x8000_0000_0000_0000,
            1 <= p <= n,
            k <= p,
            t >= 9007199254740992 ==> p < 1024,
        decreases t,
    {
        assert(t * p >= 9007199254740992 * p) by (nonlinear_arith)
            requires
                t >= 9007199254740992,
        ;
        assert(p < 1024) by (nonlinear_arith)
            requires
                t * p <= n,
                n < 0x8000_0000_0000_0000,
                t >= 9007199254740992,
                p >= 1,
        ;
        let t2 = t / 2;
        assert((t / 2) * (2 * p) <= t * p) by (nonlinear_arith)
            requires
                p >= 1,
        ;
        assert(t2 >= 4503599627370496);
        assert(t2 * (2 * p) <= n);
        assert(2 * p < 2048);
        assert(2 * p <= n) by (nonlinear_arith)
            requires
                t * p <= n,
                t >= 2,
                p >= 1,
        ;
        k = k + 1;
        p = 2 * p;
        t = t2;
        proof {
            if t >= 9007199254740992 {
                assert(p < 1024) by (nonlinear_arith)
                    requires
                        t * p <= n,
                        n < 0x8000_0000_0000_0000,
                        t >= 9007199254740992,
                        p >= 1,
                ;
            }
        }
    }
    let r = round_half_even_u128(n as u128, p as u128);
    assert(r <= n / p + 1);
    assert((n / p + 1) * p <= n + p) by (nonlinear_arith)
        requires
            p >= 1,
    ;
    assert(r * p <= (n / p + 1) * p) by (nonlinear_arith)
        requires
            r <= n / p + 1,
    ;
    assert(n / p >= 1) by (nonlinear_arith)
        requires
            p <= n,
            p >= 1,
    ;
    assert(r >= 1);
    assert(r * p >= 1) by (nonlinear_arith)
        requires
            r >= 1,
            p >= 1,
    ;
    r * (p as u128)
}

/// The tenths of `n as f64 / d as f64` (see `quotient_tenths`).
fn quotient_tenths_u128(n: u64, d: u64) -> (q: u128)
    requires
        1000 <= n < 0x8000_0000_0000_0000,
        d == 1000 || d == 1_000_000,
    ensures
        q == quotient_tenths(n as nat, d as nat),
{
    let a = int_to_double_u128(n);
    let dd = d as u128;
    let mut s: u64 = 0;
    let mut pw: u128 = 1;
    assert(two_pow(0) == 1);
    while a * pw < 4503599627370496 * dd
        invariant
            a <= 2 * n,
            dd == d,
            d == 1000 || d == 1_000_000,
            pw == two_pow(s as nat),
            1 <= pw,
            quotient_scale_from(a as nat, d as nat, 0) == quotient_scale_from(
                a as nat,
                d as nat,
                s as nat,
            ),
            s > 0 ==> a * pw < 2 * 4503599627370496 * dd,
            s == 0 ==> pw == 1,
            1 <= a,
            s <= 128,
            pw <= 0x1_0000_0000_0000_0000_0000_0000,
        decreases 0x1_0000_0000_0000_0000_0000_0000 - pw,
    {
        assert(pw < 0x100_0000_0000_0000_0000) by (nonlinear_arith)
            requires
                a * pw < 4503599627370496 * dd,
                dd <= 1_000_000,
                a >= 1,
        ;
        assert(s < 128) by {
            if s >= 72 {
                lemma_two_pow_72();
                lemma_two_pow_mono(72, s as nat);
            }
        }
        assert(a * (pw * 2) < 2 * 4503599627370496 * dd) by (nonlinear_arith)
            requires
                a * pw < 4503599627370496 * dd,
        ;
        s = s + 1;
        pw = pw * 2;
    }
    assert(a * pw < 2 * 4503599627370496 * 1_000_000 + 0x1_0000_0000_0000_0000 * 0x1_0000_0000) by (
    nonlinear_arith)
        requires
            a <= 2 * n,
            n < 0x8000_0000_0000_0000,
            s > 0 ==> a * pw < 2 * 4503599627370496 * dd,
            s == 0 ==> pw == 1,
            dd <= 1_000_000,
    ;
    let prod = a * pw;
    let m = round_half_even_u128(prod, dd);
    assert(m <= prod / dd + 1);
    assert(prod / dd + 1 <= prod + 1) by (nonlinear_arith)
        requires
            dd >= 1000,
    ;
    round_half_even_u128(10 * m, pw)
}

/// The display text of the token count `n` (e.g. 1234567 shows as `1.2M`).
pub fn fmt_tokens(n: i64) -> (r: String)
    ensures
        r@ == token_text(n as int),
{
    let mut out: Vec<char> = Vec::new();
    if n >= 1000 {
        let d: u64 = if n >= 1_000_000 {
            1_000_000
        } else {
            1000
        };
        let q = quotient_tenths_u128(n as u64, d);
        push_decimal(&mut out, q / 10);
        let digit = ((q % 10) as u8 + 48u8) as char;
        out.push('.');
        out.push(digit);
        if n >= 1_000_000 {
            out.push('M');
        } else {
            out.push('k');
        }
        assert(out@ =~= token_text(n as int));
    } else {
        push_signed_decimal(&mut out, n);
        assert(out@ =~= token_text(n as int));
    }
    string_of(&out)
}

} // verus!
