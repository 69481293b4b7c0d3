//! Byte counts as the views print them: the count converted to `f64`,
//! divided by the unit and printed with `{:.1}` or `{:.0}`, computed
//! exactly on integers.
use crate::text::{decimal, push_decimal, push_str, string_from_chars};
use vstd::arithmetic::div_mod::{lemma_div_denominator, lemma_fundamental_div_mod};
use vstd::arithmetic::power2::{
    lemma2_to64, lemma_pow2_pos, lemma_pow2_strictly_increases, lemma_pow2_unfold, pow2,
};
use vstd::prelude::*;

verus! {

/// How many low bits `n as f64` drops: the float keeps 53 significant bits.
pub open spec fn dropped_bits(n: nat) -> nat
    decreases n,
{
    if n < 0x20_0000_0000_0000 {
        0
    } else {
        1 + dropped_bits(n / 2)
    }
}

/// `a / d` rounded to the nearest integer, halfway cases to the even one.
pub open spec fn div_round_even(a: nat, d: nat) -> nat {
    let q = a / d;
    let r = a % d;
    if 2 * r > d || (2 * r == d && q % 2 == 1) {
        q + 1
    } else {
        q
    }
}

/// The value of `n as f64`: `n` rounded to 53 significant bits, halfway
/// cases to even.
pub open spec fn f64_value(n: nat) -> nat {
    div_round_even(n, pow2(dropped_bits(n))) * pow2(dropped_bits(n))
}

/// `{:.1}` of the quotient `v / d`: tenths, rounded halfway to even.
pub open spec fn one_decimal(v: nat, d: nat) -> Seq<char> {
    let t = div_round_even(v * 10, d);
    decimal(t / 10) + seq!['.'] + decimal(t % 10)
}

/// `{:.0}` of the quotient `v / d`.
pub open spec fn no_decimal(v: nat, d: nat) -> Seq<char> {
    decimal(div_round_even(v, d))
}

pub open spec fn gib() -> nat {
    0x4000_0000
}

pub open spec fn mib() -> nat {
    0x10_0000
}

/// `1.5 GB`, `12 MB`, `3 KB` or `512 B`.
pub open spec fn bytes_text(n: nat) -> Seq<char> {
    let v = f64_value(n);
    if n >= gib() {
        one_decimal(v, gib()) + " GB"@
    } else if n >= mib() {
        no_decimal(v, mib()) + " MB"@
    } else if n >= 1024 {
        no_decimal(v, 1024) + " KB"@
    } else {
        decimal(n) + " B"@
    }
}

/// `1.5G`, `12M` or `3K`.
pub open spec fn bytes_short_text(n: nat) -> Seq<char> {
    let v = f64_value(n);
    if n >= gib() {
        one_decimal(v, gib()) + "G"@
    } else if n >= mib() {
        no_decimal(v, mib()) + "M"@
    } else {
        no_decimal(v, 1024) + "K"@
    }
}

/// `1.5GB`, `12MB` or `3KB`.
pub open spec fn bytes_compact_text(n: nat) -> Seq<char> {
    let v = f64_value(n);
    if n >= gib() {
        one_decimal(v, gib()) + "GB"@
    } else if n >= mib() {
        no_decimal(v, mib()) + "MB"@
    } else {
        no_decimal(v, 1024) + "KB"@
    }
}

/// The value of `n as f64`, exactly.
fn f64_value_of(n: u64) -> (r: u128)
    ensures
        r == f64_value(n as nat),
        r <= 0x1_0000_0000_0000_0000,
{
    let mut m: u64 = n;
    let mut p: u64 = 1;
    let ghost mut e: nat = 0;
    proof {
        lemma2_to64();
        assert(n as nat / 1 == n) by (nonlinear_arith);
    }
    while m >= 0x20_0000_0000_0000
        invariant
            p == pow2(e),
            e <= 11,
            m == n as nat / pow2(e),
            dropped_bits(n as nat) == e + dropped_bits(m as nat),
            p * m <= n,
        decreases m,
    {
        proof {
            lemma2_to64();
            lemma_pow2_pos(e);
            if e >= 11 {
                if e > 11 {
                    lemma_pow2_strictly_increases(11, e);
                }
                assert(p * m >= 0x1_0000_0000_0000_0000) by (nonlinear_arith)
                    requires
                        p >= 2048,
                        m >= 0x20_0000_0000_0000,
                ;
            }
            lemma_div_denominator(n as int, p as int, 2);
            assert(p * 2 * (m / 2) <= p * m) by (nonlinear_arith)
                requires
                    p >= 1,
            ;
            lemma_pow2_unfold(e + 1);
        }
        m = m / 2;
        p = p * 2;
        proof {
            e = e + 1;
        }
    }
    proof {
        lemma2_to64();
        lemma_pow2_pos(e);
        if e < 11 {
            lemma_pow2_strictly_increases(e, 11);
        }
        lemma_fundamental_div_mod(n as int, p as int);
    }
    let q = m;
    let r = n % p;
    let up = 2 * r > p || (2 * r == p && q % 2 == 1);
    let q2: u64 = if up {
        q + 1
    } else {
        q
    };
    assert(q2 <= 0x20_0000_0000_0000);
    assert(p <= 0x800);
    assert((q2 as u128) * (p as u128) <= 0x1_0000_0000_0000_0000) by (nonlinear_arith)
        requires
            q2 <= 0x20_0000_0000_0000,
            p <= 0x800,
    ;
    (q2 as u128) * (p as u128)
}

/// `a / d` rounded to the nearest integer, halfway cases to even.
fn round_div_even(a: u128, d: u128) -> (r: u128)
    requires
        2 <= d <= 0x1_0000_0000_0000_0000,
    ensures
        r == div_round_even(a as nat, d as nat),
{
    let q = a / d;
    let rem = a % d;
    assert(q <= 0x8000_0000_0000_0000_0000_0000_0000_0000) by (nonlinear_arith)
        requires
            q == a / d,
            d >= 2,
            a <= u128::MAX,
    ;
    if 2 * rem > d || (2 * rem == d && q % 2 == 1) {
        q + 1
    } else {
        q
    }
}

/// Appends `{:.1}` of `v / d`.
fn push_one_decimal(v: u128, d: u128, out: &mut Vec<char>)
    requires
        v <= 0x1_0000_0000_0000_0000,
        1024 <= d <= 0x4000_0000,
    ensures
        final(out)@ == old(out)@ + one_decimal(v as nat, d as nat),
{
    let t = round_div_even(v * 10, d);
    assert(t <= 0x1_0000_0000_0000_0000) by (nonlinear_arith)
        requires
            t <= (v * 10) / (d as int) + 1,
            v <= 0x1_0000_0000_0000_0000,
            d >= 1024,
    ;
    push_decimal((t / 10) as u64, out);
    out.push('.');
    push_decimal((t % 10) as u64, out);
    proof {
        assert(final(out)@ =~= old(out)@ + one_decimal(v as nat, d as nat));
    }
}

/// Appends `{:.0}` of `v / d`.
fn push_no_decimal(v: u128, d: u128, out: &mut Vec<char>)
    requires
        v <= 0x1_0000_0000_0000_0000,
        1024 <= d <= 0x4000_0000,
    ensures
        final(out)@ == old(out)@ + no_decimal(v as nat, d as nat),
{
    let t = round_div_even(v, d);
    assert(t <= 0xFFFF_FFFF_FFFF_FFFF) by (nonlinear_arith)
        requires
            t <= (v as int) / (d as int) + 1,
            v <= 0x1_0000_0000_0000_0000,
            d >= 1024,
    ;
    push_decimal(t as u64, out);
}

/// A byte count as `1.5 GB`, `12 MB`, `3 KB` or `512 B`.
pub fn format_bytes(bytes: u64) -> (r: String)
    ensures
        r@ == bytes_text(bytes as nat),
{
    let v = f64_value_of(bytes);
    let mut out: Vec<char> = Vec::new();
    if bytes >= 0x4000_0000 {
        push_one_decimal(v, 0x4000_0000, &mut out);
        push_str(&mut out, " GB");
    } else if bytes >= 0x10_0000 {
        push_no_decimal(v, 0x10_0000, &mut out);
        push_str(&mut out, " MB");
    } else if bytes >= 1024 {
        push_no_decimal(v, 1024, &mut out);
        push_str(&mut out, " KB");
    } else {
        push_decimal(bytes, &mut out);
        push_str(&mut out, " B");
    }
    assert(out@ =~= bytes_text(bytes as nat));
    string_from_chars(&out)
}

/// A byte count as `1.5G`, `12M` or `3K`.
pub fn format_bytes_short(bytes: u64) -> (r: String)
    ensures
        r@ == bytes_short_text(bytes as nat),
{
    let v = f64_value_of(bytes);
    let mut out: Vec<char> = Vec::new();
    if bytes >= 0x4000_0000 {
        push_one_decimal(v, 0x4000_0000, &mut out);
        push_str(&mut out, "G");
    } else if bytes >= 0x10_0000 {
        push_no_decimal(v, 0x10_0000, &mut out);
        push_str(&mut out, "M");
    } else {
        push_no_decimal(v, 1024, &mut out);
        push_str(&mut out, "K");
    }
    assert(out@ =~= bytes_short_text(bytes as nat));
    string_from_chars(&out)
}

/// A byte count as `1.5GB`, `12MB` or `3KB`.
pub fn format_bytes_compact(bytes: u64) -> (r: String)
    ensures
        r@ == bytes_compact_text(bytes as nat),
{
    let v = f64_value_of(bytes);
    let mut out: Vec<char> = Vec::new();
    if bytes >= 0x4000_0000 {
        push_one_decimal(v, 0x4000_0000, &mut out);
        push_str(&mut out, "GB");
    } else if bytes >= 0x10_0000 {
        push_no_decimal(v, 0x10_0000, &mut out);
        push_str(&mut out, "MB");
    } else {
        push_no_decimal(v, 1024, &mut out);
        push_str(&mut out, "KB");
    }
    assert(out@ =~= bytes_compact_text(bytes as nat));
    string_from_chars(&out)
}

} // verus!
