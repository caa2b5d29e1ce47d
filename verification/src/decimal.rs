//! Numbers of single precision in decimal digits, with a fixed number of digits behind the point.
//!
//! The digits are those of the number that is nearest to the exact value, the even one where two
//! are equally near.

use vstd::arithmetic::power2::lemma2_to64;
use vstd::arithmetic::power2::lemma2_to64_rest;
use vstd::arithmetic::power2::lemma_pow2_adds;
use vstd::arithmetic::power2::lemma_pow2_pos;
use vstd::arithmetic::power2::lemma_pow2_strictly_increases;
use vstd::arithmetic::power2::lemma_pow2_unfold;
use vstd::arithmetic::power2::pow2;
use vstd::prelude::*;

use crate::single::exponent;
use crate::single::half_even;
use crate::single::lemma_round24_near;
use crate::single::lemma_ulp24;
use crate::single::mantissa;
use crate::single::nearest;
use crate::single::negative;
use crate::single::round24;
use crate::single::round_unsigned;
use crate::single::ulp24;
use crate::single::Single;
use crate::text::number::dec;
use crate::text::number::padded_dec;
use crate::text::number::push_wide;
use crate::text::number::zero_padded;

verus! {

/// The power of two that the significant bits of a number are counted in.
pub open spec fn scale(f: Single) -> int {
    if exponent(f) == 0 {
        -149
    } else {
        exponent(f) - 150
    }
}

/// `m` times two to the power `k`, in units of one part of `unit`.
pub open spec fn parts_of(m: int, k: int, unit: int) -> int {
    if k >= 0 {
        m * pow2(k as nat) as int * unit
    } else {
        half_even(m * unit, pow2((-k) as nat) as int)
    }
}

/// `n` parts of `unit`, with the digits behind the point.
pub open spec fn fixed_text(n: int, unit: int, places: int) -> Seq<char> {
    dec(n / unit) + "."@ + zero_padded(dec(n % unit), places)
}

/// `m` times two to the power `k` with the digits behind the point; `inf` where that is beyond
/// the range of the numbers.
pub open spec fn size_text(m: int, k: int, unit: int, places: int) -> Seq<char> {
    if k >= 0 && m * pow2(k as nat) >= pow2(128) {
        "inf"@
    } else {
        fixed_text(parts_of(m, k, unit), unit, places)
    }
}

/// No number at all.
pub open spec fn is_nan(f: Single) -> bool {
    exponent(f) == 255 && mantissa(f) != 0x80_0000
}

/// The sign of a number in front of the text of its size.
pub open spec fn signed_text(f: Single, size: Seq<char>) -> Seq<char> {
    if negative(f) {
        "-"@ + size
    } else {
        size
    }
}

/// A number with two digits behind the point.
pub open spec fn two_places(f: Single) -> Seq<char> {
    if is_nan(f) {
        "NaN"@
    } else if exponent(f) == 255 {
        signed_text(f, "inf"@)
    } else {
        signed_text(f, size_text(mantissa(f), scale(f), 100, 2))
    }
}

/// A hundred times a number, in single precision, with one digit behind the point and the sign
/// for hundredths.
pub open spec fn percent(f: Single) -> Seq<char> {
    if is_nan(f) {
        "NaN"@ + "%"@
    } else if exponent(f) == 255 {
        signed_text(f, "inf"@) + "%"@
    } else {
        signed_text(f, size_text(round24(100 * mantissa(f)), scale(f), 10, 1)) + "%"@
    }
}

/// The number is at least that of the given bits, which are those of a positive number.
pub open spec fn reaches(f: Single, bits: u32) -> bool {
    !negative(f) && !is_nan(f) && f.bits >= bits
}

fn power(k: u32) -> (r: u128)
    requires
        k <= 127,
    ensures
        r == pow2(k as nat),
    decreases k,
{
    proof {
        lemma2_to64();
        lemma2_to64_rest();
        if k > 0 {
            lemma_pow2_unfold(k as nat);
            lemma_pow2_adds(64, 63);
            assert(pow2(127) == 0x8000_0000_0000_0000_0000_0000_0000_0000);
            if k < 127 {
                lemma_pow2_strictly_increases(k as nat, 127);
            }
        }
    }
    if k == 0 {
        1
    } else {
        2 * power(k - 1)
    }
}

/// `m` doubled `k` times; none where that is beyond the range of the numbers.
fn raised(m: u128, k: u32) -> (r: Option<u128>)
    ensures
        match r {
            Some(v) => v == m * pow2(k as nat) && m * pow2(k as nat) < pow2(128),
            None => m * pow2(k as nat) >= pow2(128),
        },
    decreases k,
{
    proof {
        lemma2_to64();
        lemma2_to64_rest();
        lemma_pow2_adds(64, 64);
        lemma_pow2_pos(k as nat);
    }
    assert(pow2(128) == 0x1_0000_0000_0000_0000_0000_0000_0000_0000int);
    if k == 0 {
        assert(m * 1 == m);
        return Some(m);
    }
    let ghost q = pow2((k - 1) as nat);
    proof {
        lemma_pow2_pos((k - 1) as nat);
        lemma_pow2_unfold(k as nat);
    }
    assert((2 * m) * q == m * (2 * q)) by (nonlinear_arith);
    if m >= 0x8000_0000_0000_0000_0000_0000_0000_0000 {
        assert((2 * m) * q >= 2 * m) by (nonlinear_arith)
            requires
                q >= 1,
                m >= 0,
        ;
        return None;
    }
    raised(2 * m, k - 1)
}

fn push_size(out: &mut String, m: u128, k: i32, unit: u64, places: usize)
    requires
        m <= 0x8000_0000,
        -149 <= k <= 104,
        1 <= unit <= 100,
    ensures
        final(out)@ == old(out)@ + size_text(m as int, k as int, unit as int, places as int),
{
    if k >= 0 {
        match raised(m, k as u32) {
            None => {
                out.append("inf");
            },
            Some(v) => {
                proof {
                    let n = v as int * unit as int;
                    assert(n / unit as int == v && n % unit as int == 0) by (nonlinear_arith)
                        requires
                            n == v as int * unit as int,
                            unit >= 1,
                    ;
                }
                push_wide(out, v);
                out.append(".");
                out.append(padded_dec(0, places).as_str());
                assert(out@ =~= old(out)@ + size_text(
                    m as int,
                    k as int,
                    unit as int,
                    places as int,
                ));
            },
        }
        return;
    }
    assert(m * unit <= 0x8000_0000 * 100) by (nonlinear_arith)
        requires
            m <= 0x8000_0000,
            0 <= unit <= 100,
    ;
    let down: u32 = (-k) as u32;
    let n: u128 = if down > 64 {
        proof {
            lemma2_to64();
            lemma2_to64_rest();
            lemma_pow2_strictly_increases(64, down as nat);
            let p = pow2(down as nat) as int;
            let a = m as int * unit as int;
            assert(a >= 0) by (nonlinear_arith)
                requires
                    a == m as int * unit as int,
                    m >= 0,
                    unit >= 0,
            ;
            assert(a / p == 0 && a % p == a) by {
                vstd::arithmetic::div_mod::lemma_small_mod(a as nat, p as nat);
                vstd::arithmetic::div_mod::lemma_basic_div(a, p);
            }
        }
        0
    } else {
        proof {
            lemma2_to64();
            lemma2_to64_rest();
            lemma_pow2_pos(down as nat);
            if down < 64 {
                lemma_pow2_strictly_increases(down as nat, 64);
            }
        }
        let p = power(down);
        let a: u128 = m * unit as u128;
        let q = nearest(a, p);
        assert(a / p <= a) by (nonlinear_arith)
            requires
                p >= 1,
        ;
        q
    };
    assert(n == parts_of(m as int, k as int, unit as int));
    push_wide(out, n / unit as u128);
    out.append(".");
    out.append(padded_dec((n % unit as u128) as u64, places).as_str());
    assert(out@ =~= old(out)@ + size_text(m as int, k as int, unit as int, places as int));
}

fn bits_of(f: Single) -> (r: (u32, u32))
    ensures
        r.0 == exponent(f),
        r.1 == mantissa(f),
        r.0 <= 255,
        r.1 < 0x100_0000,
{
    let e: u32 = (f.bits / 0x80_0000) % 0x100;
    let frac: u32 = f.bits % 0x80_0000;
    if e == 0 {
        (e, frac)
    } else {
        (e, frac + 0x80_0000)
    }
}

fn scale_of(e: u32) -> (r: i32)
    requires
        e < 255,
    ensures
        r == if e == 0 {
            -149int
        } else {
            e - 150
        },
{
    if e == 0 {
        -149
    } else {
        e as i32 - 150
    }
}

/// A number with two digits behind the point.
pub fn show_two_places(f: Single) -> (r: String)
    ensures
        r@ == two_places(f),
{
    let (e, m) = bits_of(f);
    if e == 255 && m != 0x80_0000 {
        return "NaN".to_string();
    }
    let mut out = String::new();
    if f.bits >= 0x8000_0000 {
        out.append("-");
    }
    if e == 255 {
        out.append("inf");
    } else {
        push_size(&mut out, m as u128, scale_of(e), 100, 2);
    }
    assert(out@ =~= two_places(f));
    out
}

/// A hundred times a number, in single precision, with one digit behind the point and the sign
/// for hundredths.
pub fn pct(f: Single) -> (r: String)
    ensures
        r@ == percent(f),
{
    let (e, m) = bits_of(f);
    let mut out = String::new();
    if e == 255 && m != 0x80_0000 {
        out.append("NaN");
    } else {
        if f.bits >= 0x8000_0000 {
            out.append("-");
        }
        if e == 255 {
            out.append("inf");
        } else {
            let p = round_unsigned(100 * m as u128);
            proof {
                lemma_round24_hundred(m as int);
            }
            push_size(&mut out, p, scale_of(e), 10, 1);
        }
    }
    out.append("%");
    assert(out@ =~= percent(f));
    out
}

proof fn lemma_round24_hundred(m: int)
    requires
        0 <= m < 0x100_0000,
    ensures
        0 <= round24(100 * m) <= 0x8000_0000,
{
    let x = 100 * m;
    lemma_round24_near(x);
    lemma_ulp24(x);
    if x >= 0x100_0000 {
        let u = ulp24(x);
        assert(u <= 200);
    }
}

/// The number is at least that of the given bits, which are those of a positive number.
pub fn at_least(f: Single, bits: u32) -> (r: bool)
    ensures
        r == reaches(f, bits),
{
    let (e, m) = bits_of(f);
    f.bits < 0x8000_0000 && !(e == 255 && m != 0x80_0000) && f.bits >= bits
}

} // verus!
