//! Binary numbers of single precision, on integers alone.
//!
//! A number is held by its 32 bits: one for the sign, eight for the exponent and 23 for the
//! fraction. Results are rounded to the nearest number of 24 significant bits, to the even one
//! of two that are equally near.

use vstd::arithmetic::power2::lemma2_to64;
use vstd::arithmetic::power2::lemma2_to64_rest;
use vstd::arithmetic::power2::lemma_pow2_adds;
use vstd::arithmetic::power2::lemma_pow2_pos;
use vstd::arithmetic::power2::lemma_pow2_unfold;
use vstd::arithmetic::power2::pow2;
use vstd::prelude::*;

verus! {

/// A number of single precision.
#[derive(Debug, Clone, Copy, PartialEq, Eq, Structural)]
pub struct Single {
    pub bits: u32,
}

/// `a / b` as a whole number, the even one where two are equally near.
pub open spec fn half_even(a: int, b: int) -> int {
    let q = a / b;
    let r = a % b;
    if 2 * r > b || (2 * r == b && q % 2 == 1) {
        q + 1
    } else {
        q
    }
}

/// The distance of the numbers of 24 significant bits around `x`.
pub open spec fn ulp24(x: int) -> int
    decreases x,
{
    if x < 0x100_0000 {
        1
    } else {
        2 * ulp24(x / 2)
    }
}

/// The number of 24 significant bits that is nearest to `x`.
pub open spec fn round24(x: int) -> int {
    half_even(x, ulp24(x)) * ulp24(x)
}

/// The number of 24 significant bits that is nearest to `x`, whatever its sign.
pub open spec fn round24_signed(x: int) -> int {
    if x < 0 {
        -round24(-x)
    } else {
        round24(x)
    }
}

pub proof fn lemma_ulp24(x: int)
    requires
        0 <= x,
    ensures
        ulp24(x) >= 1,
        x < 0x100_0000 * ulp24(x),
        x >= 0x100_0000 ==> 0x80_0000 * ulp24(x) <= x,
        x < 0x100_0000 ==> ulp24(x) == 1,
    decreases x,
{
    if x >= 0x100_0000 {
        lemma_ulp24(x / 2);
        if x / 2 < 0x100_0000 {
            assert(ulp24(x / 2) == 1);
        }
    }
}

/// What has at most 24 significant bits is left as it is.
pub proof fn lemma_round24_exact(x: int)
    requires
        0 <= x < 0x100_0000,
    ensures
        round24(x) == x,
{
}

/// Rounding moves a number by at most half the distance of its neighbours.
pub proof fn lemma_round24_near(x: int)
    requires
        0 <= x,
    ensures
        2 * (round24(x) - x) <= ulp24(x),
        2 * (x - round24(x)) <= ulp24(x),
        0 <= round24(x) <= 2 * x,
        x <= 2 * round24(x),
        x > 0 ==> round24(x) > 0,
{
    lemma_ulp24(x);
    let u = ulp24(x);
    let q = x / u;
    let r = x % u;
    assert(x == q * u + r && 0 <= r < u) by (nonlinear_arith)
        requires
            u >= 1,
            q == x / u,
            r == x % u,
    ;
    assert((q + 1) * u == q * u + u) by (nonlinear_arith);
    assert(round24(x) == q * u || round24(x) == q * u + u);
    if x < 0x100_0000 {
        assert(u == 1);
        assert(r == 0);
    } else {
        assert(0x80_0000 * u <= x);
    }
}

/// All numbers with the same leading place have neighbours at the same distance.
proof fn lemma_ulp24_same(x: int, y: int)
    requires
        0 <= x,
        0 <= y,
        x >= 0x100_0000 ==> 0x80_0000 * ulp24(x) <= y,
        y < 0x100_0000 * ulp24(x),
    ensures
        ulp24(y) == ulp24(x),
    decreases x,
{
    if x >= 0x100_0000 {
        lemma_ulp24(x / 2);
        lemma_ulp24_same(x / 2, y / 2);
    }
}

/// The distance of neighbours of a larger number is a multiple of that of a smaller one.
proof fn lemma_ulp24_multiple(x: int, t: int) -> (k: int)
    requires
        0 <= x <= t,
    ensures
        ulp24(t) == k * ulp24(x),
        k >= 1,
    decreases t,
{
    lemma_ulp24(x);
    lemma_ulp24(t);
    if x < 0x100_0000 {
        assert(ulp24(t) * 1 == ulp24(t));
        ulp24(t)
    } else {
        let k = lemma_ulp24_multiple(x / 2, t / 2);
        assert(2 * (k * ulp24(x / 2)) == k * (2 * ulp24(x / 2))) by (nonlinear_arith);
        k
    }
}

/// Rounding a second time changes nothing.
pub proof fn lemma_round24_twice(x: int)
    requires
        0 <= x,
    ensures
        round24(round24(x)) == round24(x),
{
    lemma_ulp24(x);
    lemma_round24_near(x);
    if x >= 0x100_0000 {
        let u = ulp24(x);
        let m = half_even(x, u);
        let y = round24(x);
        assert(y == m * u);
        assert(0x80_0000 <= x / u < 0x100_0000) by (nonlinear_arith)
            requires
                u >= 1,
                0x80_0000 * u <= x,
                x < 0x100_0000 * u,
        ;
        assert(0x80_0000 * u <= y) by (nonlinear_arith)
            requires
                y == m * u,
                m >= 0x80_0000,
                u >= 1,
        ;
        if m < 0x100_0000 {
            assert(y < 0x100_0000 * u) by (nonlinear_arith)
                requires
                    y == m * u,
                    m < 0x100_0000,
                    u >= 1,
            ;
            lemma_ulp24_same(x, y);
            lemma_exact(m, u);
        } else {
            assert(y == 0x100_0000 * u);
            lemma_ulp24_same(x, 0x80_0000 * u);
            assert(y / 2 == 0x80_0000 * u);
            assert(ulp24(y) == 2 * u);
            assert(y == 0x80_0000 * (2 * u));
            lemma_exact(0x80_0000, 2 * u);
        }
    } else {
        lemma_round24_exact(x);
    }
}

proof fn lemma_exact(m: int, u: int)
    requires
        u >= 1,
        m >= 0,
    ensures
        half_even(m * u, u) * u == m * u,
{
    assert((m * u) / u == m && (m * u) % u == 0) by (nonlinear_arith)
        requires
            u >= 1,
            m >= 0,
    ;
}

/// What is at most some number of 24 significant bits is rounded to at most that number.
pub proof fn lemma_round24_at_most(x: int, t: int)
    requires
        0 <= x <= t,
        round24(t) == t,
    ensures
        round24(x) <= t,
{
    lemma_ulp24(x);
    lemma_ulp24(t);
    let u = ulp24(x);
    let k = lemma_ulp24_multiple(x, t);
    let m = half_even(t, ulp24(t));
    assert(t == m * (k * u));
    let j = m * k;
    assert(t == j * u) by (nonlinear_arith)
        requires
            t == m * (k * u),
            j == m * k,
    ;
    let q = x / u;
    let r = x % u;
    assert(x == q * u + r && 0 <= r < u) by (nonlinear_arith)
        requires
            u >= 1,
            q == x / u,
            r == x % u,
    ;
    assert(q <= j) by (nonlinear_arith)
        requires
            q * u + r <= j * u,
            0 <= r,
            u >= 1,
    ;
    if q == j {
        assert(r == 0);
    } else {
        assert((q + 1) * u <= j * u) by (nonlinear_arith)
            requires
                q + 1 <= j,
                u >= 1,
        ;
        assert(q * u <= (q + 1) * u) by (nonlinear_arith)
            requires
                u >= 1,
        ;
    }
}

/// A number of 24 significant bits does not change where something much smaller is added.
pub proof fn lemma_round24_absorbs(t: int, w: int)
    requires
        round24(t) == t,
        0 <= w,
        0x100_0000 <= t,
        w * 0x400_0000 <= t,
    ensures
        round24(t + w) == t,
{
    lemma_ulp24(t);
    let u = ulp24(t);
    let m = half_even(t, u);
    assert(t == m * u);
    assert(m < 0x100_0000) by (nonlinear_arith)
        requires
            m * u < 0x100_0000 * u,
            u >= 1,
    ;
    assert(4 * w < u) by (nonlinear_arith)
        requires
            w * 0x400_0000 <= t,
            t < 0x100_0000 * u,
    ;
    assert(t + w < 0x100_0000 * u) by (nonlinear_arith)
        requires
            t == m * u,
            m <= 0x100_0000 - 1,
            w < u,
            u >= 1,
    ;
    lemma_ulp24_same(t, t + w);
    assert((m * u + w) / u == m && (m * u + w) % u == w) by (nonlinear_arith)
        requires
            0 <= w < u,
            m >= 0,
    ;
}

fn ulp(x: u128) -> (r: u128)
    requires
        x <= 0x4000_0000_0000_0000_0000_0000_0000_0000,
    ensures
        r == ulp24(x as int),
        1 <= r <= x || r == 1,
    decreases x,
{
    if x < 0x100_0000 {
        1
    } else {
        proof {
            lemma_ulp24((x / 2) as int);
            lemma_ulp24(x as int);
        }
        2 * ulp(x / 2)
    }
}

/// `a / b` as a whole number, the even one where two are equally near.
pub(crate) fn nearest(a: u128, b: u128) -> (r: u128)
    requires
        b > 0,
        a <= 0x7fff_ffff_ffff_ffff_ffff_ffff_ffff_ffff,
        b <= 0x7fff_ffff_ffff_ffff_ffff_ffff_ffff_ffff,
    ensures
        r == half_even(a as int, b as int),
        r <= a / b + 1,
{
    let q: u128 = a / b;
    let r: u128 = a % b;
    if 2 * r > b || (2 * r == b && q % 2 == 1) {
        assert(q <= a) by (nonlinear_arith)
            requires
                q == a / b,
                b >= 1,
        ;
        q + 1
    } else {
        q
    }
}

/// `x` rounded to 24 significant bits.
pub fn round_unsigned(x: u128) -> (r: u128)
    requires
        x <= 0x2000_0000_0000_0000_0000_0000_0000_0000,
    ensures
        r == round24(x as int),
        r <= 2 * x,
{
    let u = ulp(x);
    proof {
        lemma_round24_near(x as int);
    }
    nearest(x, u) * u
}

/// `x` rounded to 24 significant bits, whatever its sign.
pub fn round_signed(x: i128) -> (r: i128)
    requires
        -0x2000_0000_0000_0000_0000_0000_0000_0000 <= x
            <= 0x2000_0000_0000_0000_0000_0000_0000_0000,
    ensures
        r == round24_signed(x as int),
{
    if x < 0 {
        let m: u128 = (-x) as u128;
        -(round_unsigned(m) as i128)
    } else {
        round_unsigned(x as u128) as i128
    }
}

/// The bits of `a / b / 2^s`, where `a` has to grow to give 24 significant bits.
pub open spec fn quotient_up(a: int, b: int, s: int) -> int
    decreases b * 0x100_0000 - a,
{
    if a <= 0 || b <= 0 {
        0
    } else if a < b * 0x80_0000 {
        quotient_up(2 * a, b, s + 1)
    } else {
        (149 - s) * 0x80_0000 + half_even(a, b)
    }
}

/// The bits of `a / b / 2^s`, where `b` has to grow first.
pub open spec fn quotient_down(a: int, b: int, s: int) -> int
    decreases a - b,
{
    if b > 0 && a >= b * 0x100_0000 {
        quotient_down(a, 2 * b, s - 1)
    } else {
        quotient_up(a, b, s)
    }
}

/// The bits of the quotient of two whole numbers that are first rounded to single precision
/// themselves; those of zero where one of them is zero.
pub open spec fn quotient(a: int, b: int) -> int {
    quotient_down(round24(a), round24(b), 0)
}

/// The quotient of two whole numbers in single precision; zero where one of them is zero.
pub fn divide(a: u128, b: u128) -> (r: Single)
    requires
        a <= 0x1_0000_0000_0000_0000,
        b <= 0x1_0000_0000_0000_0000,
    ensures
        r.bits == quotient(a as int, b as int),
        a == 0 || b == 0 ==> r.bits == 0,
        a > 0 && b > 0 ==> 0x80_0000 <= r.bits < 0x7f80_0000,
{
    let x = round_unsigned(a);
    let y = round_unsigned(b);
    proof {
        lemma_round24_near(a as int);
        lemma_round24_near(b as int);
        lemma2_to64();
        lemma2_to64_rest();
    }
    if x == 0 || y == 0 {
        return Single { bits: 0 };
    }
    let mut den: u128 = y;
    let mut s: i64 = 0;
    let ghost mut k: nat = 66;
    assert(pow2(66) == 0x4_0000_0000_0000_0000) by {
        lemma_pow2_adds(64, 2);
    }
    assert(x <= den * pow2(66)) by (nonlinear_arith)
        requires
            x <= 0x2_0000_0000_0000_0000,
            den >= 1,
            pow2(66) == 0x4_0000_0000_0000_0000,
    ;
    while x >= den * 0x100_0000
        invariant
            1 <= x <= 0x2_0000_0000_0000_0000,
            1 <= den <= 0x2_0000_0000_0000_0000,
            x <= den * pow2(k),
            k <= 66,
            s == k - 66,
            quotient_down(x as int, den as int, s as int) == quotient(a as int, b as int),
        decreases x - den,
    {
        proof {
            assert(k > 0) by {
                lemma2_to64();
                if k == 0 {
                    assert(den * pow2(k) == den);
                }
            }
            let p = pow2((k - 1) as nat);
            lemma_pow2_unfold(k);
            assert(pow2(k) == 2 * p);
            assert(x <= (2 * den) * p) by (nonlinear_arith)
                requires
                    x <= den * pow2(k),
                    pow2(k) == 2 * p,
            ;
            k = (k - 1) as nat;
        }
        den = 2 * den;
        s = s - 1;
    }
    let mut num: u128 = x;
    let ghost base = s as int;
    proof {
        k = 90;
        assert(pow2(90) == 0x400_0000_0000_0000_0000_0000) by {
            lemma_pow2_adds(64, 26);
        }
        assert(den * 0x80_0000 <= num * pow2(k)) by (nonlinear_arith)
            requires
                den <= 0x2_0000_0000_0000_0000,
                num >= 1,
                pow2(k) == 0x400_0000_0000_0000_0000_0000,
        ;
    }
    while num < den * 0x80_0000
        invariant
            1 <= num <= 0x400_0000_0000_0000_0000_0000_0000,
            1 <= den <= 0x2_0000_0000_0000_0000,
            num < den * 0x100_0000,
            den * 0x80_0000 <= num * pow2(k),
            k <= 90,
            s == base + 90 - k,
            -66 <= base <= 0,
            quotient_up(num as int, den as int, s as int) == quotient(a as int, b as int),
        decreases den * 0x100_0000 - num,
    {
        proof {
            assert(k > 0) by {
                lemma2_to64();
                if k == 0 {
                    assert(num * pow2(k) == num);
                }
            }
            let p = pow2((k - 1) as nat);
            lemma_pow2_unfold(k);
            assert(den * 0x80_0000 <= (2 * num) * p) by (nonlinear_arith)
                requires
                    den * 0x80_0000 <= num * pow2(k),
                    pow2(k) == 2 * p,
            ;
            k = (k - 1) as nat;
        }
        num = 2 * num;
        s = s + 1;
    }
    let m = nearest(num, den);
    assert(num / den < 0x100_0000) by (nonlinear_arith)
        requires
            num < den * 0x100_0000,
            den >= 1,
    ;
    Single { bits: ((149 - s) * 0x80_0000 + m as i64) as u32 }
}

/// The significant bits of a number, without its exponent.
pub open spec fn mantissa(f: Single) -> int {
    let e = (f.bits as int / 0x80_0000) % 0x100;
    let frac = f.bits as int % 0x80_0000;
    if e == 0 {
        frac
    } else {
        frac + 0x80_0000
    }
}

/// The exponent as it is stored.
pub open spec fn exponent(f: Single) -> int {
    (f.bits as int / 0x80_0000) % 0x100
}

/// The number is below zero, or is minus zero.
pub open spec fn negative(f: Single) -> bool {
    f.bits >= 0x8000_0000
}

/// What is beyond the range of an `i32` becomes the end of the range.
pub open spec fn saturated(x: int) -> int {
    if x > i32::MAX {
        i32::MAX as int
    } else if x < i32::MIN {
        i32::MIN as int
    } else {
        x
    }
}

/// The size of half of `w` times `f`, where `w` is first rounded to single precision itself;
/// rounded to 24 significant bits and cut to a whole number.
pub open spec fn half_size(w: int, f: Single) -> int {
    let e = exponent(f);
    let p = round24(round24(w) * mantissa(f));
    if e == 255 {
        if w == 0 || mantissa(f) != 0x80_0000 {
            0
        } else {
            0x1_0000_0000
        }
    } else if e <= 151 {
        p / pow2((151 - (if e == 0 {
            1
        } else {
            e
        })) as nat) as int
    } else {
        p * pow2((e - 151) as nat) as int
    }
}

/// Half of `w` times `f`, cut to a whole number: zero where `f` is no number, the end of the
/// range where the result is beyond it.
pub open spec fn half_of(w: int, f: Single) -> int {
    if negative(f) {
        saturated(-half_size(w, f))
    } else {
        saturated(half_size(w, f))
    }
}

/// Half of `w` times `f`, cut to a whole number.
pub fn scale_half(w: i32, f: Single) -> (r: i32)
    requires
        0 <= w,
    ensures
        r == half_of(w as int, f),
{
    let e: u32 = (f.bits / 0x80_0000) % 0x100;
    let frac: u32 = f.bits % 0x80_0000;
    let m: u128 = if e == 0 {
        frac as u128
    } else {
        frac as u128 + 0x80_0000
    };
    assert(m == mantissa(f));
    let n = round_unsigned(w as u128);
    proof {
        lemma_round24_near(w as int);
    }
    assert(n * m <= 0xffff_fffe * 0x100_0000 && n * m >= 0) by (nonlinear_arith)
        requires
            0 <= n <= 0xffff_fffe,
            0 <= m <= 0x100_0000,
    ;
    let p = round_unsigned(n * m);
    let size: u128 = if e == 255 {
        if w == 0 || m != 0x80_0000 {
            0
        } else {
            0x1_0000_0000
        }
    } else if e <= 151 {
        let k: u32 = if e == 0 {
            150
        } else {
            151 - e
        };
        halved(p, k)
    } else {
        doubled(p, e - 151)
    };
    let capped: i64 = if size > 0x1_0000_0000 {
        0x1_0000_0000
    } else {
        size as i64
    };
    let v: i64 = if f.bits >= 0x8000_0000 {
        -capped
    } else {
        capped
    };
    if v > i32::MAX as i64 {
        i32::MAX
    } else if v < i32::MIN as i64 {
        i32::MIN
    } else {
        v as i32
    }
}

/// `p` halved `k` times, cut to a whole number each time.
pub(crate) fn halved(p: u128, k: u32) -> (r: u128)
    ensures
        r == p as int / pow2(k as nat) as int,
    decreases k,
{
    proof {
        lemma_pow2_pos(k as nat);
        lemma2_to64();
    }
    if k == 0 {
        assert(p as int / 1 == p);
        p
    } else {
        let r = halved(p / 2, k - 1);
        proof {
            lemma_pow2_unfold(k as nat);
            lemma_pow2_pos((k - 1) as nat);
            vstd::arithmetic::div_mod::lemma_div_denominator(
                p as int,
                2,
                pow2((k - 1) as nat) as int,
            );
        }
        r
    }
}

/// `p` doubled `k` times; where that is beyond the range of an `i32`, some number beyond it.
pub(crate) fn doubled(p: u128, k: u32) -> (r: u128)
    requires
        p <= 0x1000_0000_0000_0000_0000,
    ensures
        p * pow2(k as nat) <= 0x1_0000_0000 ==> r == p * pow2(k as nat),
        p * pow2(k as nat) > 0x1_0000_0000 ==> r > 0x1_0000_0000,
    decreases k,
{
    proof {
        lemma_pow2_pos(k as nat);
        lemma2_to64();
    }
    if k == 0 {
        assert(p * 1 == p);
        p
    } else if p > 0x1_0000_0000 {
        assert(p * pow2(k as nat) > 0x1_0000_0000) by (nonlinear_arith)
            requires
                p > 0x1_0000_0000,
                pow2(k as nat) >= 1,
        ;
        p
    } else {
        proof {
            lemma_pow2_unfold(k as nat);
            let q = pow2((k - 1) as nat);
            assert((2 * p) * q == p * (2 * q)) by (nonlinear_arith);
        }
        doubled(2 * p, k - 1)
    }
}

/// The size of `x` times `f`, where `x` is first rounded to single precision itself; cut to a
/// whole number.
pub open spec fn scaled_size(x: int, f: Single) -> int {
    let e = exponent(f);
    let p = round24(round24(x) * mantissa(f));
    if e == 0 {
        p / pow2(149) as int
    } else if e <= 150 {
        p / pow2((150 - e) as nat) as int
    } else {
        p * pow2((e - 150) as nat) as int
    }
}

/// The size of `x` times `f`, cut to a whole number; where that is beyond 32 bits, some number
/// that is so too.
pub fn scale_size(x: u64, f: Single) -> (r: u128)
    requires
        x <= 0x1_0000_0000,
        f.bits < 0x7f80_0000,
    ensures
        scaled_size(x as int, f) <= 0x1_0000_0000 ==> r == scaled_size(x as int, f),
        scaled_size(x as int, f) > 0x1_0000_0000 ==> r > 0x1_0000_0000,
{
    let e: u32 = (f.bits / 0x80_0000) % 0x100;
    let frac: u32 = f.bits % 0x80_0000;
    let m: u128 = if e == 0 {
        frac as u128
    } else {
        frac as u128 + 0x80_0000
    };
    assert(m == mantissa(f));
    let n = round_unsigned(x as u128);
    proof {
        lemma_round24_near(x as int);
    }
    assert(n * m <= 0x2_0000_0000 * 0x100_0000 && n * m >= 0) by (nonlinear_arith)
        requires
            0 <= n <= 0x2_0000_0000,
            0 <= m <= 0x100_0000,
    ;
    let p = round_unsigned(n * m);
    proof {
        lemma_round24_near(n * m);
    }
    if e == 0 {
        let r = halved(p, 149);
        proof {
            lemma_pow2_pos(149);
            lemma_quotient_below(p as int, pow2(149) as int);
        }
        r
    } else if e <= 150 {
        halved(p, 150 - e)
    } else {
        doubled(p, e - 150)
    }
}

proof fn lemma_quotient_below(p: int, q: int)
    requires
        p >= 0,
        q >= 1,
    ensures
        0 <= p / q <= p,
{
    assert(0 <= p / q <= p) by (nonlinear_arith)
        requires
            p >= 0,
            q >= 1,
    ;
}

/// A number divided by itself is one.
pub proof fn lemma_quotient_of_equals(n: int)
    requires
        n > 0,
    ensures
        quotient(n, n) == 0x3f80_0000,
{
    let r = round24(n);
    lemma_round24_near(n);
    lemma2_to64();
    assert(r * 1 == r);
    lemma_quotient_grows(r, 0);
}

proof fn lemma_quotient_grows(r: int, j: nat)
    requires
        r > 0,
        j <= 23,
    ensures
        quotient_up(r * pow2(j) as int, r, j as int) == 0x3f80_0000,
    decreases 23 - j,
{
    lemma2_to64();
    lemma_pow2_pos(j);
    let a = r * pow2(j) as int;
    assert(a > 0) by (nonlinear_arith)
        requires
            r > 0,
            pow2(j) > 0,
            a == r * pow2(j) as int,
    ;
    if j == 23 {
        assert(a / r == 0x80_0000 && a % r == 0) by (nonlinear_arith)
            requires
                r > 0,
                a == r * 0x80_0000,
        ;
    } else {
        lemma_pow2_unfold(j + 1);
        vstd::arithmetic::power2::lemma_pow2_strictly_increases(j, 23);
        assert(a < r * 0x80_0000) by (nonlinear_arith)
            requires
                r > 0,
                pow2(j) < 0x80_0000,
                a == r * pow2(j) as int,
        ;
        assert(2 * a == r * pow2(j + 1) as int) by (nonlinear_arith)
            requires
                a == r * pow2(j) as int,
                pow2(j + 1) == 2 * pow2(j),
        ;
        lemma_quotient_grows(r, j + 1);
    }
}

/// Twice a number of 24 significant bits is one too.
proof fn lemma_round24_double(t: int)
    requires
        0 <= t,
        round24(t) == t,
    ensures
        round24(2 * t) == 2 * t,
{
    lemma_ulp24(t);
    if 2 * t < 0x100_0000 {
        lemma_round24_exact(2 * t);
    } else {
        let u = ulp24(t);
        let k = half_even(t, u);
        assert((2 * t) / 2 == t);
        assert(ulp24(2 * t) == 2 * u);
        assert(t == k * u);
        assert((2 * t) / (2 * u) == k && (2 * t) % (2 * u) == 0) by (nonlinear_arith)
            requires
                t == k * u,
                u >= 1,
        ;
        assert(k * (2 * u) == 2 * t) by (nonlinear_arith)
            requires
                t == k * u,
        ;
    }
}

/// A number of 24 significant bits times a power of two is one too.
pub proof fn lemma_round24_shifted(t: int, d: nat)
    requires
        0 <= t,
        round24(t) == t,
    ensures
        round24(t * pow2(d) as int) == t * pow2(d) as int,
    decreases d,
{
    lemma2_to64();
    if d > 0 {
        let q = pow2((d - 1) as nat) as int;
        lemma_round24_shifted(t, (d - 1) as nat);
        lemma_pow2_unfold(d);
        lemma_pow2_pos((d - 1) as nat);
        assert(0 <= t * q) by (nonlinear_arith)
            requires
                0 <= t,
                q >= 0,
        ;
        lemma_round24_double(t * q);
        assert(t * pow2(d) as int == 2 * (t * q)) by (nonlinear_arith)
            requires
                pow2(d) as int == 2 * q,
        ;
    } else {
        assert(t * pow2(d) as int == t) by (nonlinear_arith)
            requires
                pow2(d) as int == 1,
        ;
    }
}

/// A factor of at most one makes nothing larger than the number itself, rounded.
pub proof fn lemma_shrinking(n: int, f: Single)
    requires
        0 <= n,
        f.bits <= 0x3f80_0000,
    ensures
        0 <= scaled_size(n, f) <= round24(n) <= 2 * n,
{
    let e = exponent(f);
    let m = mantissa(f);
    let r = round24(n);
    let d = if e == 0 {
        149nat
    } else {
        (150 - e) as nat
    };
    lemma_round24_near(n);
    lemma_round24_twice(n);
    let q = pow2(d) as int;
    lemma_pow2_pos(d);
    lemma2_to64();
    assert(m <= q) by {
        if e == 127 {
            assert(m == 0x80_0000);
        } else if d > 24 {
            vstd::arithmetic::power2::lemma_pow2_strictly_increases(24, d);
        }
    }
    assert(0 <= r * m <= r * q) by (nonlinear_arith)
        requires
            0 <= r,
            0 <= m <= q,
    ;
    lemma_round24_shifted(r, d);
    lemma_round24_at_most(r * m, r * q);
    lemma_round24_near(r * m);
    let p = round24(r * m);
    assert(0 <= p / q <= r) by (nonlinear_arith)
        requires
            0 <= p <= r * q,
            q >= 1,
    ;
}

/// The size of `n` times `f`, where `n` is first rounded to single precision itself; rounded to a
/// whole number, up where two are equally near.
pub open spec fn rounded_size(n: int, f: Single) -> int {
    let e = exponent(f);
    let p = round24(round24(n) * mantissa(f));
    let k = if e == 0 {
        149
    } else {
        150 - e
    };
    if e == 255 {
        if n == 0 || mantissa(f) != 0x80_0000 {
            0
        } else {
            0x1_0000_0000
        }
    } else if k <= 0 {
        p * pow2((-k) as nat) as int
    } else {
        (2 * p + pow2(k as nat)) / (2 * pow2(k as nat) as int)
    }
}

/// `n` times `f`, rounded to a whole number: zero where `f` is no number, the end of the range
/// where the result is beyond it.
pub open spec fn rounded_product(n: int, f: Single) -> int {
    if negative(f) {
        saturated(-rounded_size(n, f))
    } else {
        saturated(rounded_size(n, f))
    }
}

/// `p` divided by two to the power `k`, rounded to a whole number, up where two are equally near.
fn rounded_down(p: u128, k: u32) -> (r: u128)
    requires
        p <= 0x400_0000_0000_0000,
        k >= 1,
    ensures
        r == (2 * p + pow2(k as nat)) / (2 * pow2(k as nat) as int),
        r <= p + 1,
{
    proof {
        lemma2_to64();
        lemma2_to64_rest();
        lemma_pow2_pos(k as nat);
    }
    if k > 60 {
        proof {
            vstd::arithmetic::power2::lemma_pow2_strictly_increases(60, k as nat);
            let q = pow2(k as nat) as int;
            assert((2 * p + q) / (2 * q) == 0) by (nonlinear_arith)
                requires
                    0 <= 2 * p < q,
            ;
        }
        return 0;
    }
    proof {
        if k < 60 {
            vstd::arithmetic::power2::lemma_pow2_strictly_increases(k as nat, 60);
        }
    }
    let q = twice(k);
    let a: u128 = 2 * p + q;
    let b: u128 = 2 * q;
    let r: u128 = a / b;
    assert(r <= p + 1) by (nonlinear_arith)
        requires
            r == a / b,
            a == 2 * p + q,
            b == 2 * q,
            q >= 1,
    ;
    r
}

/// Two to the power `k`.
fn twice(k: u32) -> (r: u128)
    requires
        k <= 60,
    ensures
        r == pow2(k as nat),
    decreases k,
{
    proof {
        lemma2_to64();
        lemma2_to64_rest();
    }
    if k == 0 {
        1
    } else {
        proof {
            lemma_pow2_unfold(k as nat);
            if k < 60 {
                vstd::arithmetic::power2::lemma_pow2_strictly_increases(k as nat, 60);
            }
        }
        2 * twice(k - 1)
    }
}

/// `n` times `f`, rounded to a whole number.
pub fn scale_rounded(n: i32, f: Single) -> (r: i32)
    requires
        0 <= n,
    ensures
        r == rounded_product(n as int, f),
{
    let e: u32 = (f.bits / 0x80_0000) % 0x100;
    let frac: u32 = f.bits % 0x80_0000;
    let m: u128 = if e == 0 {
        frac as u128
    } else {
        frac as u128 + 0x80_0000
    };
    assert(m == mantissa(f));
    let x = round_unsigned(n as u128);
    proof {
        lemma_round24_near(n as int);
    }
    assert(x * m <= 0xffff_fffe * 0x100_0000 && x * m >= 0) by (nonlinear_arith)
        requires
            0 <= x <= 0xffff_fffe,
            0 <= m <= 0x100_0000,
    ;
    let p = round_unsigned(x * m);
    proof {
        lemma_round24_near(x * m);
    }
    let size: u128 = if e == 255 {
        if n == 0 || m != 0x80_0000 {
            0
        } else {
            0x1_0000_0000
        }
    } else if e >= 150 {
        doubled(p, e - 150)
    } else {
        let k: u32 = if e == 0 {
            149
        } else {
            150 - e
        };
        rounded_down(p, k)
    };
    let capped: i64 = if size > 0x1_0000_0000 {
        0x1_0000_0001
    } else {
        size as i64
    };
    let v: i64 = if f.bits >= 0x8000_0000 {
        -capped
    } else {
        capped
    };
    if v > i32::MAX as i64 {
        i32::MAX
    } else if v < i32::MIN as i64 {
        i32::MIN
    } else {
        v as i32
    }
}

} // verus!
