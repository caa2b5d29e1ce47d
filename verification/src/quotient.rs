//! How a quotient of single precision stands to the exact one.

use vstd::arithmetic::power2::lemma2_to64;
use vstd::arithmetic::power2::lemma_pow2_adds;
use vstd::arithmetic::power2::lemma_pow2_pos;
use vstd::arithmetic::power2::lemma_pow2_strictly_increases;
use vstd::arithmetic::power2::lemma_pow2_unfold;
use vstd::arithmetic::power2::pow2;
use vstd::prelude::*;

use crate::single::half_even;
use crate::single::lemma_round24_exact;
use crate::single::lemma_round24_near;
use crate::single::lemma_ulp24;
use crate::single::quotient;
use crate::single::quotient_up;
use crate::single::round24;

verus! {

/// The bits of the number `m / 2^k`, where `m` has 24 significant bits.
pub open spec fn bits_of(m: int, k: int) -> int {
    (149 - k) * 0x80_0000 + m
}

/// The bits are those of a number that is as near to `a / b` as one of 24 significant bits can
/// be: it is `m / 2^k`, and it is off by at most half a unit of `m`.
pub open spec fn near_quotient(bits: int, a: int, b: int) -> bool {
    exists|m: int, k: nat|
        #![trigger bits_of(m, k as int)]
        0x80_0000 <= m <= 0x100_0000 && k <= 88 && bits == bits_of(m, k as int) && 2 * (m * b - a
            * pow2(k)) <= b && 2 * (a * pow2(k) - m * b) <= b
}

proof fn lemma_half_even_near(a: int, b: int)
    requires
        b > 0,
    ensures
        2 * (half_even(a, b) * b - a) <= b,
        2 * (a - half_even(a, b) * b) <= b,
{
    let q = a / b;
    let r = a % b;
    assert(a == q * b + r && 0 <= r < b) by (nonlinear_arith)
        requires
            b > 0,
            q == a / b,
            r == a % b,
    ;
    assert((q + 1) * b == q * b + b) by (nonlinear_arith);
}

/// How often the numerator is doubled.
proof fn lemma_doublings(a: int, b: int, s: nat) -> (k: nat)
    requires
        0 < a,
        0 < b <= 0x2_0000_0000_0000_0000,
        a * pow2(s) < b * 0x100_0000,
        s <= 88,
    ensures
        s <= k <= 88,
        b * 0x80_0000 <= a * pow2(k) < b * 0x100_0000,
        quotient_up(a * pow2(s), b, s as int) == bits_of(half_even(a * pow2(k), b), k as int),
    decreases 88 - s,
{
    lemma_pow2_pos(s);
    assert(a * pow2(s) > 0) by (nonlinear_arith)
        requires
            a > 0,
            pow2(s) > 0,
    ;
    if a * pow2(s) < b * 0x80_0000 {
        assert(s < 88) by {
            if s == 88 {
                lemma2_to64();
                lemma_pow2_adds(64, 24);
                lemma_pow2_adds(32, 32);
                assert(pow2(88) == pow2(64) * pow2(24));
                assert(pow2(64) == 0x1_0000_0000_0000_0000);
                assert(a * pow2(s) >= pow2(s)) by (nonlinear_arith)
                    requires
                        a >= 1,
                        pow2(s) > 0,
                ;
            }
        }
        lemma_pow2_unfold(s + 1);
        assert(2 * (a * pow2(s)) == a * pow2(s + 1)) by (nonlinear_arith)
            requires
                pow2(s + 1) == 2 * pow2(s),
        ;
        lemma_doublings(a, b, s + 1)
    } else {
        s
    }
}

/// The quotient of two numbers of at most 24 significant bits is as near to the exact one as it
/// can be.
pub proof fn lemma_quotient_is_near(a: int, b: int) -> (k: nat)
    requires
        0 < a,
        0 < b <= 0x2_0000_0000_0000_0000,
        a < b * 0x100_0000,
        round24(a) == a,
        round24(b) == b,
    ensures
        near_quotient(quotient(a, b), a, b),
        k <= 88,
        b * 0x80_0000 <= a * pow2(k) < b * 0x100_0000,
        quotient(a, b) == bits_of(half_even(a * pow2(k), b), k as int),
        0x80_0000 <= half_even(a * pow2(k), b) <= 0x100_0000,
{
    lemma2_to64();
    assert(a * pow2(0) == a);
    let k = lemma_doublings(a, b, 0);
    let x = a * pow2(k);
    let m = half_even(x, b);
    lemma_half_even_near(x, b);
    assert(0x80_0000 <= x / b < 0x100_0000) by (nonlinear_arith)
        requires
            b * 0x80_0000 <= x < b * 0x100_0000,
            b > 0,
    ;
    assert(quotient(a, b) == bits_of(m, k as int));
    k
}

/// A quotient that is clearly above a number of single precision has larger bits, and one that is
/// clearly below it has smaller ones.
pub proof fn lemma_quotient_against(a: int, b: int, mt: int, kt: nat)
    requires
        0 < a,
        0 < b <= 0x2_0000_0000_0000_0000,
        a < b * 0x100_0000,
        round24(a) == a,
        round24(b) == b,
        0x80_0000 <= mt < 0x100_0000,
    ensures
        a * pow2(kt) > (mt + 1) * b ==> quotient(a, b) > bits_of(mt, kt as int),
        a * pow2(kt) < (mt - 1) * b ==> quotient(a, b) < bits_of(mt, kt as int),
{
    let k = lemma_quotient_is_near(a, b);
    let x = a * pow2(k);
    let y = a * pow2(kt);
    let m = half_even(x, b);
    lemma_half_even_near(x, b);
    if k < kt {
        lemma_shifted(a, k, kt);
        assert(y >= 0x100_0000 * b);
        assert((mt - 1) * b <= 0x100_0000 * b) by (nonlinear_arith)
            requires
                mt < 0x100_0000,
                b > 0,
        ;
    } else if k > kt {
        lemma_shifted(a, kt, k);
        assert(2 * y <= x);
        if y > (mt + 1) * b {
            assert((mt + 1) * b >= 0x80_0001 * b) by (nonlinear_arith)
                requires
                    mt >= 0x80_0000,
                    b > 0,
            ;
        }
        if y < (mt - 1) * b && k == kt + 1 && m == 0x100_0000 && mt == 0x80_0000 {
            lemma_pow2_unfold(k);
            assert(x == 2 * y) by (nonlinear_arith)
                requires
                    x == a * pow2(k),
                    y == a * pow2(kt),
                    pow2(k) == 2 * pow2(kt),
            ;
            assert(m * b == 0x100_0000 * b);
            assert((mt - 1) * b == 0x7f_ffff * b);
        }
    } else {
        if y > (mt + 1) * b {
            assert(m > mt) by (nonlinear_arith)
                requires
                    y > (mt + 1) * b,
                    2 * (y - m * b) <= b,
                    b > 0,
            ;
        }
        if y < (mt - 1) * b {
            assert(m < mt) by (nonlinear_arith)
                requires
                    y < (mt - 1) * b,
                    2 * (m * b - y) <= b,
                    b > 0,
            ;
        }
    }
}

proof fn lemma_shifted(a: int, k: nat, l: nat)
    requires
        a > 0,
        k < l,
    ensures
        2 * (a * pow2(k)) <= a * pow2(l),
{
    lemma_pow2_unfold(k + 1);
    if k + 1 < l {
        lemma_pow2_strictly_increases(k + 1, l);
    }
    assert(2 * (a * pow2(k)) <= a * pow2(l)) by (nonlinear_arith)
        requires
            pow2(k + 1) == 2 * pow2(k),
            pow2(k + 1) <= pow2(l),
            a > 0,
    ;
}

/// Rounding to 24 significant bits moves a number by at most one in sixteen million.
pub proof fn lemma_rounding_is_small(x: int)
    requires
        0 <= x,
    ensures
        0x100_0000 * (round24(x) - x) <= x,
        0x100_0000 * (x - round24(x)) <= x,
{
    lemma_round24_near(x);
    lemma_ulp24(x);
    if x < 0x100_0000 {
        lemma_round24_exact(x);
    }
}

/// A part of a whole: its quotient is zero only for nothing, and one if and only if it is all of
/// it.
pub proof fn lemma_part_of_whole(part: int, whole: int)
    requires
        0 <= part <= whole,
        0 < whole < 0x80_0000,
    ensures
        quotient(part, whole) == 0 <==> part == 0,
        quotient(part, whole) == 0x3f80_0000 <==> part == whole,
        quotient(part, whole) <= 0x3f80_0000,
        part > 0 ==> near_quotient(quotient(part, whole), part, whole),
{
    lemma_round24_exact(part);
    lemma_round24_exact(whole);
    lemma2_to64();
    if part == 0 {
    } else if part == whole {
        crate::single::lemma_quotient_of_equals(whole);
        let k = lemma_quotient_is_near(part, whole);
    } else {
        let k = lemma_quotient_is_near(part, whole);
        lemma_quotient_against(part, whole, 0x80_0000, 23);
        assert(part * pow2(23) < (0x80_0000 - 1) * whole);
        assert(bits_of(0x80_0000, 23) == 0x3f80_0000);
    }
}

/// More of the same whole never has a smaller quotient.
pub proof fn lemma_more_is_not_less(part: int, more: int, whole: int)
    requires
        0 <= part <= more <= whole,
        0 < whole < 0x80_0000,
    ensures
        quotient(part, whole) <= quotient(more, whole),
{
    lemma_part_of_whole(part, whole);
    lemma_part_of_whole(more, whole);
    lemma_round24_exact(part);
    lemma_round24_exact(more);
    lemma_round24_exact(whole);
    if part == 0 {
        if more > 0 {
            let k = lemma_quotient_is_near(more, whole);
        }
    } else {
        let k = lemma_quotient_is_near(part, whole);
        let l = lemma_quotient_is_near(more, whole);
        let x = part * pow2(k);
        let y = more * pow2(l);
        lemma_pow2_pos(k);
        lemma_pow2_pos(l);
        if k < l {
            lemma_shifted(part, k, l);
            assert(part * pow2(l) <= more * pow2(l)) by (nonlinear_arith)
                requires
                    part <= more,
                    pow2(l) > 0,
            ;
        } else if k == l {
            assert(x <= y) by (nonlinear_arith)
                requires
                    x == part * pow2(k),
                    y == more * pow2(k),
                    part <= more,
                    pow2(k) > 0,
            ;
            lemma_half_even_grows(x, y, whole);
        }
    }
}

proof fn lemma_half_even_grows(x: int, y: int, b: int)
    requires
        x <= y,
        b > 0,
    ensures
        half_even(x, b) <= half_even(y, b),
{
    let p = x / b;
    let q = y / b;
    assert(x == p * b + x % b && y == q * b + y % b && 0 <= x % b < b && 0 <= y % b < b)
        by (nonlinear_arith)
        requires
            b > 0,
            p == x / b,
            q == y / b,
    ;
    assert(p <= q) by (nonlinear_arith)
        requires
            p * b + x % b <= q * b + y % b,
            0 <= x % b,
            y % b < b,
            b > 0,
    ;
}

} // verus!
