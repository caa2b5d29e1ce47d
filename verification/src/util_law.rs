//! What the small helpers do with texts, numbers and names.

use vstd::arithmetic::power2::lemma2_to64;
use vstd::arithmetic::power2::lemma_pow2_pos;
use vstd::arithmetic::power2::lemma_pow2_strictly_increases;
use vstd::arithmetic::power2::lemma_pow2_unfold;
use vstd::arithmetic::power2::pow2;
use vstd::prelude::*;

use crate::decimal::percent;
use crate::quotient::lemma_part_of_whole;
use crate::quotient::lemma_quotient_is_near;
use crate::quotient::lemma_rounding_is_small;
use crate::single::half_even;
use crate::single::lemma_round24_exact;
use crate::single::quotient;
use crate::single::round24;
use crate::single::Single;
use crate::text::number::dec;
use crate::text::number::zero_padded;
use crate::util::duration_text;
use crate::util::free_name;
use crate::util::output_trimmed;
use crate::util::slug_chars;
use crate::util::slug_of;
use crate::util::truncated;
use crate::util::underscores_off_back;
use crate::util::underscores_off_front;

verus! {

/// A number below sixty in two digits.
pub open spec fn two_digits(n: int) -> Seq<char> {
    if n < 10 {
        seq!['0'] + dec(n)
    } else {
        dec(n)
    }
}

proof fn lemma_two_digits(n: int)
    requires
        0 <= n < 100,
    ensures
        zero_padded(dec(n), 2) == two_digits(n),
{
    reveal_with_fuel(zero_padded, 2);
    reveal_with_fuel(dec, 2);
}

/// A duration is said in hours, minutes and seconds; below an hour without the hours, and below a
/// minute in seconds and tenths of them. What is less is cut off.
pub proof fn lemma_durations_are_said(h: int, m: int, s: int, tenths: int, rest: int)
    requires
        0 <= h,
        0 <= m < 60,
        0 <= s < 60,
        0 <= tenths < 10,
        0 <= rest < 100,
    ensures
        ({
            let t = duration_text(((h * 60 + m) * 60 + s) * 1000 + tenths * 100 + rest);
            &&& h > 0 ==> t == dec(h) + "h"@ + two_digits(m) + "m"@ + two_digits(s) + "s"@
            &&& h == 0 && m > 0 ==> t == two_digits(m) + "m"@ + two_digits(s) + "s"@
            &&& h == 0 && m == 0 ==> t == dec(s) + "."@ + dec(tenths) + "s"@
        }),
{
    let secs = (h * 60 + m) * 60 + s;
    let ms = secs * 1000 + tenths * 100 + rest;
    assert(ms / 1000 == secs);
    assert((ms % 1000) / 100 == tenths);
    assert(secs / 3600 == h);
    assert((secs % 3600) / 60 == m);
    assert(secs % 60 == s);
    lemma_two_digits(m);
    lemma_two_digits(s);
    if h == 0 {
        assert(secs / 60 == m);
    }
}

/// A text that is short enough stays; another keeps its front and gets an ellipsis.
pub proof fn lemma_what_is_cut_off(s: Seq<char>, more: Seq<char>, n: int)
    requires
        s.len() == n,
    ensures
        truncated(s, n) == s,
        more.len() > 0 ==> truncated(s + more, n) == s + seq!['…'],
{
    if more.len() > 0 {
        assert((s + more).take(n) =~= s);
        assert(s.push('…') =~= s + seq!['…']);
    }
}

/// Line ends and blanks behind the output of a command are not part of it.
pub proof fn lemma_output_without_its_tail(s: Seq<char>, tail: Seq<char>)
    requires
        s.len() == 0 || (s.last() != ' ' && s.last() != '\n' && s.last() != '\r'),
        forall|i: int|
            0 <= i < tail.len() ==> #[trigger] tail[i] == ' ' || tail[i] == '\n' || tail[i] == '\r',
    ensures
        output_trimmed(s + tail) == s,
    decreases tail.len(),
{
    if tail.len() == 0 {
        assert(s + tail =~= s);
    } else {
        let t = tail.drop_last();
        assert((s + tail).drop_last() =~= s + t);
        assert((s + tail).last() == tail[tail.len() - 1]);
        assert forall|i: int| 0 <= i < t.len() implies #[trigger] t[i] == ' ' || t[i] == '\n'
            || t[i] == '\r' by {
            assert(t[i] == tail[i]);
        }
        lemma_output_without_its_tail(s, t);
    }
}

// ---------------------------------------------------------------- names of files

/// The character may stand in a file name as it is.
pub open spec fn fit_for_names(c: char) -> bool {
    ('a' <= c <= 'z') || ('A' <= c <= 'Z') || ('0' <= c <= '9') || c == '-' || c == '_'
}

proof fn lemma_slug_sum(a: Seq<char>, b: Seq<char>)
    ensures
        slug_chars(a + b) == slug_chars(a) + slug_chars(b),
    decreases b.len(),
{
    if b.len() == 0 {
        assert(a + b =~= a);
        assert(slug_chars(a) + slug_chars(b) =~= slug_chars(a));
    } else {
        assert((a + b).drop_last() =~= a + b.drop_last());
        assert((a + b).last() == b.last());
        lemma_slug_sum(a, b.drop_last());
        assert(slug_chars(a + b) =~= slug_chars(a) + slug_chars(b));
    }
}

proof fn lemma_one_slug(c: char)
    ensures
        fit_for_names(c) ==> slug_chars(seq![c]) == seq![c],
        c == '.' || c == ':' || c == '/' ==> slug_chars(seq![c]) == seq!['_'],
        !fit_for_names(c) && c != '.' && c != ':' && c != '/' ==> slug_chars(seq![c]).len() == 0,
{
    let s = seq![c];
    assert(s.drop_last() =~= seq![]);
    assert(slug_chars(s) =~= slug_chars(seq![]) + crate::util::slug_char(c));
    assert(slug_chars(seq![]) =~= seq![]);
}

/// In a file name points, colons and slashes become underscores, and other characters that do not
/// fit vanish.
pub proof fn lemma_what_does_not_fit(a: Seq<char>, c: char, b: Seq<char>)
    ensures
        c == '.' || c == ':' || c == '/' ==> slug_of(a + seq![c] + b) == slug_of(
            a + seq!['_'] + b,
        ),
        !fit_for_names(c) && c != '.' && c != ':' && c != '/' ==> slug_of(a + seq![c] + b)
            == slug_of(a + b),
{
    lemma_one_slug(c);
    lemma_one_slug('_');
    lemma_slug_sum(a + seq![c], b);
    lemma_slug_sum(a, seq![c]);
    lemma_slug_sum(a + seq!['_'], b);
    lemma_slug_sum(a, seq!['_']);
    lemma_slug_sum(a, b);
    if !fit_for_names(c) && c != '.' && c != ':' && c != '/' {
        assert(slug_chars(seq![c]) =~= seq![]);
        assert(slug_chars(a) + slug_chars(seq![c]) =~= slug_chars(a));
    }
}

proof fn lemma_all_fit(s: Seq<char>)
    requires
        forall|i: int| 0 <= i < s.len() ==> fit_for_names(#[trigger] s[i]),
    ensures
        slug_chars(s) == s,
    decreases s.len(),
{
    if s.len() > 0 {
        let d = s.drop_last();
        assert forall|i: int| 0 <= i < d.len() implies fit_for_names(#[trigger] d[i]) by {
            assert(d[i] == s[i]);
        }
        lemma_all_fit(d);
        assert(fit_for_names(s[s.len() - 1]));
        assert(s =~= d + seq![s.last()]);
    }
}

/// What fits is kept, but for underscores at both ends; where nothing is left the name is
/// `unknown`.
pub proof fn lemma_what_fits_is_kept(front: nat, s: Seq<char>, back: nat)
    requires
        forall|i: int| 0 <= i < s.len() ==> fit_for_names(#[trigger] s[i]),
        s.len() > 0 ==> s[0] != '_' && s.last() != '_',
        s.len() == 0 ==> front + back == 0,
    ensures
        s.len() > 0 ==> slug_of(
            Seq::new(front, |i: int| '_') + s + Seq::new(back, |i: int| '_'),
        ) == s,
        s.len() == 0 ==> slug_of(s) == "unknown"@,
{
    let a = Seq::new(front, |i: int| '_');
    let b = Seq::new(back, |i: int| '_');
    let t = a + s + b;
    assert forall|i: int| 0 <= i < t.len() implies fit_for_names(#[trigger] t[i]) by {
        if i < front {
        } else if i < front + s.len() {
            assert(t[i] == s[i - front]);
        }
    }
    lemma_all_fit(t);
    lemma_front_off(front, s + b);
    lemma_back_off(s, back);
    assert(t =~= a + (s + b));
    if s.len() == 0 {
        assert(t =~= s);
    } else {
        assert((s + b)[0] == s[0]);
    }
}

proof fn lemma_front_off(n: nat, s: Seq<char>)
    requires
        s.len() == 0 || s[0] != '_',
    ensures
        underscores_off_front(Seq::new(n, |i: int| '_') + s) == s,
    decreases n,
{
    let a = Seq::new(n, |i: int| '_');
    if n == 0 {
        assert(a + s =~= s);
    } else {
        let m = (n - 1) as nat;
        assert((a + s).drop_first() =~= Seq::new(m, |i: int| '_') + s);
        lemma_front_off(m, s);
    }
}

proof fn lemma_back_off(s: Seq<char>, n: nat)
    requires
        s.len() == 0 || s.last() != '_',
    ensures
        underscores_off_back(s + Seq::new(n, |i: int| '_')) == s,
    decreases n,
{
    let a = Seq::new(n, |i: int| '_');
    if n == 0 {
        assert(s + a =~= s);
    } else {
        let m = (n - 1) as nat;
        assert((s + a).drop_last() =~= s + Seq::new(m, |i: int| '_'));
        assert((s + a).last() == '_');
        lemma_back_off(s, m);
    }
}

/// The `n`th name that is tried: the stem alone, then with the numbers from two on.
pub open spec fn nth_name(stem: Seq<char>, n: int) -> Seq<char> {
    if n == 1 {
        stem
    } else {
        stem + "_"@ + dec(n)
    }
}

/// The name that is given is the first one that is free, up to the number 999; only where all of
/// those are taken it has the stamp.
pub proof fn lemma_free_name_is_first(
    stem: Seq<char>,
    taken: Seq<Seq<char>>,
    stamp: Seq<char>,
    n: int,
)
    requires
        1 <= n <= 1000,
    ensures
        ({
            let r = free_name(stem, taken, stamp, n);
            ||| exists|k: int|
                #![trigger nth_name(stem, k)]
                n <= k <= 999 && r == nth_name(stem, k) && !taken.contains(r) && forall|j: int|
                    n <= j < k ==> taken.contains(#[trigger] nth_name(stem, j))
            ||| r == stem + "_"@ + stamp && forall|j: int|
                n <= j <= 999 ==> taken.contains(#[trigger] nth_name(stem, j))
        }),
    decreases 1000 - n,
{
    if n < 1000 {
        assert(crate::util::numbered(stem, n) == nth_name(stem, n));
        if taken.contains(nth_name(stem, n)) {
            lemma_free_name_is_first(stem, taken, stamp, n + 1);
        }
    }
}

// ---------------------------------------------------------------- numbers

proof fn lemma_tenths(a: int, b: int, m: int, l: int, p: int, n: int)
    requires
        0 < a <= b,
        0x40_0000 <= l,
        0x80_0000 <= m < 0x100_0000,
        2 * (m * b - a * l) <= b,
        2 * (a * l - m * b) <= b,
        0x100_0000 * (p - 100 * m) <= 100 * m,
        0x100_0000 * (100 * m - p) <= 100 * m,
        2 * (n * l - 10 * p) <= l,
        2 * (10 * p - n * l) <= l,
    ensures
        n * b <= 1000 * a + b,
        1000 * a <= n * b + b,
{
    let mb = m * b;
    let al = a * l;
    let bl = b * l;
    let pb = p * b;
    let nlb = (n * l) * b;
    assert(al <= bl) by (nonlinear_arith)
        requires
            al == a * l,
            bl == b * l,
            a <= b,
            l > 0,
    ;
    assert(0x40_0000 * b <= bl) by (nonlinear_arith)
        requires
            bl == b * l,
            0x40_0000 <= l,
            b > 0,
    ;
    assert(0x100_0000 * (pb - 100 * mb) <= 100 * mb && 0x100_0000 * (100 * mb - pb) <= 100 * mb)
        by (nonlinear_arith)
        requires
            pb == p * b,
            mb == m * b,
            b > 0,
            0x100_0000 * (p - 100 * m) <= 100 * m,
            0x100_0000 * (100 * m - p) <= 100 * m,
    ;
    assert(2 * (nlb - 10 * pb) <= bl && 2 * (10 * pb - nlb) <= bl) by (nonlinear_arith)
        requires
            nlb == (n * l) * b,
            pb == p * b,
            bl == b * l,
            b > 0,
            2 * (n * l - 10 * p) <= l,
            2 * (10 * p - n * l) <= l,
    ;
    assert(nlb <= 1000 * al + bl);
    assert(1000 * al <= nlb + bl);
    assert(n * b <= 1000 * a + b) by (nonlinear_arith)
        requires
            nlb == (n * l) * b,
            al == a * l,
            bl == b * l,
            l > 0,
            nlb <= 1000 * al + bl,
    ;
    assert(1000 * a <= n * b + b) by (nonlinear_arith)
        requires
            nlb == (n * l) * b,
            al == a * l,
            bl == b * l,
            l > 0,
            1000 * al <= nlb + bl,
    ;
}

proof fn lemma_half_even_off(a: int, b: int)
    requires
        b > 0,
    ensures
        2 * (half_even(a, b) * b - a) <= b,
        2 * (a - half_even(a, b) * b) <= b,
{
    let q = a / b;
    let r = a % b;
    assert(a == q * b + r && 0 <= r < b) by (nonlinear_arith)
        requires
            b > 0,
            q == a / b,
            r == a % b,
    ;
    assert((q + 1) * b == q * b + b) by (nonlinear_arith);
}

/// A share is shown in hundredths with one digit behind the point, off by at most one tenth of a
/// hundredth.
pub proof fn lemma_shares_are_shown(part: int, whole: int) -> (n: int)
    requires
        0 <= part <= whole,
        0 < whole < 0x80_0000,
    ensures
        0 <= n,
        percent(Single { bits: quotient(part, whole) as u32 }) == dec(n / 10) + "."@ + dec(n % 10)
            + "%"@,
        n * whole <= 1000 * part + whole,
        1000 * part <= n * whole + whole,
{
    lemma_part_of_whole(part, whole);
    lemma_round24_exact(part);
    lemma_round24_exact(whole);
    reveal_with_fuel(zero_padded, 2);
    let bits = quotient(part, whole);
    if part == 0 {
        let f = Single { bits: 0u32 };
        assert(bits == 0);
        assert(crate::single::exponent(f) == 0);
        assert(crate::single::mantissa(f) == 0);
        lemma_round24_exact(0);
        lemma_pow2_pos(149);
        let l = pow2(149) as int;
        assert(0int / l == 0 && 0int % l == 0) by (nonlinear_arith)
            requires
                l > 0,
        ;
        assert(crate::decimal::parts_of(0, -149, 10) == 0);
        assert(dec(0).len() == 1);
        assert(0 * whole == 0) by (nonlinear_arith);
        0
    } else {
        lemma2_to64();
        let k = lemma_quotient_is_near(part, whole);
        let a = part * pow2(k);
        let m = half_even(a, whole);
        let f = Single { bits: bits as u32 };
        lemma_half_even_off(a, whole);
        assert(0 <= bits <= 0x3f80_0000);
        assert(k >= 23) by {
            if k < 23 {
                lemma_pow2_strictly_increases(k, 23);
                assert(a < whole * 0x80_0000) by (nonlinear_arith)
                    requires
                        a == part * pow2(k),
                        0 < part <= whole,
                        pow2(k) < 0x80_0000,
                ;
            }
        }
        if k > 23 {
            lemma_pow2_strictly_increases(23, k);
        }
        if m < 0x100_0000 {
            assert(crate::single::exponent(f) == 150 - k);
            assert(crate::single::mantissa(f) == m);
            let l = pow2(k) as int;
            let p = round24(100 * m);
            lemma_rounding_is_small(100 * m);
            let n = half_even(p * 10, l);
            lemma_half_even_off(p * 10, l);
            assert(crate::decimal::parts_of(p, -(k as int), 10) == n);
            lemma_tenths(part, whole, m, l, p, n);
            lemma_tenths_text(f, p, l, k as int, n);
            assert(n * whole <= 1000 * part + whole && 1000 * part <= n * whole + whole);
            n
        } else {
            let j = (k - 1) as nat;
            lemma_pow2_unfold(k);
            assert(crate::single::exponent(f) == 151 - k);
            assert(crate::single::mantissa(f) == 0x80_0000);
            let l = pow2(j) as int;
            lemma_pow2_pos(j);
            let p = round24(838_860_800);
            lemma_rounding_is_small(838_860_800);
            let n = half_even(p * 10, l);
            lemma_half_even_off(p * 10, l);
            assert(crate::decimal::parts_of(p, -(j as int), 10) == n);
            assert(a == 2 * (part * l)) by (nonlinear_arith)
                requires
                    a == part * pow2(k),
                    pow2(k) == 2 * pow2(j),
                    l == pow2(j),
            ;
            assert(m * whole == 2 * (0x80_0000 * whole)) by (nonlinear_arith)
                requires
                    m == 0x100_0000,
            ;
            lemma_tenths(part, whole, 0x80_0000, l, p, n);
            lemma_tenths_text(f, p, l, j as int, n);
            assert(n * whole <= 1000 * part + whole && 1000 * part <= n * whole + whole);
            n
        }
    }
}

proof fn lemma_tenths_text(f: Single, p: int, l: int, k: int, n: int)
    requires
        k > 0,
        l == pow2(k as nat),
        p >= 0,
        n == half_even(p * 10, l),
        f.bits <= 0x3f80_0000,
        crate::single::exponent(f) == 150 - k,
        p == round24(100 * crate::single::mantissa(f)),
        k < 149,
    ensures
        n >= 0,
        percent(f) == dec(n / 10) + "."@ + dec(n % 10) + "%"@,
{
    lemma_pow2_pos(k as nat);
    assert(n >= 0) by {
        assert((p * 10) / l >= 0) by (nonlinear_arith)
            requires
                p >= 0,
                l > 0,
        ;
    }
    assert(crate::decimal::scale(f) == -k);
    assert(dec(n % 10).len() == 1);
    assert(zero_padded(dec(n % 10), 1) == dec(n % 10));
}

} // verus!
