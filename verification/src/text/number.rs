//! Numbers as text.

use vstd::prelude::*;

verus! {

/// The value of a digit in the given radix, up to sixteen.
pub open spec fn digit_of(c: char, radix: int) -> Option<int> {
    let n = c as int;
    let d = if 48 <= n <= 57 {
        n - 48
    } else if 97 <= n <= 102 {
        n - 87
    } else if 65 <= n <= 70 {
        n - 55
    } else {
        16
    };
    if d < radix {
        Some(d)
    } else {
        None
    }
}

/// Every character is a digit in the given radix.
pub open spec fn all_digits(s: Seq<char>, radix: int) -> bool {
    forall|i: int| 0 <= i < s.len() ==> digit_of(#[trigger] s[i], radix) is Some
}

/// The number that the digits write.
pub open spec fn value_of(s: Seq<char>, radix: int) -> int
    decreases s.len(),
{
    if s.len() == 0 {
        0
    } else {
        value_of(s.drop_last(), radix) * radix + digit_of(s.last(), radix).unwrap_or(0)
    }
}

/// A sequence of digits, with a plus sign in front or not.
pub open spec fn unsigned_value(s: Seq<char>, radix: int) -> Option<int> {
    let d = if s.len() > 0 && s[0] == '+' {
        s.drop_first()
    } else {
        s
    };
    if d.len() > 0 && all_digits(d, radix) {
        Some(value_of(d, radix))
    } else {
        None
    }
}

/// A sequence of decimal digits, with a sign in front or not.
pub open spec fn signed_value(s: Seq<char>) -> Option<int> {
    if s.len() > 0 && s[0] == '-' {
        let d = s.drop_first();
        if d.len() > 0 && all_digits(d, 10) {
            Some(-value_of(d, 10))
        } else {
            None
        }
    } else {
        unsigned_value(s, 10)
    }
}

/// What is in range stays, what is not is no number.
pub open spec fn within(v: Option<int>, lo: int, hi: int) -> Option<int> {
    match v {
        Some(n) => if lo <= n <= hi {
            Some(n)
        } else {
            None
        },
        None => None,
    }
}

/// The number that the text writes for an `i32`.
pub open spec fn i32_of(s: Seq<char>) -> Option<int> {
    within(signed_value(s), i32::MIN as int, i32::MAX as int)
}

/// The number that the text writes for a `u64`.
pub open spec fn u64_of(s: Seq<char>) -> Option<int> {
    within(unsigned_value(s, 10), 0, u64::MAX as int)
}

/// The number that the text writes for a `usize`.
pub open spec fn usize_of(s: Seq<char>) -> Option<int> {
    within(unsigned_value(s, 10), 0, usize::MAX as int)
}

/// The number that the text writes for a `u32`, in the given radix.
pub open spec fn u32_of(s: Seq<char>, radix: int) -> Option<int> {
    within(unsigned_value(s, radix), 0, u32::MAX as int)
}

pub proof fn lemma_value_grows(s: Seq<char>, radix: int, k: int)
    requires
        0 <= k <= s.len(),
        radix >= 1,
    ensures
        0 <= value_of(s.take(k), radix) <= value_of(s, radix),
    decreases s.len(),
{
    if s.len() == 0 {
        assert(s.take(k) =~= s);
    } else {
        let d = s.drop_last();
        if k == s.len() {
            assert(s.take(k) =~= s);
            lemma_value_grows(d, radix, d.len() as int);
            assert(d.take(d.len() as int) =~= d);
        } else {
            lemma_value_grows(d, radix, k);
            assert(d.take(k) =~= s.take(k));
        }
        let x = value_of(d, radix);
        assert(x * radix >= x) by (nonlinear_arith)
            requires
                x >= 0,
                radix >= 1,
        ;
    }
}

fn digit(c: char, radix: u64) -> (r: Option<u64>)
    requires
        radix <= 16,
    ensures
        match digit_of(c, radix as int) {
            Some(d) => r == Some(d as u64) && 0 <= d < radix,
            None => r is None,
        },
{
    let n: u32 = c as u32;
    let d: u64 = if 48 <= n && n <= 57 {
        (n - 48) as u64
    } else if 97 <= n && n <= 102 {
        (n - 87) as u64
    } else if 65 <= n && n <= 70 {
        (n - 55) as u64
    } else {
        16
    };
    if d < radix {
        Some(d)
    } else {
        None
    }
}

/// The number that the digits of `v` from `from` on write, where it is at most `max`.
pub fn parse_digits(v: &[char], from: usize, radix: u64, max: u64) -> (r: Option<u64>)
    requires
        from <= v@.len(),
        2 <= radix <= 16,
    ensures
        ({
            let d = v@.skip(from as int);
            if d.len() > 0 && all_digits(d, radix as int) && value_of(d, radix as int) <= max {
                r == Some(value_of(d, radix as int) as u64)
            } else {
                r is None
            }
        }),
{
    let ghost d = v@.skip(from as int);
    if from == v.len() {
        return None;
    }
    let mut acc: u64 = 0;
    let mut i: usize = from;
    assert(d.take(0) =~= Seq::<char>::empty());
    while i < v.len()
        invariant
            from <= i <= v@.len(),
            from < v@.len(),
            d == v@.skip(from as int),
            2 <= radix <= 16,
            acc <= max,
            acc == value_of(d.take(i - from), radix as int),
            all_digits(d.take(i - from), radix as int),
        decreases v@.len() - i,
    {
        let ghost k: int = i - from;
        assert(d.take(k + 1).drop_last() =~= d.take(k));
        assert(d.take(k + 1).last() == v@[i as int]);
        match digit(v[i], radix) {
            None => {
                assert(d[k] == v@[i as int]);
                return None;
            },
            Some(x) => {
                assert(value_of(d.take(k + 1), radix as int) == acc * radix + x);
                assert(acc * radix <= 0xffff_ffff_ffff_ffff * 16) by (nonlinear_arith)
                    requires
                        acc <= 0xffff_ffff_ffff_ffff,
                        radix <= 16,
                ;
                let wide: u128 = (acc as u128) * (radix as u128) + (x as u128);
                if wide > max as u128 {
                    proof {
                        lemma_value_grows(d, radix as int, k + 1);
                    }
                    return None;
                }
                acc = wide as u64;
                assert forall|j: int| 0 <= j < k + 1 implies digit_of(
                    #[trigger] d.take(k + 1)[j],
                    radix as int,
                ) is Some by {
                    if j < k {
                        assert(d.take(k)[j] == d.take(k + 1)[j]);
                    }
                }
            },
        }
        i = i + 1;
    }
    assert(d.take(i - from) =~= d);
    Some(acc)
}

pub fn parse_unsigned(v: &[char], radix: u64, max: u64) -> (r: Option<u64>)
    requires
        2 <= radix <= 16,
    ensures
        match within(unsigned_value(v@, radix as int), 0, max as int) {
            Some(n) => r == Some(n as u64) && 0 <= n <= max,
            None => r is None,
        },
{
    let from: usize = if v.len() > 0 && v[0] == '+' {
        1
    } else {
        0
    };
    assert(v@.skip(0) =~= v@);
    assert(v@.len() > 0 ==> v@.skip(1) =~= v@.drop_first());
    proof {
        let d = v@.skip(from as int);
        lemma_value_grows(d, radix as int, 0);
    }
    parse_digits(v, from, radix, max)
}

pub fn parse_u64(v: &[char]) -> (r: Option<u64>)
    ensures
        match u64_of(v@) {
            Some(n) => r == Some(n as u64),
            None => r is None,
        },
{
    parse_unsigned(v, 10, u64::MAX)
}

pub fn parse_u32(v: &[char], radix: u64) -> (r: Option<u32>)
    requires
        2 <= radix <= 16,
    ensures
        match u32_of(v@, radix as int) {
            Some(n) => r == Some(n as u32),
            None => r is None,
        },
{
    match parse_unsigned(v, radix, u32::MAX as u64) {
        Some(n) => Some(n as u32),
        None => None,
    }
}

pub fn parse_usize(v: &[char]) -> (r: Option<usize>)
    ensures
        match usize_of(v@) {
            Some(n) => r == Some(n as usize),
            None => r is None,
        },
{
    match parse_unsigned(v, 10, usize::MAX as u64) {
        Some(n) => Some(n as usize),
        None => None,
    }
}

pub fn parse_i32(v: &[char]) -> (r: Option<i32>)
    ensures
        match i32_of(v@) {
            Some(n) => r == Some(n as i32),
            None => r is None,
        },
{
    if v.len() > 0 && v[0] == '-' {
        assert(v@.skip(1) =~= v@.drop_first());
        proof {
            lemma_value_grows(v@.skip(1), 10, 0);
        }
        match parse_digits(v, 1, 10, 0x8000_0000) {
            Some(n) => Some((-(n as i64)) as i32),
            None => None,
        }
    } else {
        proof {
            lemma_value_grows(v@, 10, 0);
            lemma_value_grows(v@.drop_first(), 10, 0);
        }
        match parse_unsigned(v, 10, 0x7fff_ffff) {
            Some(n) => Some(n as i32),
            None => None,
        }
    }
}

/// The character of a decimal digit.
pub open spec fn digit_char(n: int) -> char {
    (48 + n) as char
}

/// A number in decimal digits.
pub open spec fn dec(n: int) -> Seq<char>
    decreases n,
{
    if n < 10 {
        seq![digit_char(n)]
    } else {
        dec(n / 10).push(digit_char(n % 10))
    }
}

/// A number in decimal digits, with a minus sign where it is negative.
pub open spec fn dec_signed(n: int) -> Seq<char> {
    if n < 0 {
        seq!['-'] + dec(-n)
    } else {
        dec(n)
    }
}

/// Reading a number back from its digits gives the number.
pub proof fn lemma_value_of_dec(n: int)
    requires
        0 <= n,
    ensures
        value_of(dec(n), 10) == n,
        all_digits(dec(n), 10),
        dec(n).len() > 0,
    decreases n,
{
    if n < 10 {
        assert(dec(n).drop_last() =~= Seq::<char>::empty());
        assert(value_of(Seq::<char>::empty(), 10) == 0);
    } else {
        lemma_value_of_dec(n / 10);
        assert(dec(n).drop_last() =~= dec(n / 10));
        assert forall|i: int| 0 <= i < dec(n).len() implies digit_of(
            #[trigger] dec(n)[i],
            10,
        ) is Some by {
            if i < dec(n).len() - 1 {
                assert(dec(n)[i] == dec(n / 10)[i]);
            }
        }
    }
}

/// Puts the decimal digits of `n` behind `out`.
pub fn push_dec(out: &mut String, n: u64)
    ensures
        final(out)@ == old(out)@ + dec(n as int),
    decreases n,
{
    if n >= 10 {
        push_dec(out, n / 10);
    }
    let d: u8 = (n % 10) as u8;
    out.push((48 + d) as char);
    assert(out@ =~= old(out)@ + dec(n as int));
}

/// The decimal digits of a number that may be a wide one.
pub fn push_wide(out: &mut String, n: u128)
    ensures
        final(out)@ == old(out)@ + dec(n as int),
    decreases n,
{
    if n >= 10 {
        push_wide(out, n / 10);
    }
    let d: u8 = (n % 10) as u8;
    out.push((48 + d) as char);
    assert(out@ =~= old(out)@ + dec(n as int));
}

pub fn dec_text(n: u64) -> (r: String)
    ensures
        r@ == dec(n as int),
{
    let mut out = String::new();
    push_dec(&mut out, n);
    assert(out@ =~= dec(n as int));
    out
}

pub fn dec_signed_text(n: i64) -> (r: String)
    ensures
        r@ == dec_signed(n as int),
{
    let mut out = String::new();
    if n < 0 {
        out.push('-');
        push_dec(&mut out, (-(n as i128)) as u64);
    } else {
        push_dec(&mut out, n as u64);
    }
    assert(out@ =~= dec_signed(n as int));
    out
}

/// Zeros in front of `s` until it has `width` characters.
pub open spec fn zero_padded(s: Seq<char>, width: int) -> Seq<char>
    decreases width - s.len(),
{
    if s.len() >= width {
        s
    } else {
        zero_padded(seq!['0'] + s, width)
    }
}

/// The decimal digits of `n`, with zeros in front up to `width` characters.
pub fn padded_dec(n: u64, width: usize) -> (r: String)
    ensures
        r@ == zero_padded(dec(n as int), width as int),
{
    let digits = dec_text(n);
    let len: usize = crate::text::basic::chars_of(digits.as_str()).len();
    let mut out = String::new();
    let mut k: usize = len;
    let ghost goal = zero_padded(dec(n as int), width as int);
    assert(out@ + digits@ =~= digits@);
    while k < width
        invariant
            len <= k,
            k <= width || k == len,
            out@.len() == k - len,
            digits@.len() == len,
            forall|i: int| 0 <= i < out@.len() ==> out@[i] == '0',
            zero_padded(out@ + digits@, width as int) == goal,
        decreases width - k,
    {
        let ghost before = out@ + digits@;
        out.push('0');
        assert(out@ + digits@ =~= seq!['0'] + before);
        k = k + 1;
    }
    out.append(digits.as_str());
    out
}

} // verus!
