//! Rectangles on the screen.

use vstd::prelude::*;

use crate::single::divide;
use crate::single::half_of;
use crate::single::quotient;
use crate::single::scale_half;
use crate::single::Single;
use crate::text::basic::chars_of;
use crate::text::number::all_digits;
use crate::text::number::dec;
use crate::text::number::dec_signed;
use crate::text::number::dec_signed_text;
use crate::text::number::digit_of;
use crate::text::number::lemma_value_of_dec;
use crate::text::number::parse_digits;
use crate::text::number::value_of;

verus! {

/// A rectangle; its right and lower edges are outside of it.
#[derive(Debug, Clone, Copy, PartialEq, Eq, Structural)]
pub struct Rect {
    pub x1: i32,
    pub y1: i32,
    pub x2: i32,
    pub y2: i32,
}

impl Default for Rect {
    fn default() -> (r: Self)
        ensures
            r == (Rect { x1: 0, y1: 0, x2: 0, y2: 0 }),
    {
        Rect { x1: 0, y1: 0, x2: 0, y2: 0 }
    }
}

pub open spec fn larger(a: int, b: int) -> int {
    if a >= b {
        a
    } else {
        b
    }
}

pub open spec fn smaller(a: int, b: int) -> int {
    if a <= b {
        a
    } else {
        b
    }
}

/// `n / d`, cut towards zero.
pub open spec fn cut(n: int, d: int) -> int {
    if n >= 0 {
        n / d
    } else {
        -((-n) / d)
    }
}

/// `v` moved into the range from `lo` to `hi`.
pub open spec fn clamped(v: int, lo: int, hi: int) -> int {
    if v < lo {
        lo
    } else if v > hi {
        hi
    } else {
        v
    }
}

fn at_least(a: i32, b: i32) -> (r: i32)
    ensures
        r == larger(a as int, b as int),
{
    if a >= b {
        a
    } else {
        b
    }
}

fn at_most(a: i32, b: i32) -> (r: i32)
    ensures
        r == smaller(a as int, b as int),
{
    if a <= b {
        a
    } else {
        b
    }
}

fn clamp(v: i32, lo: i32, hi: i32) -> (r: i32)
    requires
        lo <= hi,
    ensures
        r == clamped(v as int, lo as int, hi as int),
{
    if v < lo {
        lo
    } else if v > hi {
        hi
    } else {
        v
    }
}

/// `n / d`, cut towards zero.
pub fn divide_cut(n: i64, d: i64) -> (r: i64)
    requires
        d > 0,
        n > i64::MIN,
    ensures
        r == cut(n as int, d as int),
{
    if n >= 0 {
        n / d
    } else {
        -((-n) / d)
    }
}

/// What was read of a text that lists numbers: the numbers that ended, the digits of the one
/// that goes on, whether a minus sign stood before it, and whether a number was too large.
pub struct Scan {
    pub nums: Seq<int>,
    pub cur: Seq<char>,
    pub neg: bool,
    pub failed: bool,
}

/// The number that goes on has ended.
pub open spec fn scan_close(s: Scan) -> Scan {
    if s.failed || s.cur.len() == 0 {
        s
    } else {
        let v = value_of(s.cur, 10);
        if v > i32::MAX {
            Scan { failed: true, ..s }
        } else {
            Scan {
                nums: s.nums.push(
                    if s.neg {
                        -v
                    } else {
                        v
                    },
                ),
                cur: seq![],
                neg: false,
                failed: false,
            }
        }
    }
}

/// One more character: a digit lengthens the number; a minus sign counts where no digit stands
/// before it, and is passed over within a number; all else ends the number.
pub open spec fn scan_char(s: Scan, c: char) -> Scan {
    if s.failed {
        s
    } else if c == '-' {
        if s.cur.len() == 0 {
            Scan { neg: true, ..s }
        } else {
            s
        }
    } else if digit_of(c, 10) is Some {
        Scan { cur: s.cur.push(c), ..s }
    } else {
        scan_close(s)
    }
}

pub open spec fn scan(s: Seq<char>) -> Scan
    decreases s.len(),
{
    if s.len() == 0 {
        Scan { nums: seq![], cur: seq![], neg: false, failed: false }
    } else {
        scan_char(scan(s.drop_last()), s.last())
    }
}

/// The rectangle that a text such as `[0,72][1080,2400]` writes: its first four numbers.
pub open spec fn rect_of(s: Seq<char>) -> Option<Rect> {
    let e = scan_close(scan(s));
    if e.failed || e.nums.len() < 4 {
        None
    } else {
        Some(
            Rect {
                x1: e.nums[0] as i32,
                y1: e.nums[1] as i32,
                x2: e.nums[2] as i32,
                y2: e.nums[3] as i32,
            },
        )
    }
}

/// A rectangle in words: `[x1,y1][x2,y2]`.
pub open spec fn rect_text(r: Rect) -> Seq<char> {
    "["@ + dec_signed(r.x1 as int) + ","@ + dec_signed(r.y1 as int) + "]["@ + dec_signed(
        r.x2 as int,
    ) + ","@ + dec_signed(r.y2 as int) + "]"@
}

pub open spec fn width(r: Rect) -> int {
    larger(r.x2 - r.x1, 0)
}

pub open spec fn height(r: Rect) -> int {
    larger(r.y2 - r.y1, 0)
}

pub open spec fn area_of(r: Rect) -> int {
    width(r) * height(r)
}

/// The rectangle has an area.
pub open spec fn solid(r: Rect) -> bool {
    r.x1 < r.x2 && r.y1 < r.y2
}

pub open spec fn inside(r: Rect, x: int, y: int) -> bool {
    r.x1 <= x < r.x2 && r.y1 <= y < r.y2
}

/// What two rectangles have in common; without an area where that is nothing.
pub open spec fn common(a: Rect, b: Rect) -> Rect {
    Rect {
        x1: larger(a.x1 as int, b.x1 as int) as i32,
        y1: larger(a.y1 as int, b.y1 as int) as i32,
        x2: smaller(a.x2 as int, b.x2 as int) as i32,
        y2: smaller(a.y2 as int, b.y2 as int) as i32,
    }
}

/// The part of the area of `r` that is on the screen, in single precision.
pub open spec fn visible_bits(r: Rect, screen: Rect) -> int {
    if solid(r) {
        quotient(area_of(common(r, screen)), area_of(r))
    } else {
        0
    }
}

pub proof fn lemma_area(r: Rect)
    ensures
        0 <= width(r) <= 0xffff_ffff,
        0 <= height(r) <= 0xffff_ffff,
        0 <= area_of(r) <= 0xffff_fffe_0000_0001,
{
    let w = width(r);
    let h = height(r);
    assert(0 <= w * h <= 0xffff_ffff * 0xffff_ffff) by (nonlinear_arith)
        requires
            0 <= w <= 0xffff_ffff,
            0 <= h <= 0xffff_ffff,
    ;
}

impl Rect {
    pub fn new(x1: i32, y1: i32, x2: i32, y2: i32) -> (r: Self)
        ensures
            r == (Rect { x1, y1, x2, y2 }),
    {
        Rect { x1, y1, x2, y2 }
    }

    /// Reads bounds as a dump writes them: `[0,72][1080,2400]`.
    pub fn parse(s: &str) -> (r: Option<Rect>)
        ensures
            r == rect_of(s@),
    {
        let v = chars_of(s);
        let mut nums: Vec<i32> = Vec::new();
        let mut cur: Vec<char> = Vec::new();
        let mut neg = false;
        let mut i: usize = 0;
        assert(v@.take(0) =~= seq![]);
        assert(Seq::new(nums@.len(), |i: int| nums@[i] as int) =~= seq![]);
        assert(cur@ =~= seq![]);
        while i < v.len()
            invariant
                i <= v@.len(),
                v@ == s@,
                scan_state(nums@, cur@, neg, scan(v@.take(i as int))),
            decreases v@.len() - i,
        {
            let c = v[i];
            let ghost before = scan(v@.take(i as int));
            assert(v@.take(i + 1).drop_last() =~= v@.take(i as int));
            assert(v@.take(i + 1).last() == c);
            if c == '-' {
                if cur.len() == 0 {
                    neg = true;
                }
            } else if is_digit(c) {
                cur.push(c);
            } else {
                if !close_number(&mut nums, &mut cur, &mut neg) {
                    proof {
                        lemma_scan_failed(v@, i + 1);
                    }
                    return None;
                }
            }
            i = i + 1;
        }
        assert(v@.take(i as int) =~= v@);
        if !close_number(&mut nums, &mut cur, &mut neg) {
            return None;
        }
        if nums.len() >= 4 {
            Some(Rect::new(nums[0], nums[1], nums[2], nums[3]))
        } else {
            None
        }
    }

    /// The width; none is below zero.
    pub fn w(&self) -> (r: i32)
        requires
            i32::MIN <= self.x2 - self.x1 <= i32::MAX,
        ensures
            r == width(*self),
    {
        at_least(self.x2 - self.x1, 0)
    }

    /// The height; none is below zero.
    pub fn h(&self) -> (r: i32)
        requires
            i32::MIN <= self.y2 - self.y1 <= i32::MAX,
        ensures
            r == height(*self),
    {
        at_least(self.y2 - self.y1, 0)
    }

    /// The middle between the left and the right edge.
    pub fn cx(&self) -> (r: i32)
        ensures
            r == cut(self.x1 + self.x2, 2),
    {
        divide_cut(self.x1 as i64 + self.x2 as i64, 2) as i32
    }

    /// The middle between the upper and the lower edge.
    pub fn cy(&self) -> (r: i32)
        ensures
            r == cut(self.y1 + self.y2, 2),
    {
        divide_cut(self.y1 as i64 + self.y2 as i64, 2) as i32
    }

    pub fn area(&self) -> (r: i64)
        requires
            i32::MIN <= self.x2 - self.x1 <= i32::MAX,
            i32::MIN <= self.y2 - self.y1 <= i32::MAX,
        ensures
            r == area_of(*self),
    {
        let w: i64 = self.w() as i64;
        let h: i64 = self.h() as i64;
        assert(0 <= w * h <= 0x7fff_ffff * 0x7fff_ffff) by (nonlinear_arith)
            requires
                0 <= w <= 0x7fff_ffff,
                0 <= h <= 0x7fff_ffff,
        ;
        w * h
    }

    pub(crate) fn width_wide(&self) -> (r: u64)
        ensures
            r == width(*self),
            r <= 0xffff_ffff,
    {
        if self.x2 > self.x1 {
            (self.x2 as i64 - self.x1 as i64) as u64
        } else {
            0
        }
    }

    pub(crate) fn height_wide(&self) -> (r: u64)
        ensures
            r == height(*self),
            r <= 0xffff_ffff,
    {
        if self.y2 > self.y1 {
            (self.y2 as i64 - self.y1 as i64) as u64
        } else {
            0
        }
    }

    pub(crate) fn area_wide(&self) -> (r: u128)
        ensures
            r == area_of(*self),
            r <= 0xffff_fffe_0000_0001,
    {
        proof {
            lemma_area(*self);
        }
        self.width_wide() as u128 * self.height_wide() as u128
    }

    /// The rectangle has an area.
    pub fn valid(&self) -> (r: bool)
        ensures
            r == solid(*self),
    {
        self.x1 < self.x2 && self.y1 < self.y2
    }

    /// The point is in the rectangle.
    pub fn contains(&self, x: i32, y: i32) -> (r: bool)
        ensures
            r == inside(*self, x as int, y as int),
    {
        x >= self.x1 && x < self.x2 && y >= self.y1 && y < self.y2
    }

    /// What two rectangles have in common.
    pub fn intersect(&self, o: &Rect) -> (r: Rect)
        ensures
            r == common(*self, *o),
    {
        Rect::new(
            at_least(self.x1, o.x1),
            at_least(self.y1, o.y1),
            at_most(self.x2, o.x2),
            at_most(self.y2, o.y2),
        )
    }

    /// Moves each edge inwards, by half of the given part of the width or the height.
    pub fn shrink(&self, fx: Single, fy: Single) -> (r: Rect)
        requires
            i32::MIN <= self.x2 - self.x1 <= i32::MAX,
            i32::MIN <= self.y2 - self.y1 <= i32::MAX,
            i32::MIN <= self.x1 + half_of(width(*self), fx) <= i32::MAX,
            i32::MIN <= self.x2 - half_of(width(*self), fx) <= i32::MAX,
            i32::MIN <= self.y1 + half_of(height(*self), fy) <= i32::MAX,
            i32::MIN <= self.y2 - half_of(height(*self), fy) <= i32::MAX,
        ensures
            r == shrunk(*self, fx, fy),
    {
        let dx = scale_half(self.w(), fx);
        let dy = scale_half(self.h(), fy);
        Rect::new(self.x1 + dx, self.y1 + dy, self.x2 - dx, self.y2 - dy)
    }

    /// Moves each edge into the range of `o`.
    pub fn clamp_inside(&self, o: &Rect) -> (r: Rect)
        requires
            o.x1 <= o.x2,
            o.y1 <= o.y2,
        ensures
            r == clamped_into(*self, *o),
    {
        Rect::new(
            clamp(self.x1, o.x1, o.x2),
            clamp(self.y1, o.y1, o.y2),
            clamp(self.x2, o.x1, o.x2),
            clamp(self.y2, o.y1, o.y2),
        )
    }

    /// The part of the area that is on the screen; less than one where the rectangle is covered
    /// by the edge, zero where it has no area.
    pub fn visible_ratio(&self, screen: &Rect) -> (r: Single)
        ensures
            r.bits == visible_bits(*self, *screen),
    {
        if !self.valid() {
            return Single { bits: 0 };
        }
        let inter = self.intersect(screen);
        divide(inter.area_wide(), self.area_wide())
    }

    /// The rectangle in words, as a dump writes it.
    pub fn text(&self) -> (r: String)
        ensures
            r@ == rect_text(*self),
    {
        let mut out = "[".to_string();
        out.append(dec_signed_text(self.x1 as i64).as_str());
        out.append(",");
        out.append(dec_signed_text(self.y1 as i64).as_str());
        out.append("][");
        out.append(dec_signed_text(self.x2 as i64).as_str());
        out.append(",");
        out.append(dec_signed_text(self.y2 as i64).as_str());
        out.append("]");
        out
    }
}

/// Each edge moved inwards by half of a part of the width or the height.
pub open spec fn shrunk(r: Rect, fx: Single, fy: Single) -> Rect {
    let dx = half_of(width(r), fx);
    let dy = half_of(height(r), fy);
    Rect {
        x1: (r.x1 + dx) as i32,
        y1: (r.y1 + dy) as i32,
        x2: (r.x2 - dx) as i32,
        y2: (r.y2 - dy) as i32,
    }
}

/// Each edge moved into the range of another rectangle.
pub open spec fn clamped_into(r: Rect, o: Rect) -> Rect {
    Rect {
        x1: clamped(r.x1 as int, o.x1 as int, o.x2 as int) as i32,
        y1: clamped(r.y1 as int, o.y1 as int, o.y2 as int) as i32,
        x2: clamped(r.x2 as int, o.x1 as int, o.x2 as int) as i32,
        y2: clamped(r.y2 as int, o.y1 as int, o.y2 as int) as i32,
    }
}

/// The numbers and digits at hand are those of the scan, which has not failed.
pub open spec fn scan_state(nums: Seq<i32>, cur: Seq<char>, neg: bool, s: Scan) -> bool {
    &&& !s.failed
    &&& s.nums == Seq::new(nums.len(), |i: int| nums[i] as int)
    &&& s.cur == cur
    &&& s.neg == neg
    &&& all_digits(cur, 10)
}

fn is_digit(c: char) -> (r: bool)
    ensures
        r == (digit_of(c, 10) is Some),
{
    let n: u32 = c as u32;
    48 <= n && n <= 57
}

fn close_number(nums: &mut Vec<i32>, cur: &mut Vec<char>, neg: &mut bool) -> (r: bool)
    requires
        all_digits(old(cur)@, 10),
    ensures
        ({
            let s = Scan {
                nums: Seq::new(old(nums)@.len(), |i: int| old(nums)@[i] as int),
                cur: old(cur)@,
                neg: *old(neg),
                failed: false,
            };
            let e = scan_close(s);
            &&& r == !e.failed
            &&& r ==> scan_state(final(nums)@, final(cur)@, *final(neg), e)
        }),
{
    if cur.len() == 0 {
        return true;
    }
    let ghost s = Scan {
        nums: Seq::new(nums@.len(), |i: int| nums@[i] as int),
        cur: cur@,
        neg: *neg,
        failed: false,
    };
    assert(cur@.skip(0) =~= cur@);
    proof {
        crate::text::number::lemma_value_grows(cur@, 10, 0);
    }
    match parse_digits(cur.as_slice(), 0, 10, 0x7fff_ffff) {
        None => false,
        Some(n) => {
            let v: i32 = if *neg {
                -(n as i32)
            } else {
                n as i32
            };
            nums.push(v);
            assert(Seq::new(nums@.len(), |i: int| nums@[i] as int) =~= s.nums.push(v as int));
            *cur = Vec::new();
            *neg = false;
            assert(cur@ =~= seq![]);
            true
        },
    }
}

proof fn lemma_scan_failed(s: Seq<char>, k: int)
    requires
        0 <= k <= s.len(),
        scan(s.take(k)).failed,
    ensures
        scan(s).failed,
    decreases s.len() - k,
{
    if k == s.len() {
        assert(s.take(k) =~= s);
    } else {
        assert(s.take(k + 1).drop_last() =~= s.take(k));
        lemma_scan_failed(s, k + 1);
    }
}

proof fn lemma_scan_digits(p: Seq<char>, d: Seq<char>, k: int)
    requires
        0 <= k <= d.len(),
        all_digits(d, 10),
        !scan(p).failed,
    ensures
        scan(p + d.take(k)) == (Scan { cur: scan(p).cur + d.take(k), ..scan(p) }),
    decreases k,
{
    if k == 0 {
        assert(p + d.take(0) =~= p);
        assert(scan(p).cur + d.take(0) =~= scan(p).cur);
    } else {
        lemma_scan_digits(p, d, k - 1);
        let t = p + d.take(k);
        assert(t.drop_last() =~= p + d.take(k - 1));
        assert(t.last() == d[k - 1]);
        assert(digit_of(d[k - 1], 10) is Some);
        assert(scan(p).cur + d.take(k) =~= (scan(p).cur + d.take(k - 1)).push(d[k - 1]));
    }
}

/// Scanning a number and a character behind it that ends it.
proof fn lemma_scan_number(p: Seq<char>, n: int, c: char)
    requires
        i32::MIN < n <= i32::MAX,
        !scan(p).failed,
        scan(p).cur.len() == 0,
        !scan(p).neg,
        digit_of(c, 10) is None,
        c != '-',
    ensures
        scan((p + dec_signed(n)).push(c)) == (Scan { nums: scan(p).nums.push(n), ..scan(p) }),
{
    let m = if n < 0 {
        -n
    } else {
        n
    };
    let q = if n < 0 {
        p.push('-')
    } else {
        p
    };
    let d = dec(m);
    lemma_value_of_dec(m);
    assert(p.push('-').drop_last() =~= p);
    assert(scan(q) == (Scan { neg: n < 0, ..scan(p) }));
    lemma_scan_digits(q, d, d.len() as int);
    assert(d.take(d.len() as int) =~= d);
    assert(q + d =~= p + dec_signed(n));
    assert(scan(q).cur + d =~= d);
    let t = (p + dec_signed(n)).push(c);
    assert(t.drop_last() =~= p + dec_signed(n));
    assert(scan(t) == scan_close(scan(p + dec_signed(n))));
    assert(scan(t).cur =~= scan(p).cur);
}

proof fn lemma_scan_skip(p: Seq<char>, c: char)
    requires
        !scan(p).failed,
        scan(p).cur.len() == 0,
        digit_of(c, 10) is None,
        c != '-',
    ensures
        scan(p.push(c)) == scan(p),
{
    assert(p.push(c).drop_last() =~= p);
}

/// Reading a rectangle back from its text gives the rectangle. The least `i32` is left out: its
/// digits without the sign are no `i32`, and bounds with it are not read.
pub proof fn lemma_parse_reads_text(r: Rect)
    requires
        r.x1 > i32::MIN,
        r.y1 > i32::MIN,
        r.x2 > i32::MIN,
        r.y2 > i32::MIN,
    ensures
        rect_of(rect_text(r)) == Some(r),
{
    reveal_strlit("[");
    reveal_strlit(",");
    reveal_strlit("][");
    reveal_strlit("]");
    let p0 = Seq::<char>::empty();
    let p1 = p0.push('[');
    lemma_scan_skip(p0, '[');
    let p2 = (p1 + dec_signed(r.x1 as int)).push(',');
    lemma_scan_number(p1, r.x1 as int, ',');
    let p3 = (p2 + dec_signed(r.y1 as int)).push(']');
    lemma_scan_number(p2, r.y1 as int, ']');
    let p4 = p3.push('[');
    lemma_scan_skip(p3, '[');
    let p5 = (p4 + dec_signed(r.x2 as int)).push(',');
    lemma_scan_number(p4, r.x2 as int, ',');
    let p6 = (p5 + dec_signed(r.y2 as int)).push(']');
    lemma_scan_number(p5, r.y2 as int, ']');
    assert(rect_text(r) =~= p6);
    let e = scan(p6);
    assert(e.nums.len() == 4);
    assert(e.nums[0] == r.x1 && e.nums[1] == r.y1 && e.nums[2] == r.x2 && e.nums[3] == r.y2);
}

/// The common part of two rectangles lies in both.
pub proof fn lemma_common_inside(a: Rect, b: Rect, x: int, y: int)
    ensures
        inside(common(a, b), x, y) <==> inside(a, x, y) && inside(b, x, y),
{
}

} // verus!
