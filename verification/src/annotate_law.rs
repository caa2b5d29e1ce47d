//! What the marks on a picture show, and where they stand once the picture has another size.

use vstd::arithmetic::power2::lemma2_to64;
use vstd::arithmetic::power2::lemma_pow2_pos;
use vstd::arithmetic::power2::lemma_pow2_unfold;
use vstd::arithmetic::power2::pow2;
use vstd::prelude::*;

use crate::annotate::close_to_one;
use crate::annotate::fitted;
use crate::annotate::markers_of;
use crate::annotate::scaled;
use crate::annotate::shrunk_side;
use crate::annotate::thumbnail_of;
use crate::annotate::MarkerKind;
use crate::annotate::MarkerView;
use crate::model::action::ActionView;
use crate::model::action::SwipeDir;
use crate::model::action::TargetView;
use crate::model::rect::Rect;
use crate::outside::upper_of;
use crate::quotient::lemma_quotient_against;
use crate::quotient::lemma_quotient_is_near;
use crate::quotient::lemma_rounding_is_small;
use crate::single::half_even;
use crate::single::lemma_quotient_of_equals;
use crate::single::lemma_round24_exact;
use crate::single::quotient;
use crate::single::round24;
use crate::single::scaled_size;
use crate::single::Single;

verus! {

/// There is one mark for each action, with the number of the step; only opening an app has none.
/// A tap is marked where it goes, a swipe at both of its ends, from the first to the second, and
/// the frame is the one of the widget that the action is aimed at.
pub proof fn lemma_what_marks_show(
    p: (i32, i32),
    q: (i32, i32),
    t: TargetView,
    text: Seq<char>,
    code: i32,
    dir: SwipeDir,
    ms: u32,
    step: usize,
)
    ensures
        markers_of(ActionView::Click { point: p, target: t }, step) == seq![
            MarkerView {
                kind: MarkerKind::Click,
                points: seq![p],
                bounds: Some(t.bounds),
                number: step,
                label: upper_of("click"@),
            },
        ],
        markers_of(ActionView::LongClick { point: p, target: t }, step) == seq![
            MarkerView {
                kind: MarkerKind::LongClick,
                points: seq![p],
                bounds: Some(t.bounds),
                number: step,
                label: upper_of("long_click"@),
            },
        ],
        markers_of(ActionView::Input { point: p, target: t, text }, step) == seq![
            MarkerView {
                kind: MarkerKind::Input,
                points: seq![p],
                bounds: Some(t.bounds),
                number: step,
                label: "INPUT "@ + text,
            },
        ],
        markers_of(
            ActionView::Swipe { from: p, to: q, dir, duration_ms: ms, target: Some(t) },
            step,
        ) == seq![
            MarkerView {
                kind: MarkerKind::Swipe,
                points: seq![p, q],
                bounds: Some(t.bounds),
                number: step,
                label: upper_of("swipe"@),
            },
        ],
        markers_of(
            ActionView::Swipe { from: p, to: q, dir, duration_ms: ms, target: None },
            step,
        ) == seq![
            MarkerView {
                kind: MarkerKind::Swipe,
                points: seq![p, q],
                bounds: None,
                number: step,
                label: upper_of("swipe"@),
            },
        ],
        markers_of(ActionView::Back, step) == seq![
            MarkerView {
                kind: MarkerKind::Key,
                points: seq![],
                bounds: None,
                number: step,
                label: "BACK"@,
            },
        ],
        markers_of(ActionView::Key { code, name: text }, step) == seq![
            MarkerView {
                kind: MarkerKind::Key,
                points: seq![],
                bounds: None,
                number: step,
                label: upper_of(text),
            },
        ],
        markers_of(ActionView::Launch { component: text }, step).len() == 0,
{
}

// ---------------------------------------------------------------- scaling

proof fn lemma_product_is_near(x: int, w: int, b: int, m: int, l: int, p: int, s: int)
    requires
        0 < x,
        0 < w,
        0 < b,
        0 < l,
        0x80_0000 <= m < 0x100_0000,
        x * w <= 0x8_0000 * b,
        2 * (m * b - w * l) <= b,
        2 * (w * l - m * b) <= b,
        0x100_0000 * (p - x * m) <= x * m,
        0x100_0000 * (x * m - p) <= x * m,
        s * l <= p < (s + 1) * l,
    ensures
        8 * (s * b) <= 8 * (x * w) + b,
        8 * (x * w) < 8 * (s * b) + 9 * b,
{
    let xb = x * b;
    let bl = b * l;
    let xwl = (x * w) * l;
    let xmb = (x * m) * b;
    // Between `m * b` and `w * l` there is at most half of `b`.
    assert(2 * (xmb - xwl) <= xb && 2 * (xwl - xmb) <= xb) by (nonlinear_arith)
        requires
            x > 0,
            xb == x * b,
            xwl == (x * w) * l,
            xmb == (x * m) * b,
            2 * (m * b - w * l) <= b,
            2 * (w * l - m * b) <= b,
    ;
    assert(xmb >= 0x80_0000 * xb) by (nonlinear_arith)
        requires
            xmb == (x * m) * b,
            xb == x * b,
            m >= 0x80_0000,
            x > 0,
            b > 0,
    ;
    assert(xwl <= 0x8_0000 * bl) by (nonlinear_arith)
        requires
            xwl == (x * w) * l,
            bl == b * l,
            x * w <= 0x8_0000 * b,
            l > 0,
    ;
    assert(xb > 0) by (nonlinear_arith)
        requires
            xb == x * b,
            x > 0,
            b > 0,
    ;
    assert(8 * xb <= bl);
    let pb = p * b;
    assert(0x100_0000 * (pb - xmb) <= xmb && 0x100_0000 * (xmb - pb) <= xmb) by (nonlinear_arith)
        requires
            pb == p * b,
            xmb == (x * m) * b,
            b > 0,
            0x100_0000 * (p - x * m) <= x * m,
            0x100_0000 * (x * m - p) <= x * m,
    ;
    let slb = (s * l) * b;
    assert(slb <= pb < slb + bl) by (nonlinear_arith)
        requires
            slb == (s * l) * b,
            pb == p * b,
            bl == b * l,
            b > 0,
            s * l <= p < (s + 1) * l,
    ;
    assert(8 * slb <= 8 * xwl + bl);
    assert(8 * xwl < 8 * slb + 9 * bl);
    assert(8 * (s * b) <= 8 * (x * w) + b) by (nonlinear_arith)
        requires
            slb == (s * l) * b,
            xwl == (x * w) * l,
            bl == b * l,
            l > 0,
            8 * slb <= 8 * xwl + bl,
    ;
    assert(8 * (x * w) < 8 * (s * b) + 9 * b) by (nonlinear_arith)
        requires
            slb == (s * l) * b,
            xwl == (x * w) * l,
            bl == b * l,
            l > 0,
            8 * xwl < 8 * slb + 9 * bl,
    ;
}

/// A number times the quotient of two others is their product and quotient, cut to a whole number
/// or one less.
pub proof fn lemma_scaling_is_near(x: int, w: int, b: int)
    requires
        0 <= x < 0x8_0000,
        0 < w < 0x80_0000,
        0 < b < 0x80_0000,
        x * w <= 0x8_0000 * b,
    ensures
        ({
            let s = scaled_size(x, Single { bits: quotient(w, b) as u32 });
            &&& s >= 0
            &&& 8 * (s * b) <= 8 * (x * w) + b
            &&& 8 * (x * w) < 8 * (s * b) + 9 * b
        }),
{
    lemma_round24_exact(w);
    lemma_round24_exact(b);
    lemma_round24_exact(x);
    let k = lemma_quotient_is_near(w, b);
    let m = half_even(w * pow2(k), b);
    let bits = quotient(w, b);
    let f = Single { bits: bits as u32 };
    let s = scaled_size(x, f);
    assert(bits == (149 - k) * 0x80_0000 + m);
    assert(0 <= bits < 0x1_0000_0000);
    assert(f.bits == bits);
    let a = w * pow2(k);
    let q = a / b;
    assert(a == q * b + a % b && 0 <= a % b < b) by (nonlinear_arith)
        requires
            b > 0,
            q == a / b,
    ;
    assert((q + 1) * b == q * b + b) by (nonlinear_arith);
    assert(2 * (m * b - a) <= b && 2 * (a - m * b) <= b);
    if x == 0 {
        lemma_round24_exact(0);
        let e = crate::single::exponent(f);
        let d = crate::single::mantissa(f);
        assert(0 * d == 0);
        if e == 0 {
            lemma_pow2_pos(149);
            assert(0int / pow2(149) as int == 0) by (nonlinear_arith)
                requires
                    pow2(149) > 0,
            ;
        } else if e <= 150 {
            let n = (150 - e) as nat;
            lemma_pow2_pos(n);
            assert(0int / pow2(n) as int == 0) by (nonlinear_arith)
                requires
                    pow2(n) > 0,
            ;
        } else {
            assert(0 * pow2((e - 150) as nat) == 0);
        }
        assert(s == 0);
        assert(0 * w == 0);
        assert(0 * b == 0);
    } else {
        lemma_pow2_pos(k);
        assert(w <= 0x8_0000 * b) by (nonlinear_arith)
            requires
                x * w <= 0x8_0000 * b,
                x >= 1,
                w > 0,
        ;
        if m < 0x100_0000 {
            assert(crate::single::exponent(f) == 150 - k);
            assert(crate::single::mantissa(f) == m);
            let l = pow2(k) as int;
            let p = round24(x * m);
            assert(x * m >= 0) by (nonlinear_arith)
                requires
                    x > 0,
                    m > 0,
            ;
            lemma_rounding_is_small(x * m);
            assert(s == p / l);
            assert(s * l <= p < (s + 1) * l) by (nonlinear_arith)
                requires
                    s == p / l,
                    l > 0,
            ;
            lemma_product_is_near(x, w, b, m, l, p, s);
            assert(s >= 0) by (nonlinear_arith)
                requires
                    s == p / l,
                    p >= 0,
                    l > 0,
            ;
        } else {
            assert(k > 0) by {
                if k == 0 {
                    lemma2_to64();
                    assert(a == w);
                }
            }
            let j = (k - 1) as nat;
            lemma_pow2_unfold(k);
            lemma_pow2_pos(j);
            assert(crate::single::exponent(f) == 151 - k);
            assert(crate::single::mantissa(f) == 0x80_0000);
            let l = pow2(j) as int;
            let p = round24(x * 0x80_0000);
            lemma_rounding_is_small(x * 0x80_0000);
            assert(a == 2 * (w * l)) by (nonlinear_arith)
                requires
                    a == w * pow2(k),
                    pow2(k) == 2 * pow2(j),
                    l == pow2(j),
            ;
            assert(m * b == 2 * (0x80_0000 * b)) by (nonlinear_arith)
                requires
                    m == 0x100_0000,
            ;
            assert(s == p / l);
            assert(s * l <= p < (s + 1) * l) by (nonlinear_arith)
                requires
                    s == p / l,
                    l > 0,
            ;
            lemma_product_is_near(x, w, b, 0x80_0000, l, p, s);
            assert(s >= 0) by (nonlinear_arith)
                requires
                    s == p / l,
                    p >= 0,
                    l > 0,
            ;
        }
    }
}

/// A place on a length of `from` is as far along as the other one is on a length of `to`, up to
/// two units.
pub open spec fn on_scale(x: int, from: int, y: int, to: int) -> bool {
    y * from <= x * to + from && x * to <= y * from + 2 * from
}

proof fn lemma_scaled_on_scale(x: i32, from: int, to: int)
    requires
        0 <= x <= from,
        0 < from < 0x8_0000,
        0 < to < 0x8_0000,
    ensures
        on_scale(
            x as int,
            from,
            scaled(x, Single { bits: quotient(to, from) as u32 }) as int,
            to,
        ),
{
    assert(x * to <= 0x8_0000 * from) by (nonlinear_arith)
        requires
            0 <= x <= from,
            0 < to < 0x8_0000,
    ;
    lemma_scaling_is_near(x as int, to, from);
    let s = scaled_size(x as int, Single { bits: quotient(to, from) as u32 });
    assert(s <= 0x8_0001) by (nonlinear_arith)
        requires
            8 * (s * from) <= 8 * (x * to) + from,
            x * to <= 0x8_0000 * from,
            from > 0,
    ;
}

/// A widget's frame lies on the screen.
pub open spec fn within(b: Rect, width: int, height: int) -> bool {
    0 <= b.x1 <= width && 0 <= b.x2 <= width && 0 <= b.y1 <= height && 0 <= b.y2 <= height
}

proof fn lemma_about_the_same(to: int, from: int)
    requires
        0 < from < 0x8_0000,
        0 < to < 0x8_0000,
    ensures
        ({
            let f = Single { bits: quotient(to, from) as u32 };
            &&& close_to_one(f) ==> 40 * (to - from) <= from && 40 * (from - to) <= from
            &&& 60 * (to - from) <= from && 60 * (from - to) <= from ==> close_to_one(f)
        }),
{
    lemma2_to64();
    lemma_round24_exact(to);
    lemma_round24_exact(from);
    let k = lemma_quotient_is_near(to, from);
    let bits = quotient(to, from);
    assert(0 <= bits < 0x7f80_0000);
    lemma_quotient_against(to, from, 0x82_8f5c, 23);
    lemma_quotient_against(to, from, 0xfa_e148, 24);
    let f = Single { bits: bits as u32 };
    assert(f.bits == bits);
    assert(close_to_one(f) == (0x3f7a_e148 <= bits <= 0x3f82_8f5c));
    assert(crate::quotient::bits_of(0x82_8f5c, 23) == 0x3f82_8f5c);
    assert(crate::quotient::bits_of(0xfa_e148, 24) == 0x3f7a_e148);
}

/// On a picture of another size the marks stand at the same part of its width and of its height.
/// They stay as they are where both sizes are about the same, to a fortieth at most and to a
/// sixtieth at least. All else about them stays in any case.
pub proof fn lemma_marks_keep_their_places(
    markers: Seq<MarkerView>,
    width: i32,
    height: i32,
    w: u32,
    h: u32,
    i: int,
)
    requires
        0 < width < 0x8_0000,
        0 < height < 0x8_0000,
        0 < w < 0x8_0000,
        0 < h < 0x8_0000,
        0 <= i < markers.len(),
    ensures
        ({
            let r = fitted(markers, width, height, Some((w, h)));
            let m = markers[i];
            &&& r.len() == markers.len()
            &&& r[i].kind == m.kind && r[i].number == m.number && r[i].label == m.label
            &&& r[i].points.len() == m.points.len()
            &&& r[i].bounds is Some <==> m.bounds is Some
            &&& {
                ||| r[i] == m
                ||| {
                    &&& forall|j: int|
                        0 <= j < m.points.len() && 0 <= (#[trigger] m.points[j]).0 <= width && 0
                            <= m.points[j].1 <= height ==> on_scale(
                            m.points[j].0 as int,
                            width as int,
                            r[i].points[j].0 as int,
                            w as int,
                        ) && on_scale(
                            m.points[j].1 as int,
                            height as int,
                            r[i].points[j].1 as int,
                            h as int,
                        )
                    &&& m.bounds is Some && within(m.bounds->0, width as int, height as int) ==> {
                        let a = m.bounds->0;
                        let b = r[i].bounds->0;
                        &&& on_scale(a.x1 as int, width as int, b.x1 as int, w as int)
                        &&& on_scale(a.x2 as int, width as int, b.x2 as int, w as int)
                        &&& on_scale(a.y1 as int, height as int, b.y1 as int, h as int)
                        &&& on_scale(a.y2 as int, height as int, b.y2 as int, h as int)
                    }
                }
            }
            &&& r == markers || 60 * (w - width) > width || 60 * (width - w) > width || 60 * (h
                - height) > height || 60 * (height - h) > height
        }),
{
    let r = fitted(markers, width, height, Some((w, h)));
    let m = markers[i];
    lemma_about_the_same(w as int, width as int);
    lemma_about_the_same(h as int, height as int);
    let fx = Single { bits: quotient(w as int, width as int) as u32 };
    let fy = Single { bits: quotient(h as int, height as int) as u32 };
    if !(close_to_one(fx) && close_to_one(fy)) {
        assert forall|j: int|
            0 <= j < m.points.len() && 0 <= (#[trigger] m.points[j]).0 <= width && 0
                <= m.points[j].1 <= height implies on_scale(
            m.points[j].0 as int,
            width as int,
            r[i].points[j].0 as int,
            w as int,
        ) && on_scale(
            m.points[j].1 as int,
            height as int,
            r[i].points[j].1 as int,
            h as int,
        ) by {
            lemma_scaled_on_scale(m.points[j].0, width as int, w as int);
            lemma_scaled_on_scale(m.points[j].1, height as int, h as int);
        }
        if m.bounds is Some && within(m.bounds->0, width as int, height as int) {
            let a = m.bounds->0;
            lemma_scaled_on_scale(a.x1, width as int, w as int);
            lemma_scaled_on_scale(a.x2, width as int, w as int);
            lemma_scaled_on_scale(a.y1, height as int, h as int);
            lemma_scaled_on_scale(a.y2, height as int, h as int);
        }
    }
}

/// Where a mark is left as it is, the sizes are the same to a fortieth.
pub proof fn lemma_marks_left_alone(
    markers: Seq<MarkerView>,
    width: i32,
    height: i32,
    w: u32,
    h: u32,
)
    requires
        0 < width < 0x8_0000,
        0 < height < 0x8_0000,
        0 < w < 0x8_0000,
        0 < h < 0x8_0000,
    ensures
        ({
            let same = 40 * (w - width) <= width && 40 * (width - w) <= width && 40 * (h - height)
                <= height && 40 * (height - h) <= height;
            let r = fitted(markers, width, height, Some((w, h)));
            same || forall|i: int, j: int|
                #![trigger markers[i].points[j]]
                0 <= i < markers.len() && 0 <= j < markers[i].points.len() && 0
                    <= markers[i].points[j].0 <= width && 0 <= markers[i].points[j].1 <= height
                    ==> on_scale(
                    markers[i].points[j].0 as int,
                    width as int,
                    r[i].points[j].0 as int,
                    w as int,
                ) && on_scale(
                    markers[i].points[j].1 as int,
                    height as int,
                    r[i].points[j].1 as int,
                    h as int,
                )
        }),
        fitted(markers, width, height, None) == markers,
{
    let r = fitted(markers, width, height, Some((w, h)));
    lemma_about_the_same(w as int, width as int);
    lemma_about_the_same(h as int, height as int);
    let fx = Single { bits: quotient(w as int, width as int) as u32 };
    let fy = Single { bits: quotient(h as int, height as int) as u32 };
    if !(close_to_one(fx) && close_to_one(fy)) {
        assert forall|i: int, j: int|
            #![trigger markers[i].points[j]]
            0 <= i < markers.len() && 0 <= j < markers[i].points.len() && 0
                <= markers[i].points[j].0 <= width && 0 <= markers[i].points[j].1
                <= height implies on_scale(
            markers[i].points[j].0 as int,
            width as int,
            r[i].points[j].0 as int,
            w as int,
        ) && on_scale(
            markers[i].points[j].1 as int,
            height as int,
            r[i].points[j].1 as int,
            h as int,
        ) by {
            lemma_scaled_on_scale(markers[i].points[j].0, width as int, w as int);
            lemma_scaled_on_scale(markers[i].points[j].1, height as int, h as int);
        }
    }
}

// ---------------------------------------------------------------- small pictures

proof fn lemma_side(x: u32, a: int, b: int)
    requires
        0 < x < 0x8_0000,
        0 < a <= b < 0x8_0000,
    ensures
        ({
            let y = shrunk_side(x, Single { bits: quotient(a, b) as u32 }) as int;
            &&& on_scale(x as int, b, y, a)
            &&& x == b ==> y <= a && a <= y + 1
            &&& 1 <= y <= x
        }),
{
    assert(x * a <= x * b) by (nonlinear_arith)
        requires
            0 < x,
            a <= b,
    ;
    assert(x * b <= 0x8_0000 * b) by (nonlinear_arith)
        requires
            0 < x < 0x8_0000,
            0 < b,
    ;
    assert(x * a > 0) by (nonlinear_arith)
        requires
            x > 0,
            a > 0,
    ;
    lemma_scaling_is_near(x as int, a, b);
    let s = scaled_size(x as int, Single { bits: quotient(a, b) as u32 });
    assert(s <= x) by (nonlinear_arith)
        requires
            8 * (s * b) <= 8 * (x * a) + b,
            x * a <= x * b,
            b > 0,
    ;
    if x == b {
        assert(s <= a && a <= s + 1) by (nonlinear_arith)
            requires
                8 * (s * b) <= 8 * (b * a) + b,
                8 * (b * a) < 8 * (s * b) + 9 * b,
                b > 0,
        ;
    }
    if s < 1 {
        assert(s == 0);
        assert(0 * b == 0);
    }
}

/// A picture that has room is kept at its size.
pub proof fn lemma_small_pictures_stay(w: u32, h: u32, max_w: u32, max_h: u32)
    requires
        0 < w < 0x8_0000,
        0 < h < 0x8_0000,
        w <= max_w < 0x8_0000,
        h <= max_h < 0x8_0000,
    ensures
        thumbnail_of(w, h, max_w, max_h) == (w, h),
{
    lemma2_to64();
    lemma_at_least_one(max_w as int, w as int);
    lemma_at_least_one(max_h as int, h as int);
    lemma_quotient_of_equals(w as int);
    lemma_quotient_of_equals(h as int);
    lemma_whole_side(w);
    lemma_whole_side(h);
}

proof fn lemma_whole_side(x: u32)
    requires
        0 < x < 0x8_0000,
    ensures
        shrunk_side(x, Single { bits: 0x3f80_0000 }) == x,
{
    lemma2_to64();
    lemma_round24_exact(x as int);
    let f = Single { bits: 0x3f80_0000 };
    assert(crate::single::exponent(f) == 127);
    assert(crate::single::mantissa(f) == 0x80_0000);
    lemma_quotient_of_equals(1);
    lemma_scaling_is_near(x as int, 1, 1);
    let s = scaled_size(x as int, f);
    assert(8 * s <= 8 * x + 1 && 8 * x < 8 * s + 9);
    // The product has no more bits than the number itself, and is not rounded.
    crate::single::lemma_round24_shifted(x as int, 23);
    assert(round24(x * 0x80_0000) == x * 0x80_0000);
    assert(s == x * 0x80_0000 / 0x80_0000);
}

proof fn lemma_at_least_one(a: int, b: int)
    requires
        0 < b <= a < 0x8_0000,
    ensures
        0x3f80_0000 <= quotient(a, b) < 0x7f80_0000,
{
    lemma_round24_exact(a);
    lemma_round24_exact(b);
    let k = lemma_quotient_is_near(a, b);
    if a == b {
        lemma_quotient_of_equals(a);
    } else {
        lemma2_to64();
        let m = half_even(a * pow2(k), b);
        if k >= 23 {
            if k > 23 {
                vstd::arithmetic::power2::lemma_pow2_strictly_increases(23, k);
                lemma_pow2_unfold(24);
                if k > 24 {
                    vstd::arithmetic::power2::lemma_pow2_strictly_increases(24, k);
                }
                assert(a * pow2(k) >= b * 0x100_0000) by (nonlinear_arith)
                    requires
                        a >= b,
                        b > 0,
                        pow2(k) >= 0x100_0000,
                ;
            }
            assert(k == 23);
        }
    }
}

/// A small picture fits into its box, and fills one side of it to a unit unless the picture itself
/// is smaller; both sides are shrunk alike, to at least one and never beyond the picture.
pub proof fn lemma_large_pictures_shrink(w: u32, h: u32, max_w: u32, max_h: u32)
    requires
        0 < w < 0x8_0000,
        0 < h < 0x8_0000,
        0 < max_w < 0x8_0000,
        0 < max_h < 0x8_0000,
        max_w < w || max_h < h,
    ensures
        ({
            let t = thumbnail_of(w, h, max_w, max_h);
            &&& 1 <= t.0 <= w && 1 <= t.1 <= h
            &&& {
                ||| max_w <= w && t.0 <= max_w <= t.0 + 1 && on_scale(
                    h as int,
                    w as int,
                    t.1 as int,
                    max_w as int,
                )
                ||| max_h <= h && t.1 <= max_h <= t.1 + 1 && on_scale(
                    w as int,
                    h as int,
                    t.0 as int,
                    max_h as int,
                )
            }
        }),
{
    let qa = quotient(max_w as int, w as int);
    let qb = quotient(max_h as int, h as int);
    lemma_part_or_more(max_w as int, w as int);
    lemma_part_or_more(max_h as int, h as int);
    let f = crate::annotate::least_factor(Single { bits: qa as u32 }, Single { bits: qb as u32 });
    if qa < qb {
        assert(max_w < w);
        assert(f == Single { bits: qa as u32 });
        lemma_side(w, max_w as int, w as int);
        lemma_side(h, max_w as int, w as int);
    } else {
        assert(max_h < h);
        assert(f == Single { bits: qb as u32 });
        lemma_side(w, max_h as int, h as int);
        lemma_side(h, max_h as int, h as int);
    }
}

proof fn lemma_part_or_more(a: int, b: int)
    requires
        0 < a < 0x8_0000,
        0 < b < 0x8_0000,
    ensures
        0 <= quotient(a, b) < 0x7f80_0000,
        a < b <==> quotient(a, b) < 0x3f80_0000,
{
    if a < b {
        crate::quotient::lemma_part_of_whole(a, b);
        lemma_round24_exact(a);
        lemma_round24_exact(b);
        let k = lemma_quotient_is_near(a, b);
    } else {
        lemma_at_least_one(a, b);
    }
}

} // verus!
