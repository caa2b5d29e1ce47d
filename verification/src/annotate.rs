//! Marks on a picture of the screen that show what was done: where it was tapped, held, swiped
//! or typed, with the number of the step.
//!
//! The words on the marks are drawn with letters of five by seven dots, so that no font is
//! needed.

use vstd::prelude::*;

use crate::model::action::kind_of;
use crate::model::action::Action;
use crate::model::action::ActionView;
use crate::model::rect::Rect;
use crate::outside::decode_size;
use crate::outside::png_dimensions;
use crate::outside::resize_png;
use crate::outside::resized_png;
use crate::outside::upper_of;
use crate::single::divide;
use crate::single::exponent;
use crate::single::lemma_quotient_of_equals;
use crate::single::lemma_shrinking;
use crate::single::mantissa;
use crate::single::quotient;
use crate::single::scale_size;
use crate::single::scaled_size;
use crate::single::Single;

verus! {

pub const COLOR_CLICK: (u8, u8, u8) = (255, 59, 48);

pub const COLOR_LONG: (u8, u8, u8) = (255, 149, 0);

pub const COLOR_SWIPE: (u8, u8, u8) = (10, 132, 255);

pub const COLOR_INPUT: (u8, u8, u8) = (175, 82, 222);

pub const COLOR_KEY: (u8, u8, u8) = (120, 200, 120);

/// What a mark shows.
#[derive(Debug, Clone, Copy, PartialEq, Eq, Structural)]
pub enum MarkerKind {
    Click,
    LongClick,
    Swipe,
    Input,
    Key,
}

impl MarkerKind {
    /// The colour that it is drawn in.
    pub fn color(&self) -> (r: (u8, u8, u8))
        ensures
            r == match *self {
                MarkerKind::Click => COLOR_CLICK,
                MarkerKind::LongClick => COLOR_LONG,
                MarkerKind::Swipe => COLOR_SWIPE,
                MarkerKind::Input => COLOR_INPUT,
                MarkerKind::Key => COLOR_KEY,
            },
    {
        match self {
            MarkerKind::Click => COLOR_CLICK,
            MarkerKind::LongClick => COLOR_LONG,
            MarkerKind::Swipe => COLOR_SWIPE,
            MarkerKind::Input => COLOR_INPUT,
            MarkerKind::Key => COLOR_KEY,
        }
    }
}

/// A mark on a picture.
#[derive(Debug)]
pub struct Marker {
    pub kind: MarkerKind,
    /// One place for a tap, the start and the end for a swipe.
    pub points: Vec<(i32, i32)>,
    /// Where the widget is, for a frame around it.
    pub bounds: Option<Rect>,
    pub number: usize,
    pub label: String,
}

/// A mark as a mathematical value.
#[verifier::ext_equal]
pub struct MarkerView {
    pub kind: MarkerKind,
    pub points: Seq<(i32, i32)>,
    pub bounds: Option<Rect>,
    pub number: usize,
    pub label: Seq<char>,
}

impl View for Marker {
    type V = MarkerView;

    open spec fn view(&self) -> MarkerView {
        MarkerView {
            kind: self.kind,
            points: self.points@,
            bounds: self.bounds,
            number: self.number,
            label: self.label@,
        }
    }
}

pub open spec fn marker_views(s: Seq<Marker>) -> Seq<MarkerView> {
    Seq::new(s.len(), |i: int| s[i]@)
}

/// The mark for an action; none for one that opens an app.
pub open spec fn marker_for(action: ActionView, step: usize) -> Option<MarkerView> {
    let label = upper_of(kind_of(action));
    match action {
        ActionView::Click { point, target } => Some(
            MarkerView {
                kind: MarkerKind::Click,
                points: seq![point],
                bounds: Some(target.bounds),
                number: step,
                label,
            },
        ),
        ActionView::LongClick { point, target } => Some(
            MarkerView {
                kind: MarkerKind::LongClick,
                points: seq![point],
                bounds: Some(target.bounds),
                number: step,
                label,
            },
        ),
        ActionView::Swipe { from, to, target, .. } => Some(
            MarkerView {
                kind: MarkerKind::Swipe,
                points: seq![from, to],
                bounds: match target {
                    Some(t) => Some(t.bounds),
                    None => None,
                },
                number: step,
                label,
            },
        ),
        ActionView::Input { point, target, text } => Some(
            MarkerView {
                kind: MarkerKind::Input,
                points: seq![point],
                bounds: Some(target.bounds),
                number: step,
                label: "INPUT "@ + text,
            },
        ),
        ActionView::Back => Some(
            MarkerView {
                kind: MarkerKind::Key,
                points: seq![],
                bounds: None,
                number: step,
                label: "BACK"@,
            },
        ),
        ActionView::Key { name, .. } => Some(
            MarkerView {
                kind: MarkerKind::Key,
                points: seq![],
                bounds: None,
                number: step,
                label: upper_of(name),
            },
        ),
        ActionView::Launch { .. } => None,
    }
}

/// The marks for an action.
pub open spec fn markers_of(action: ActionView, step: usize) -> Seq<MarkerView> {
    match marker_for(action, step) {
        Some(m) => seq![m],
        None => seq![],
    }
}

fn one_point(p: (i32, i32)) -> (r: Vec<(i32, i32)>)
    ensures
        r@ == seq![p],
{
    let mut v: Vec<(i32, i32)> = Vec::new();
    v.push(p);
    assert(v@ =~= seq![p]);
    v
}

fn make_marker(action: &Action, step: usize) -> (r: Option<Marker>)
    ensures
        match r {
            Some(m) => marker_for(action@, step) == Some(m@),
            None => marker_for(action@, step) is None,
        },
{
    let label = action.kind().to_uppercase();
    let m = match action {
        Action::Click { point, target } => Marker {
            kind: MarkerKind::Click,
            points: one_point(*point),
            bounds: Some(target.bounds),
            number: step,
            label,
        },
        Action::LongClick { point, target } => Marker {
            kind: MarkerKind::LongClick,
            points: one_point(*point),
            bounds: Some(target.bounds),
            number: step,
            label,
        },
        Action::Swipe { from, to, target, .. } => {
            let mut points = one_point(*from);
            points.push(*to);
            assert(points@ =~= seq![*from, *to]);
            Marker {
                kind: MarkerKind::Swipe,
                points,
                bounds: match target {
                    Some(t) => Some(t.bounds),
                    None => None,
                },
                number: step,
                label,
            }
        },
        Action::Input { point, target, text } => {
            let mut words = "INPUT ".to_string();
            words.append(text.as_str());
            Marker {
                kind: MarkerKind::Input,
                points: one_point(*point),
                bounds: Some(target.bounds),
                number: step,
                label: words,
            }
        },
        Action::Back => Marker {
            kind: MarkerKind::Key,
            points: Vec::new(),
            bounds: None,
            number: step,
            label: "BACK".to_string(),
        },
        Action::Key { name, .. } => Marker {
            kind: MarkerKind::Key,
            points: Vec::new(),
            bounds: None,
            number: step,
            label: name.as_str().to_uppercase(),
        },
        Action::Launch { .. } => {
            return None;
        },
    };
    assert(m@ =~= marker_for(action@, step)->0);
    Some(m)
}

/// The marks for an action.
pub fn markers_for_action(action: &Action, step: usize) -> (r: Vec<Marker>)
    ensures
        marker_views(r@) == markers_of(action@, step),
{
    let mut v: Vec<Marker> = Vec::new();
    if let Some(m) = make_marker(action, step) {
        v.push(m);
    }
    assert(marker_views(v@) =~= markers_of(action@, step));
    v
}

// ---------------------------------------------------------------- sizes

/// A factor that differs from one by less than 0.02, all in single precision.
pub open spec fn close_to_one(f: Single) -> bool {
    if exponent(f) == 127 {
        (mantissa(f) - 0x80_0000) * 32 < 5368709
    } else {
        exponent(f) == 126 && (0x100_0000 - mantissa(f)) * 16 < 5368709
    }
}

fn is_close_to_one(f: Single) -> (r: bool)
    requires
        f.bits < 0x7f80_0000,
    ensures
        r == close_to_one(f),
{
    f.bits <= 0x3f82_8f5c && f.bits >= 0x3f7a_e148
}

/// A coordinate times a factor, cut to a whole number.
pub open spec fn scaled(x: i32, f: Single) -> i32 {
    if x < 0 {
        let size = scaled_size(-x, f);
        if size > 0x8000_0000 {
            i32::MIN
        } else {
            (-size) as i32
        }
    } else {
        let size = scaled_size(x as int, f);
        if size > i32::MAX {
            i32::MAX
        } else {
            size as i32
        }
    }
}

fn scale_coordinate(x: i32, f: Single) -> (r: i32)
    requires
        0x80_0000 <= f.bits < 0x7f80_0000,
    ensures
        r == scaled(x, f),
{
    if x < 0 {
        let size = scale_size((-(x as i64)) as u64, f);
        if size > 0x8000_0000 {
            i32::MIN
        } else {
            (-(size as i64)) as i32
        }
    } else {
        let size = scale_size(x as u64, f);
        if size > 0x7fff_ffff {
            i32::MAX
        } else {
            size as i32
        }
    }
}

pub open spec fn scaled_point(p: (i32, i32), fx: Single, fy: Single) -> (i32, i32) {
    (scaled(p.0, fx), scaled(p.1, fy))
}

pub open spec fn scaled_rect(b: Rect, fx: Single, fy: Single) -> Rect {
    Rect {
        x1: scaled(b.x1, fx),
        y1: scaled(b.y1, fy),
        x2: scaled(b.x2, fx),
        y2: scaled(b.y2, fy),
    }
}

/// A mark with all its places scaled.
pub open spec fn scaled_marker(m: MarkerView, fx: Single, fy: Single) -> MarkerView {
    MarkerView {
        points: Seq::new(m.points.len(), |i: int| scaled_point(m.points[i], fx, fy)),
        bounds: match m.bounds {
            Some(b) => Some(scaled_rect(b, fx, fy)),
            None => None,
        },
        ..m
    }
}

/// The marks for a picture of `size`, where the widgets were placed on a screen of `width` by
/// `height`: scaled, unless one of the sizes is not known or the two are about the same.
pub open spec fn fitted(
    markers: Seq<MarkerView>,
    width: i32,
    height: i32,
    size: Option<(u32, u32)>,
) -> Seq<MarkerView> {
    match size {
        None => markers,
        Some((w, h)) => if width <= 0 || height <= 0 || w == 0 || h == 0 {
            markers
        } else {
            let fx = Single { bits: quotient(w as int, width as int) as u32 };
            let fy = Single { bits: quotient(h as int, height as int) as u32 };
            if close_to_one(fx) && close_to_one(fy) {
                markers
            } else {
                Seq::new(markers.len(), |i: int| scaled_marker(markers[i], fx, fy))
            }
        },
    }
}

fn scale_marker(m: Marker, fx: Single, fy: Single) -> (r: Marker)
    requires
        0x80_0000 <= fx.bits < 0x7f80_0000,
        0x80_0000 <= fy.bits < 0x7f80_0000,
    ensures
        r@ == scaled_marker(m@, fx, fy),
{
    let mut points: Vec<(i32, i32)> = Vec::new();
    let mut i: usize = 0;
    while i < m.points.len()
        invariant
            0x80_0000 <= fx.bits < 0x7f80_0000,
            0x80_0000 <= fy.bits < 0x7f80_0000,
            i <= m.points@.len(),
            points@.len() == i,
            forall|j: int|
                0 <= j < i ==> #[trigger] points@[j] == scaled_point(m.points@[j], fx, fy),
        decreases m.points@.len() - i,
    {
        let p = m.points[i];
        points.push((scale_coordinate(p.0, fx), scale_coordinate(p.1, fy)));
        i = i + 1;
    }
    let bounds = match m.bounds {
        Some(b) => Some(
            Rect::new(
                scale_coordinate(b.x1, fx),
                scale_coordinate(b.y1, fy),
                scale_coordinate(b.x2, fx),
                scale_coordinate(b.y2, fy),
            ),
        ),
        None => None,
    };
    let r = Marker { kind: m.kind, points, bounds, number: m.number, label: m.label };
    assert(r@ =~= scaled_marker(m@, fx, fy));
    r
}

/// The marks for a picture of the given size.
pub fn fit_markers(
    markers: Vec<Marker>,
    width: i32,
    height: i32,
    size: Option<(u32, u32)>,
) -> (r: Vec<Marker>)
    ensures
        marker_views(r@) == fitted(marker_views(markers@), width, height, size),
{
    let (w, h) = match size {
        Some((w, h)) => (w, h),
        None => {
            return markers;
        },
    };
    if width <= 0 || height <= 0 || w == 0 || h == 0 {
        return markers;
    }
    let fx = divide(w as u128, width as u128);
    let fy = divide(h as u128, height as u128);
    if is_close_to_one(fx) && is_close_to_one(fy) {
        return markers;
    }
    let ghost all = marker_views(markers@);
    let mut rest = markers;
    let mut back: Vec<Marker> = Vec::new();
    let n: usize = rest.len();
    while rest.len() > 0
        invariant
            0x80_0000 <= fx.bits < 0x7f80_0000,
            0x80_0000 <= fy.bits < 0x7f80_0000,
            rest@.len() + back@.len() == n,
            all.len() == n,
            forall|j: int| 0 <= j < rest@.len() ==> (#[trigger] rest@[j])@ == all[j],
            forall|j: int|
                0 <= j < back@.len() ==> (#[trigger] back@[j])@ == scaled_marker(
                    all[n - 1 - j],
                    fx,
                    fy,
                ),
        decreases rest@.len(),
    {
        if let Some(m) = rest.pop() {
            back.push(scale_marker(m, fx, fy));
        }
    }
    let mut out: Vec<Marker> = Vec::new();
    while back.len() > 0
        invariant
            out@.len() + back@.len() == n,
            all.len() == n,
            forall|j: int|
                0 <= j < back@.len() ==> (#[trigger] back@[j])@ == scaled_marker(
                    all[n - 1 - j],
                    fx,
                    fy,
                ),
            forall|j: int|
                0 <= j < out@.len() ==> (#[trigger] out@[j])@ == scaled_marker(all[j], fx, fy),
        decreases back@.len(),
    {
        if let Some(m) = back.pop() {
            out.push(m);
        }
    }
    assert(marker_views(out@) =~= fitted(all, width, height, size));
    out
}

/// The size of a picture in the format PNG; none where it cannot be read.
pub fn png_size(png: &[u8]) -> (r: Option<(u32, u32)>)
    ensures
        r == png_dimensions(png@),
{
    decode_size(png)
}

/// The marks for a picture, where the widgets were placed on a screen of `width` by `height`.
pub fn scale_markers(markers: Vec<Marker>, width: i32, height: i32, png: &[u8]) -> (r: Vec<Marker>)
    ensures
        marker_views(r@) == fitted(
            marker_views(markers@),
            width,
            height,
            png_dimensions(png@),
        ),
{
    fit_markers(markers, width, height, png_size(png))
}

/// The smaller of two factors and one.
pub open spec fn least_factor(a: Single, b: Single) -> Single {
    let m = if a.bits < b.bits {
        a
    } else {
        b
    };
    if m.bits < 0x3f80_0000 {
        m
    } else {
        Single { bits: 0x3f80_0000 }
    }
}

/// A side of a picture times a factor: at least one, at most what there is room for.
pub open spec fn shrunk_side(n: u32, f: Single) -> u32 {
    let size = scaled_size(n as int, f);
    if size < 1 {
        1
    } else if size > u32::MAX {
        u32::MAX
    } else {
        size as u32
    }
}

/// The size of a small picture of one of `w` by `h` that has to fit into `max_w` by `max_h`: as
/// large as possible, and never larger than the picture itself.
pub open spec fn thumbnail_of(w: u32, h: u32, max_w: u32, max_h: u32) -> (u32, u32) {
    let f = least_factor(
        Single { bits: quotient(max_w as int, w as int) as u32 },
        Single { bits: quotient(max_h as int, h as int) as u32 },
    );
    (shrunk_side(w, f), shrunk_side(h, f))
}

fn shrink_side(n: u32, f: Single) -> (r: u32)
    requires
        f.bits == 0 || 0x80_0000 <= f.bits < 0x7f80_0000,
    ensures
        r == shrunk_side(n, f),
        n > 0 && f.bits <= 0x3f80_0000 ==> 1 <= r <= 2 * n,
{
    proof {
        if f.bits <= 0x3f80_0000 {
            lemma_shrinking(n as int, f);
        }
    }
    let size = scale_size(n as u64, f);
    if size < 1 {
        1
    } else if size > 0xffff_ffff {
        u32::MAX
    } else {
        size as u32
    }
}

/// The size of a small picture.
pub fn thumbnail_size(w: u32, h: u32, max_w: u32, max_h: u32) -> (r: (u32, u32))
    requires
        w > 0,
        h > 0,
    ensures
        r == thumbnail_of(w, h, max_w, max_h),
        1 <= r.0 <= 2 * w,
        1 <= r.1 <= 2 * h,
{
    let a = divide(max_w as u128, w as u128);
    let b = divide(max_h as u128, h as u128);
    let m = if a.bits < b.bits {
        a
    } else {
        b
    };
    let f = if m.bits < 0x3f80_0000 {
        m
    } else {
        Single { bits: 0x3f80_0000 }
    };
    (shrink_side(w, f), shrink_side(h, f))
}

/// A small picture that fits into `max_w` by `max_h`; none where the picture cannot be read or
/// shows nothing.
pub open spec fn thumbnail_bytes(png: Seq<u8>, max_w: u32, max_h: u32) -> Option<Seq<u8>> {
    match png_dimensions(png) {
        Some((w, h)) => if w == 0 || h == 0 {
            None
        } else {
            let size = thumbnail_of(w, h, max_w, max_h);
            resized_png(png, size.0, size.1)
        },
        None => None,
    }
}

/// A small picture that fits into `max_w` by `max_h`.
pub fn thumbnail(png: &[u8], max_w: u32, max_h: u32) -> (r: Option<Vec<u8>>)
    ensures
        match r {
            Some(b) => thumbnail_bytes(png@, max_w, max_h) == Some(b@),
            None => thumbnail_bytes(png@, max_w, max_h) is None,
        },
{
    match png_size(png) {
        Some((w, h)) => {
            if w == 0 || h == 0 {
                return None;
            }
            let (tw, th) = thumbnail_size(w, h, max_w, max_h);
            resize_png(png, tw, th)
        },
        None => None,
    }
}

// ---------------------------------------------------------------- letters

/// The dots of a letter, a row of five in each number; none where there is no such letter.
pub open spec fn glyph_rows(ch: char) -> Option<Seq<u8>> {
    match ch {
        '0' => Some(seq![0b01110, 0b10001, 0b10011, 0b10101, 0b11001, 0b10001, 0b01110]),
        '1' => Some(seq![0b00100, 0b01100, 0b00100, 0b00100, 0b00100, 0b00100, 0b01110]),
        '2' => Some(seq![0b01110, 0b10001, 0b00001, 0b00010, 0b00100, 0b01000, 0b11111]),
        '3' => Some(seq![0b11111, 0b00010, 0b00100, 0b00010, 0b00001, 0b10001, 0b01110]),
        '4' => Some(seq![0b00010, 0b00110, 0b01010, 0b10010, 0b11111, 0b00010, 0b00010]),
        '5' => Some(seq![0b11111, 0b10000, 0b11110, 0b00001, 0b00001, 0b10001, 0b01110]),
        '6' => Some(seq![0b00110, 0b01000, 0b10000, 0b11110, 0b10001, 0b10001, 0b01110]),
        '7' => Some(seq![0b11111, 0b00001, 0b00010, 0b00100, 0b01000, 0b01000, 0b01000]),
        '8' => Some(seq![0b01110, 0b10001, 0b10001, 0b01110, 0b10001, 0b10001, 0b01110]),
        '9' => Some(seq![0b01110, 0b10001, 0b10001, 0b01111, 0b00001, 0b00010, 0b01100]),
        'A' => Some(seq![0b01110, 0b10001, 0b10001, 0b11111, 0b10001, 0b10001, 0b10001]),
        'B' => Some(seq![0b11110, 0b10001, 0b10001, 0b11110, 0b10001, 0b10001, 0b11110]),
        'C' => Some(seq![0b01110, 0b10001, 0b10000, 0b10000, 0b10000, 0b10001, 0b01110]),
        'D' => Some(seq![0b11110, 0b10001, 0b10001, 0b10001, 0b10001, 0b10001, 0b11110]),
        'E' => Some(seq![0b11111, 0b10000, 0b10000, 0b11110, 0b10000, 0b10000, 0b11111]),
        'F' => Some(seq![0b11111, 0b10000, 0b10000, 0b11110, 0b10000, 0b10000, 0b10000]),
        'G' => Some(seq![0b01110, 0b10001, 0b10000, 0b10111, 0b10001, 0b10001, 0b01111]),
        'H' => Some(seq![0b10001, 0b10001, 0b10001, 0b11111, 0b10001, 0b10001, 0b10001]),
        'I' => Some(seq![0b01110, 0b00100, 0b00100, 0b00100, 0b00100, 0b00100, 0b01110]),
        'J' => Some(seq![0b00111, 0b00010, 0b00010, 0b00010, 0b00010, 0b10010, 0b01100]),
        'K' => Some(seq![0b10001, 0b10010, 0b10100, 0b11000, 0b10100, 0b10010, 0b10001]),
        'L' => Some(seq![0b10000, 0b10000, 0b10000, 0b10000, 0b10000, 0b10000, 0b11111]),
        'M' => Some(seq![0b10001, 0b11011, 0b10101, 0b10101, 0b10001, 0b10001, 0b10001]),
        'N' => Some(seq![0b10001, 0b11001, 0b10101, 0b10011, 0b10001, 0b10001, 0b10001]),
        'O' => Some(seq![0b01110, 0b10001, 0b10001, 0b10001, 0b10001, 0b10001, 0b01110]),
        'P' => Some(seq![0b11110, 0b10001, 0b10001, 0b11110, 0b10000, 0b10000, 0b10000]),
        'Q' => Some(seq![0b01110, 0b10001, 0b10001, 0b10001, 0b10101, 0b10011, 0b01101]),
        'R' => Some(seq![0b11110, 0b10001, 0b10001, 0b11110, 0b10100, 0b10010, 0b10001]),
        'S' => Some(seq![0b01111, 0b10000, 0b10000, 0b01110, 0b00001, 0b00001, 0b11110]),
        'T' => Some(seq![0b11111, 0b00100, 0b00100, 0b00100, 0b00100, 0b00100, 0b00100]),
        'U' => Some(seq![0b10001, 0b10001, 0b10001, 0b10001, 0b10001, 0b10001, 0b01110]),
        'V' => Some(seq![0b10001, 0b10001, 0b10001, 0b10001, 0b10001, 0b01010, 0b00100]),
        'W' => Some(seq![0b10001, 0b10001, 0b10001, 0b10101, 0b10101, 0b11011, 0b10001]),
        'X' => Some(seq![0b10001, 0b10001, 0b01010, 0b00100, 0b01010, 0b10001, 0b10001]),
        'Y' => Some(seq![0b10001, 0b10001, 0b01010, 0b00100, 0b00100, 0b00100, 0b00100]),
        'Z' => Some(seq![0b11111, 0b00001, 0b00010, 0b00100, 0b01000, 0b10000, 0b11111]),
        '.' => Some(seq![0b00000, 0b00000, 0b00000, 0b00000, 0b00000, 0b01100, 0b01100]),
        '-' => Some(seq![0b00000, 0b00000, 0b00000, 0b11111, 0b00000, 0b00000, 0b00000]),
        ':' => Some(seq![0b00000, 0b01100, 0b01100, 0b00000, 0b01100, 0b01100, 0b00000]),
        '/' => Some(seq![0b00001, 0b00010, 0b00010, 0b00100, 0b01000, 0b01000, 0b10000]),
        '_' => Some(seq![0b00000, 0b00000, 0b00000, 0b00000, 0b00000, 0b00000, 0b11111]),
        '#' => Some(seq![0b01010, 0b01010, 0b11111, 0b01010, 0b11111, 0b01010, 0b01010]),
        '!' => Some(seq![0b00100, 0b00100, 0b00100, 0b00100, 0b00100, 0b00000, 0b00100]),
        ' ' => Some(seq![0b00000, 0b00000, 0b00000, 0b00000, 0b00000, 0b00000, 0b00000]),
        _ => None,
    }
}

/// The dots of a letter, a row of five in each number.
pub fn glyph(ch: char) -> (r: Option<[u8; 7]>)
    ensures
        match r {
            Some(rows) => glyph_rows(ch) == Some(rows@),
            None => glyph_rows(ch) is None,
        },
{
    let r: Option<[u8; 7]> = match ch {
        '0' => Some([0b01110, 0b10001, 0b10011, 0b10101, 0b11001, 0b10001, 0b01110]),
        '1' => Some([0b00100, 0b01100, 0b00100, 0b00100, 0b00100, 0b00100, 0b01110]),
        '2' => Some([0b01110, 0b10001, 0b00001, 0b00010, 0b00100, 0b01000, 0b11111]),
        '3' => Some([0b11111, 0b00010, 0b00100, 0b00010, 0b00001, 0b10001, 0b01110]),
        '4' => Some([0b00010, 0b00110, 0b01010, 0b10010, 0b11111, 0b00010, 0b00010]),
        '5' => Some([0b11111, 0b10000, 0b11110, 0b00001, 0b00001, 0b10001, 0b01110]),
        '6' => Some([0b00110, 0b01000, 0b10000, 0b11110, 0b10001, 0b10001, 0b01110]),
        '7' => Some([0b11111, 0b00001, 0b00010, 0b00100, 0b01000, 0b01000, 0b01000]),
        '8' => Some([0b01110, 0b10001, 0b10001, 0b01110, 0b10001, 0b10001, 0b01110]),
        '9' => Some([0b01110, 0b10001, 0b10001, 0b01111, 0b00001, 0b00010, 0b01100]),
        'A' => Some([0b01110, 0b10001, 0b10001, 0b11111, 0b10001, 0b10001, 0b10001]),
        'B' => Some([0b11110, 0b10001, 0b10001, 0b11110, 0b10001, 0b10001, 0b11110]),
        'C' => Some([0b01110, 0b10001, 0b10000, 0b10000, 0b10000, 0b10001, 0b01110]),
        'D' => Some([0b11110, 0b10001, 0b10001, 0b10001, 0b10001, 0b10001, 0b11110]),
        'E' => Some([0b11111, 0b10000, 0b10000, 0b11110, 0b10000, 0b10000, 0b11111]),
        'F' => Some([0b11111, 0b10000, 0b10000, 0b11110, 0b10000, 0b10000, 0b10000]),
        'G' => Some([0b01110, 0b10001, 0b10000, 0b10111, 0b10001, 0b10001, 0b01111]),
        'H' => Some([0b10001, 0b10001, 0b10001, 0b11111, 0b10001, 0b10001, 0b10001]),
        'I' => Some([0b01110, 0b00100, 0b00100, 0b00100, 0b00100, 0b00100, 0b01110]),
        'J' => Some([0b00111, 0b00010, 0b00010, 0b00010, 0b00010, 0b10010, 0b01100]),
        'K' => Some([0b10001, 0b10010, 0b10100, 0b11000, 0b10100, 0b10010, 0b10001]),
        'L' => Some([0b10000, 0b10000, 0b10000, 0b10000, 0b10000, 0b10000, 0b11111]),
        'M' => Some([0b10001, 0b11011, 0b10101, 0b10101, 0b10001, 0b10001, 0b10001]),
        'N' => Some([0b10001, 0b11001, 0b10101, 0b10011, 0b10001, 0b10001, 0b10001]),
        'O' => Some([0b01110, 0b10001, 0b10001, 0b10001, 0b10001, 0b10001, 0b01110]),
        'P' => Some([0b11110, 0b10001, 0b10001, 0b11110, 0b10000, 0b10000, 0b10000]),
        'Q' => Some([0b01110, 0b10001, 0b10001, 0b10001, 0b10101, 0b10011, 0b01101]),
        'R' => Some([0b11110, 0b10001, 0b10001, 0b11110, 0b10100, 0b10010, 0b10001]),
        'S' => Some([0b01111, 0b10000, 0b10000, 0b01110, 0b00001, 0b00001, 0b11110]),
        'T' => Some([0b11111, 0b00100, 0b00100, 0b00100, 0b00100, 0b00100, 0b00100]),
        'U' => Some([0b10001, 0b10001, 0b10001, 0b10001, 0b10001, 0b10001, 0b01110]),
        'V' => Some([0b10001, 0b10001, 0b10001, 0b10001, 0b10001, 0b01010, 0b00100]),
        'W' => Some([0b10001, 0b10001, 0b10001, 0b10101, 0b10101, 0b11011, 0b10001]),
        'X' => Some([0b10001, 0b10001, 0b01010, 0b00100, 0b01010, 0b10001, 0b10001]),
        'Y' => Some([0b10001, 0b10001, 0b01010, 0b00100, 0b00100, 0b00100, 0b00100]),
        'Z' => Some([0b11111, 0b00001, 0b00010, 0b00100, 0b01000, 0b10000, 0b11111]),
        '.' => Some([0b00000, 0b00000, 0b00000, 0b00000, 0b00000, 0b01100, 0b01100]),
        '-' => Some([0b00000, 0b00000, 0b00000, 0b11111, 0b00000, 0b00000, 0b00000]),
        ':' => Some([0b00000, 0b01100, 0b01100, 0b00000, 0b01100, 0b01100, 0b00000]),
        '/' => Some([0b00001, 0b00010, 0b00010, 0b00100, 0b01000, 0b01000, 0b10000]),
        '_' => Some([0b00000, 0b00000, 0b00000, 0b00000, 0b00000, 0b00000, 0b11111]),
        '#' => Some([0b01010, 0b01010, 0b11111, 0b01010, 0b11111, 0b01010, 0b01010]),
        '!' => Some([0b00100, 0b00100, 0b00100, 0b00100, 0b00100, 0b00000, 0b00100]),
        ' ' => Some([0b00000, 0b00000, 0b00000, 0b00000, 0b00000, 0b00000, 0b00000]),
        _ => None,
    };
    proof {
        if let Some(rows) = r {
            assert(rows@ =~= glyph_rows(ch)->0);
        }
    }
    r
}

// ---------------------------------------------------------------- laws

/// Every letter is seven rows of five dots.
pub proof fn lemma_glyphs_are_five_by_seven(ch: char)
    ensures
        match glyph_rows(ch) {
            Some(rows) => rows.len() == 7 && forall|i: int|
                0 <= i < 7 ==> #[trigger] rows[i] < 32,
            None => true,
        },
{
}

/// Where the picture is as large as the screen the marks stay where they are.
pub proof fn lemma_same_size_keeps_marks(markers: Seq<MarkerView>, width: i32, height: i32)
    requires
        0 < width,
        0 < height,
    ensures
        fitted(markers, width, height, Some((width as u32, height as u32))) == markers,
{
    lemma_quotient_of_equals(width as int);
    lemma_quotient_of_equals(height as int);
}

} // verus!
