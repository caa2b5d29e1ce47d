//! What a mark looks like: the shapes that it is drawn with, one over the other.
//!
//! Lengths are in tenths of a unit that grows with the picture, strengths in hundredths. A shape is
//! drawn over a dark one of its kind where it has to be seen on any ground.

use vstd::prelude::*;

use crate::annotate::marker_for;
use crate::annotate::Marker;
use crate::annotate::MarkerKind;
use crate::annotate::MarkerView;
use crate::annotate::COLOR_CLICK;
use crate::annotate::COLOR_INPUT;
use crate::annotate::COLOR_KEY;
use crate::annotate::COLOR_LONG;
use crate::annotate::COLOR_SWIPE;
use crate::model::action::ActionView;
use crate::model::node::is_empty;
use crate::model::rect::Rect;

verus! {

/// The colour of what lies under a shape.
pub const SHADOW: (u8, u8, u8) = (0, 0, 0);

/// A shape.
#[derive(Debug)]
pub enum Shape {
    /// The four edges of a rectangle.
    Frame { bounds: Rect, width: u32, color: (u8, u8, u8), strength: u32 },
    Ring { at: (i32, i32), radius: u32, width: u32, color: (u8, u8, u8), strength: u32 },
    Disc { at: (i32, i32), radius: u32, color: (u8, u8, u8) },
    /// Two lines that cross.
    Cross { at: (i32, i32), arm: u32, color: (u8, u8, u8) },
    Arrow { from: (i32, i32), to: (i32, i32), width: u32, color: (u8, u8, u8) },
    /// An upright bar, as where a text is typed.
    Caret { at: (i32, i32), color: (u8, u8, u8) },
    /// A number on a disc, so far to the right of a place and above it; in the corner of the picture
    /// where there is no place.
    Badge { near: Option<(i32, i32)>, away: u32, number: usize, color: (u8, u8, u8) },
    /// Words near a place; in the corner of the picture where there is no place.
    Words { near: Option<(i32, i32)>, text: String, color: (u8, u8, u8) },
}

/// A shape as a mathematical value.
pub enum ShapeView {
    Frame { bounds: Rect, width: u32, color: (u8, u8, u8), strength: u32 },
    Ring { at: (i32, i32), radius: u32, width: u32, color: (u8, u8, u8), strength: u32 },
    Disc { at: (i32, i32), radius: u32, color: (u8, u8, u8) },
    Cross { at: (i32, i32), arm: u32, color: (u8, u8, u8) },
    Arrow { from: (i32, i32), to: (i32, i32), width: u32, color: (u8, u8, u8) },
    Caret { at: (i32, i32), color: (u8, u8, u8) },
    Badge { near: Option<(i32, i32)>, away: u32, number: usize, color: (u8, u8, u8) },
    Words { near: Option<(i32, i32)>, text: Seq<char>, color: (u8, u8, u8) },
}

impl View for Shape {
    type V = ShapeView;

    open spec fn view(&self) -> ShapeView {
        match *self {
            Shape::Frame { bounds, width, color, strength } => ShapeView::Frame {
                bounds,
                width,
                color,
                strength,
            },
            Shape::Ring { at, radius, width, color, strength } => ShapeView::Ring {
                at,
                radius,
                width,
                color,
                strength,
            },
            Shape::Disc { at, radius, color } => ShapeView::Disc { at, radius, color },
            Shape::Cross { at, arm, color } => ShapeView::Cross { at, arm, color },
            Shape::Arrow { from, to, width, color } => ShapeView::Arrow { from, to, width, color },
            Shape::Caret { at, color } => ShapeView::Caret { at, color },
            Shape::Badge { near, away, number, color } => ShapeView::Badge { near, away, number, color },
            Shape::Words { near, text, color } => ShapeView::Words { near, text: text@, color },
        }
    }
}

pub open spec fn shape_views(s: Seq<Shape>) -> Seq<ShapeView> {
    Seq::new(s.len(), |i: int| s[i]@)
}

/// The colour of a kind of mark.
pub open spec fn color_of(kind: MarkerKind) -> (u8, u8, u8) {
    match kind {
        MarkerKind::Click => COLOR_CLICK,
        MarkerKind::LongClick => COLOR_LONG,
        MarkerKind::Swipe => COLOR_SWIPE,
        MarkerKind::Input => COLOR_INPUT,
        MarkerKind::Key => COLOR_KEY,
    }
}

/// How the frame of a kind of mark is drawn: the width and the strength of what lies under it, then
/// its own.
pub open spec fn frame_style(kind: MarkerKind) -> (u32, u32, u32, u32) {
    match kind {
        MarkerKind::Swipe => (30, 35, 20, 60),
        MarkerKind::Input => (40, 45, 30, 100),
        _ => (30, 45, 20, 95),
    }
}

/// The frame around a widget, where there is one.
pub open spec fn frame_of(m: MarkerView) -> Seq<ShapeView> {
    let (wide, dim, width, strength) = frame_style(m.kind);
    match m.bounds {
        Some(bounds) => if m.kind == MarkerKind::Key {
            seq![]
        } else {
            seq![
                ShapeView::Frame { bounds, width: wide, color: SHADOW, strength: dim },
                ShapeView::Frame { bounds, width, color: color_of(m.kind), strength },
            ]
        },
        None => seq![],
    }
}

/// A ring over a dark one.
pub open spec fn ring_of(
    at: (i32, i32),
    radius: u32,
    wide: u32,
    width: u32,
    color: (u8, u8, u8),
    strength: u32,
) -> Seq<ShapeView> {
    seq![
        ShapeView::Ring { at, radius, width: wide, color: SHADOW, strength: 50 },
        ShapeView::Ring { at, radius, width, color, strength },
    ]
}

/// What is drawn where it was tapped, held, swiped or typed: a ring with a cross for a tap, two
/// rings for a place held down, an arrow for a swipe, a bar for a text, and the number of the step
/// beside each; just the number for a key.
pub open spec fn figure_of(m: MarkerView) -> Seq<ShapeView> {
    let color = color_of(m.kind);
    match m.kind {
        MarkerKind::Click => if m.points.len() == 0 {
            seq![]
        } else {
            let at = m.points[0];
            ring_of(at, 200, 60, 40, color, 100) + seq![
                ShapeView::Cross { at, arm: 130, color },
                ShapeView::Disc { at, radius: 35, color },
                ShapeView::Badge { near: Some(at), away: 260, number: m.number, color },
            ]
        },
        MarkerKind::LongClick => if m.points.len() == 0 {
            seq![]
        } else {
            let at = m.points[0];
            ring_of(at, 220, 60, 40, color, 100) + ring_of(at, 320, 50, 30, color, 90) + seq![
                ShapeView::Disc { at, radius: 35, color },
                ShapeView::Badge { near: Some(at), away: 340, number: m.number, color },
            ]
        },
        MarkerKind::Swipe => if m.points.len() < 2 {
            seq![]
        } else {
            let from = m.points[0];
            let to = m.points[1];
            seq![
                ShapeView::Arrow { from, to, width: 60, color },
                ShapeView::Disc { at: from, radius: 90, color },
                ShapeView::Cross { at: to, arm: 90, color },
                ShapeView::Badge { near: Some(from), away: 240, number: m.number, color },
            ]
        },
        MarkerKind::Input => if m.points.len() == 0 {
            seq![]
        } else {
            let at = m.points[0];
            seq![
                ShapeView::Disc { at, radius: 100, color },
                ShapeView::Caret { at, color },
                ShapeView::Badge { near: Some(at), away: 240, number: m.number, color },
            ]
        },
        MarkerKind::Key => seq![ShapeView::Badge { near: None, away: 0, number: m.number, color }],
    }
}

/// The words of a mark, near its first place.
pub open spec fn words_of_mark(m: MarkerView) -> Seq<ShapeView> {
    if m.label.len() == 0 {
        seq![]
    } else {
        seq![
            ShapeView::Words {
                near: if m.kind == MarkerKind::Key || m.points.len() == 0 {
                    None
                } else {
                    Some(m.points[0])
                },
                text: m.label,
                color: color_of(m.kind),
            },
        ]
    }
}

/// The shapes of a mark, in the order in which they are drawn.
pub open spec fn sketch_of(m: MarkerView) -> Seq<ShapeView> {
    frame_of(m) + figure_of(m) + words_of_mark(m)
}

fn put(out: &mut Vec<Shape>, shape: Shape)
    ensures
        shape_views(final(out)@) == shape_views(old(out)@).push(shape@),
{
    let ghost was = shape_views(out@);
    let ghost view = shape@;
    out.push(shape);
    assert(shape_views(out@) =~= was.push(view));
}

fn push_frame(out: &mut Vec<Shape>, m: &Marker)
    ensures
        shape_views(final(out)@) == shape_views(old(out)@) + frame_of(m@),
{
    let ghost was = shape_views(out@);
    let (wide, dim, width, strength): (u32, u32, u32, u32) = match m.kind {
        MarkerKind::Swipe => (30, 35, 20, 60),
        MarkerKind::Input => (40, 45, 30, 100),
        _ => (30, 45, 20, 95),
    };
    if m.kind != MarkerKind::Key {
        if let Some(bounds) = m.bounds {
            put(out, Shape::Frame { bounds, width: wide, color: SHADOW, strength: dim });
            put(out, Shape::Frame { bounds, width, color: m.kind.color(), strength });
        }
    }
    assert(shape_views(out@) =~= was + frame_of(m@));
}

fn push_ring(
    out: &mut Vec<Shape>,
    at: (i32, i32),
    radius: u32,
    wide: u32,
    width: u32,
    color: (u8, u8, u8),
    strength: u32,
)
    ensures
        shape_views(final(out)@) == shape_views(old(out)@) + ring_of(
            at,
            radius,
            wide,
            width,
            color,
            strength,
        ),
{
    let ghost was = shape_views(out@);
    put(out, Shape::Ring { at, radius, width: wide, color: SHADOW, strength: 50 });
    put(out, Shape::Ring { at, radius, width, color, strength });
    assert(shape_views(out@) =~= was + ring_of(at, radius, wide, width, color, strength));
}

fn push_figure(out: &mut Vec<Shape>, m: &Marker)
    ensures
        shape_views(final(out)@) == shape_views(old(out)@) + figure_of(m@),
{
    let ghost was = shape_views(out@);
    let color = m.kind.color();
    let number: usize = m.number;
    match m.kind {
        MarkerKind::Click => {
            if m.points.len() > 0 {
                let at = m.points[0];
                push_ring(out, at, 200, 60, 40, color, 100);
                put(out, Shape::Cross { at, arm: 130, color });
                put(out, Shape::Disc { at, radius: 35, color });
                put(out, Shape::Badge { near: Some(at), away: 260, number, color });
            }
        },
        MarkerKind::LongClick => {
            if m.points.len() > 0 {
                let at = m.points[0];
                push_ring(out, at, 220, 60, 40, color, 100);
                push_ring(out, at, 320, 50, 30, color, 90);
                put(out, Shape::Disc { at, radius: 35, color });
                put(out, Shape::Badge { near: Some(at), away: 340, number, color });
            }
        },
        MarkerKind::Swipe => {
            if m.points.len() >= 2 {
                let from = m.points[0];
                let to = m.points[1];
                put(out, Shape::Arrow { from, to, width: 60, color });
                put(out, Shape::Disc { at: from, radius: 90, color });
                put(out, Shape::Cross { at: to, arm: 90, color });
                put(out, Shape::Badge { near: Some(from), away: 240, number, color });
            }
        },
        MarkerKind::Input => {
            if m.points.len() > 0 {
                let at = m.points[0];
                put(out, Shape::Disc { at, radius: 100, color });
                put(out, Shape::Caret { at, color });
                put(out, Shape::Badge { near: Some(at), away: 240, number, color });
            }
        },
        MarkerKind::Key => {
            put(out, Shape::Badge { near: None, away: 0, number, color });
        },
    }
    assert(shape_views(out@) =~= was + figure_of(m@));
}

fn push_words(out: &mut Vec<Shape>, m: &Marker)
    ensures
        shape_views(final(out)@) == shape_views(old(out)@) + words_of_mark(m@),
{
    let ghost was = shape_views(out@);
    if !is_empty(&m.label) {
        let near: Option<(i32, i32)> = if m.kind == MarkerKind::Key || m.points.len() == 0 {
            None
        } else {
            Some(m.points[0])
        };
        put(out, Shape::Words { near, text: m.label.clone(), color: m.kind.color() });
    }
    assert(shape_views(out@) =~= was + words_of_mark(m@));
}

/// The shapes of a mark, in the order in which they are drawn.
pub fn draw_marker(m: &Marker) -> (r: Vec<Shape>)
    ensures
        shape_views(r@) == sketch_of(m@),
{
    let mut out: Vec<Shape> = Vec::new();
    assert(shape_views(out@) =~= seq![]);
    push_frame(&mut out, m);
    push_figure(&mut out, m);
    push_words(&mut out, m);
    assert(shape_views(out@) =~= sketch_of(m@));
    out
}

// ---------------------------------------------------------------- laws

/// The shape is a number in a colour.
pub open spec fn shows_number(s: ShapeView, step: usize, ink: (u8, u8, u8)) -> bool {
    match s {
        ShapeView::Badge { number, color, .. } => number == step && color == ink,
        _ => false,
    }
}

/// The shape is a text in a colour.
pub open spec fn shows_text(s: ShapeView, words: Seq<char>, ink: (u8, u8, u8)) -> bool {
    match s {
        ShapeView::Words { text, color, .. } => text == words && color == ink,
        _ => false,
    }
}

/// Every mark carries the number of its step, in the colour of its kind, and on top the words of its
/// label where there are any. Only an action that opens an app leaves no mark.
pub proof fn lemma_mark_shows_number_and_words(action: ActionView, step: usize)
    ensures
        match marker_for(action, step) {
            Some(m) => {
                &&& exists|i: int|
                    0 <= i < sketch_of(m).len() && shows_number(
                        #[trigger] sketch_of(m)[i],
                        step,
                        color_of(m.kind),
                    )
                &&& m.label.len() > 0 ==> shows_text(
                    sketch_of(m).last(),
                    m.label,
                    color_of(m.kind),
                )
            },
            None => action is Launch,
        },
{
    if let Some(m) = marker_for(action, step) {
        let f = figure_of(m);
        assert(f.len() > 0);
        let k = frame_of(m).len() + f.len() - 1;
        assert(sketch_of(m)[k] == f.last());
        assert(shows_number(sketch_of(m)[k], step, color_of(m.kind)));
    }
}

} // verus!
