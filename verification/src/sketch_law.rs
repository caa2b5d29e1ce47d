//! What is drawn for a mark, and where the dots of its letters are.

use vstd::prelude::*;

use crate::annotate::glyph_rows;
use crate::annotate::MarkerKind;
use crate::annotate::MarkerView;
use crate::lettering::has_dot;
use crate::lettering::letter_dots;
use crate::lettering::row_dots;
use crate::lettering::word_dots;
use crate::lettering::word_width;
use crate::model::rect::Rect;
use crate::outside::upper_char;
use crate::sketch::color_of;
use crate::sketch::sketch_of;
use crate::sketch::ShapeView;

verus! {

/// The shape lies at a place.
pub open spec fn lies_at(s: ShapeView, p: (i32, i32)) -> bool {
    match s {
        ShapeView::Ring { at, .. } => at == p,
        ShapeView::Disc { at, .. } => at == p,
        ShapeView::Cross { at, .. } => at == p,
        ShapeView::Caret { at, .. } => at == p,
        ShapeView::Badge { near, .. } => near == Some(p),
        ShapeView::Words { near, .. } => near == Some(p),
        _ => false,
    }
}

/// The kinds of marks have five different colours.
pub proof fn lemma_colours_differ()
    ensures
        color_of(MarkerKind::Click) == (255u8, 59u8, 48u8),
        color_of(MarkerKind::LongClick) == (255u8, 149u8, 0u8),
        color_of(MarkerKind::Swipe) == (10u8, 132u8, 255u8),
        color_of(MarkerKind::Input) == (175u8, 82u8, 222u8),
        color_of(MarkerKind::Key) == (120u8, 200u8, 120u8),
{
}

/// All of a mark for a tap, a place held down or a text lies at its place, but for the frames, which
/// are around the widget; a place held down has one ring more than a tap, and a text has a bar.
pub proof fn lemma_marks_at_a_place(m: MarkerView, p: (i32, i32), b: Rect)
    requires
        m.points == seq![p],
        m.bounds == Some(b),
        m.label.len() > 0,
        m.kind is Click || m.kind is LongClick || m.kind is Input,
    ensures
        ({
            let s = sketch_of(m);
            &&& forall|i: int|
                0 <= i < s.len() ==> lies_at(#[trigger] s[i], p) || (s[i] is Frame
                    && s[i]->Frame_bounds == b)
            &&& s[0] is Frame && s[1] is Frame && !(s[2] is Frame)
            &&& s.last() is Words && s.last()->Words_text == m.label
            &&& s[s.len() - 2] is Badge && s[s.len() - 2]->Badge_number == m.number
            &&& m.kind is Click ==> s.len() == 8 && s[2] is Ring && s[3] is Ring && s[4] is Cross
                && s[5] is Disc
            &&& m.kind is LongClick ==> s.len() == 9 && s[2] is Ring && s[3] is Ring && s[4] is Ring
                && s[5] is Ring && s[6] is Disc
            &&& m.kind is Input ==> s.len() == 6 && s[2] is Disc && s[3] is Caret
        }),
{
}

/// A swipe is an arrow from its first place to its second, in its own colour.
pub proof fn lemma_swipe_is_an_arrow(m: MarkerView, p: (i32, i32), q: (i32, i32))
    requires
        m.kind is Swipe,
        m.points == seq![p, q],
    ensures
        exists|i: int|
            0 <= i < sketch_of(m).len() && (#[trigger] sketch_of(m)[i]) == (ShapeView::Arrow {
                from: p,
                to: q,
                width: 60,
                color: (10u8, 132u8, 255u8),
            }),
{
    let k = crate::sketch::frame_of(m).len() as int;
    assert(sketch_of(m)[k] is Arrow);
}

/// A key has no place: just its number and its words.
pub proof fn lemma_key_has_no_place(m: MarkerView)
    requires
        m.kind is Key,
    ensures
        forall|i: int|
            0 <= i < sketch_of(m).len() ==> match #[trigger] sketch_of(m)[i] {
                ShapeView::Badge { near, number, .. } => near is None && number == m.number,
                ShapeView::Words { near, text, .. } => near is None && text == m.label,
                _ => false,
            },
        m.label.len() > 0 ==> sketch_of(m).len() == 2,
        m.label.len() == 0 ==> sketch_of(m).len() == 1,
{
}

// ---------------------------------------------------------------- letters

proof fn lemma_row_members(row: u8, cols: int, x: int, y: int, scale: int, c: int)
    requires
        0 <= c,
        0 <= cols <= 5,
        scale > 0,
    ensures
        row_dots(row, cols, x, y, scale).contains((x + c * scale, y)) <==> c < cols && has_dot(
            row,
            c,
        ),
    decreases cols,
{
    let p = (x + c * scale, y);
    if cols > 0 {
        let k = cols - 1;
        let a = row_dots(row, k, x, y, scale);
        let b = if has_dot(row, k) {
            seq![(x + k * scale, y)]
        } else {
            seq![]
        };
        lemma_row_members(row, k, x, y, scale, c);
        assert((x + k * scale == x + c * scale) <==> k == c) by (nonlinear_arith)
            requires
                scale > 0,
        ;
        assert(row_dots(row, cols, x, y, scale) == a + b);
        if a.contains(p) {
            let i = choose|i: int| 0 <= i < a.len() && a[i] == p;
            assert((a + b)[i] == p);
        }
        if b.contains(p) {
            assert((a + b)[a.len() as int] == b[0]);
        }
        if (a + b).contains(p) {
            let i = choose|i: int| 0 <= i < (a + b).len() && (a + b)[i] == p;
            if i < a.len() {
                assert(a[i] == p);
            } else {
                assert(b[i - a.len()] == p);
            }
        }
        if k == c && has_dot(row, k) {
            assert(b[0] == p);
        }
    }
}

proof fn lemma_bits(row: u8, high: int, b: (bool, bool, bool, bool, bool))
    requires
        row == 32 * high + (if b.0 {
            16int
        } else {
            0
        }) + (if b.1 {
            8int
        } else {
            0
        }) + (if b.2 {
            4int
        } else {
            0
        }) + (if b.3 {
            2int
        } else {
            0
        }) + (if b.4 {
            1int
        } else {
            0
        }),
    ensures
        has_dot(row, 0) == b.0,
        has_dot(row, 1) == b.1,
        has_dot(row, 2) == b.2,
        has_dot(row, 3) == b.3,
        has_dot(row, 4) == b.4,
{
    let b0 = if b.0 {
        1int
    } else {
        0
    };
    let b1 = if b.1 {
        1int
    } else {
        0
    };
    let b2 = if b.2 {
        1int
    } else {
        0
    };
    let b3 = if b.3 {
        1int
    } else {
        0
    };
    let b4 = if b.4 {
        1int
    } else {
        0
    };
    let n = row as int;
    assert(n == 32 * high + 16 * b0 + 8 * b1 + 4 * b2 + 2 * b3 + b4);
    lemma_bit(n, 16, high, b0, 8 * b1 + 4 * b2 + 2 * b3 + b4);
    lemma_bit(n, 8, 2 * high + b0, b1, 4 * b2 + 2 * b3 + b4);
    lemma_bit(n, 4, 4 * high + 2 * b0 + b1, b2, 2 * b3 + b4);
    lemma_bit(n, 2, 8 * high + 4 * b0 + 2 * b1 + b2, b3, b4);
    lemma_bit(n, 1, 16 * high + 8 * b0 + 4 * b1 + 2 * b2 + b3, b4, 0);
}

proof fn lemma_bit(n: int, d: int, k: int, bit: int, rest: int)
    requires
        n == d * (2 * k + bit) + rest,
        0 <= rest < d,
        0 <= bit <= 1,
    ensures
        (n / d) % 2 == bit,
{
    let m = 2 * k + bit;
    assert(n / d == m) by (nonlinear_arith)
        requires
            n == d * m + rest,
            0 <= rest < d,
    ;
    assert(m % 2 == bit);
}

/// A row of a letter shows the five lowest bits of its number, the highest of them on the left.
pub proof fn lemma_rows_show_bits(
    row: u8,
    high: int,
    b: (bool, bool, bool, bool, bool),
    x: int,
    y: int,
    scale: int,
)
    requires
        scale > 0,
        row == 32 * high + (if b.0 {
            16int
        } else {
            0
        }) + (if b.1 {
            8int
        } else {
            0
        }) + (if b.2 {
            4int
        } else {
            0
        }) + (if b.3 {
            2int
        } else {
            0
        }) + (if b.4 {
            1int
        } else {
            0
        }),
    ensures
        ({
            let s = row_dots(row, 5, x, y, scale);
            &&& s.contains((x, y)) <==> b.0
            &&& s.contains((x + scale, y)) <==> b.1
            &&& s.contains((x + 2 * scale, y)) <==> b.2
            &&& s.contains((x + 3 * scale, y)) <==> b.3
            &&& s.contains((x + 4 * scale, y)) <==> b.4
        }),
{
    lemma_bits(row, high, b);
    lemma_row_members(row, 5, x, y, scale, 0);
    lemma_row_members(row, 5, x, y, scale, 1);
    lemma_row_members(row, 5, x, y, scale, 2);
    lemma_row_members(row, 5, x, y, scale, 3);
    lemma_row_members(row, 5, x, y, scale, 4);
    assert(0 * scale == 0);
    assert(1 * scale == scale);
}

/// The rows of a letter lie one below the other, as far apart as its dots.
pub proof fn lemma_rows_lie_below_each_other(rows: Seq<u8>, row: u8, x: int, scale: int)
    ensures
        letter_dots(rows.push(row), x, scale) == letter_dots(rows, x, scale) + row_dots(
            row,
            5,
            x,
            rows.len() * scale,
            scale,
        ),
        letter_dots(seq![], x, scale).len() == 0,
{
    assert(rows.push(row).drop_last() =~= rows);
}

/// A further letter of a word begins six columns behind the one before it, as a capital; what is no
/// letter leaves a gap. The word is as wide as its columns without the last gap.
pub proof fn lemma_letters_stand_side_by_side(s: Seq<char>, c: char, scale: int)
    ensures
        glyph_rows(upper_char(c)) is Some ==> word_dots(s.push(c), scale) == word_dots(s, scale)
            + letter_dots(glyph_rows(upper_char(c))->0, s.len() * 6 * scale, scale),
        glyph_rows(upper_char(c)) is None ==> word_dots(s.push(c), scale) == word_dots(s, scale),
        word_width(s.push(c), scale) == word_width(s, scale) + 6 * scale,
        word_width(seq![c], scale) == 5 * scale,
        'a' <= c <= 'z' ==> word_dots(seq![c], scale) == word_dots(
            seq![(c as int - 32) as char],
            scale,
        ),
{
    assert(s.push(c).drop_last() =~= s);
    if glyph_rows(upper_char(c)) is None {
        assert(word_dots(s, scale) + Seq::<(int, int)>::empty() =~= word_dots(s, scale));
    }
    let n = s.len() as int;
    assert((n + 1) * 6 * scale == n * 6 * scale + 6 * scale) by (nonlinear_arith);
    if 'a' <= c <= 'z' {
        let u = (c as int - 32) as char;
        assert(seq![c].drop_last() =~= seq![]);
        assert(seq![u].drop_last() =~= seq![]);
        assert(upper_char(u) == u);
        assert(upper_char(c) == u);
    }
}

} // verus!
