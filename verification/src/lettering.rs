//! Words in letters of five by seven dots: where their dots are, and how wide they are.

use vstd::prelude::*;

use crate::annotate::glyph;
use crate::annotate::glyph_rows;
use crate::annotate::lemma_glyphs_are_five_by_seven;
use crate::outside::upper_char;
use crate::text::basic::chars_of;

verus! {

/// A word is not longer than a number can count its dots.
pub const MAX_LETTERS: usize = 0x7fff_ffff;

/// The value of the dot at a column in the number of a row.
pub open spec fn dot_value(col: int) -> int {
    if col == 0 {
        16
    } else if col == 1 {
        8
    } else if col == 2 {
        4
    } else if col == 3 {
        2
    } else {
        1
    }
}

/// A row has a dot at the column.
pub open spec fn has_dot(row: u8, col: int) -> bool {
    (row as int / dot_value(col)) % 2 == 1
}

/// The places of the dots of a row in its first columns, where dots are `scale` apart and the row
/// begins at `x` and `y`.
pub open spec fn row_dots(row: u8, cols: int, x: int, y: int, scale: int) -> Seq<(int, int)>
    decreases cols,
{
    if cols <= 0 {
        seq![]
    } else {
        row_dots(row, cols - 1, x, y, scale) + if has_dot(row, cols - 1) {
            seq![(x + (cols - 1) * scale, y)]
        } else {
            seq![]
        }
    }
}

/// The places of the dots of a letter that begins at `x`, row by row.
pub open spec fn letter_dots(rows: Seq<u8>, x: int, scale: int) -> Seq<(int, int)>
    decreases rows.len(),
{
    if rows.len() == 0 {
        seq![]
    } else {
        letter_dots(rows.drop_last(), x, scale) + row_dots(
            rows.last(),
            5,
            x,
            (rows.len() - 1) * scale,
            scale,
        )
    }
}

/// The places of the dots of a word, letter by letter: small letters are shown as capitals, each
/// letter has six columns, and what is no letter leaves a gap.
pub open spec fn word_dots(s: Seq<char>, scale: int) -> Seq<(int, int)>
    decreases s.len(),
{
    if s.len() == 0 {
        seq![]
    } else {
        word_dots(s.drop_last(), scale) + match glyph_rows(upper_char(s.last())) {
            Some(rows) => letter_dots(rows, (s.len() - 1) * 6 * scale, scale),
            None => seq![],
        }
    }
}

/// The width of a word: six columns for each letter, without the gap behind the last.
pub open spec fn word_width(s: Seq<char>, scale: int) -> int {
    s.len() * 6 * scale - scale
}

/// The places as mathematical numbers.
pub open spec fn dot_views(v: Seq<(i64, i64)>) -> Seq<(int, int)> {
    Seq::new(v.len(), |i: int| (v[i].0 as int, v[i].1 as int))
}

fn capital(c: char) -> (r: char)
    ensures
        r == upper_char(c),
{
    let n: u32 = c as u32;
    if 97 <= n && n <= 122 {
        match char::from_u32(n - 32) {
            Some(u) => u,
            None => c,
        }
    } else {
        c
    }
}

fn dot_at(row: u8, col: u8) -> (r: bool)
    requires
        col < 5,
    ensures
        r == has_dot(row, col as int),
{
    let value: u8 = if col == 0 {
        16
    } else if col == 1 {
        8
    } else if col == 2 {
        4
    } else if col == 3 {
        2
    } else {
        1
    };
    (row / value) % 2 == 1
}

fn push_row(out: &mut Vec<(i64, i64)>, row: u8, x: i64, y: i64, scale: u8)
    requires
        0 <= x <= 0x1000_0000_0000_0000,
    ensures
        dot_views(final(out)@) == dot_views(old(out)@) + row_dots(
            row,
            5,
            x as int,
            y as int,
            scale as int,
        ),
{
    let ghost was = dot_views(out@);
    let mut col: u8 = 0;
    assert(was + row_dots(row, 0, x as int, y as int, scale as int) =~= was);
    while col < 5
        invariant
            col <= 5,
            0 <= x <= 0x1000_0000_0000_0000,
            dot_views(out@) == was + row_dots(row, col as int, x as int, y as int, scale as int),
        decreases 5 - col,
    {
        let ghost before = dot_views(out@);
        assert(0 <= col * scale <= 5 * 255) by (nonlinear_arith)
            requires
                0 <= col <= 5,
                0 <= scale <= 255,
        ;
        if dot_at(row, col) {
            let dx: i64 = x + col as i64 * scale as i64;
            out.push((dx, y));
            assert(dot_views(out@) =~= before.push((dx as int, y as int)));
        }
        assert(dot_views(out@) =~= was + row_dots(
            row,
            col + 1,
            x as int,
            y as int,
            scale as int,
        ));
        col = col + 1;
    }
}

fn push_letter(out: &mut Vec<(i64, i64)>, rows: &[u8; 7], x: i64, scale: u8)
    requires
        0 <= x <= 0x1000_0000_0000_0000,
    ensures
        dot_views(final(out)@) == dot_views(old(out)@) + letter_dots(
            rows@,
            x as int,
            scale as int,
        ),
{
    let ghost was = dot_views(out@);
    let ghost all = rows@;
    let mut i: usize = 0;
    assert(all.take(0) =~= seq![]);
    assert(was + letter_dots(all.take(0), x as int, scale as int) =~= was);
    while i < 7
        invariant
            i <= 7,
            all == rows@,
            all.len() == 7,
            0 <= x <= 0x1000_0000_0000_0000,
            dot_views(out@) == was + letter_dots(all.take(i as int), x as int, scale as int),
        decreases 7 - i,
    {
        proof {
            assert(all.take(i + 1).drop_last() =~= all.take(i as int));
            assert(all.take(i + 1).last() == rows@[i as int]);
            assert(0 <= i * scale <= 7 * 255) by (nonlinear_arith)
                requires
                    0 <= i <= 7,
                    0 <= scale <= 255,
            ;
        }
        let y: i64 = i as i64 * scale as i64;
        push_row(out, rows[i], x, y, scale);
        assert(dot_views(out@) =~= was + letter_dots(all.take(i + 1), x as int, scale as int));
        i = i + 1;
    }
    assert(all.take(i as int) =~= all);
}

/// The places of the dots of a word that begins at zero and zero; dots are `scale` wide and high.
pub fn text_dots(s: &str, scale: u8) -> (r: Vec<(i64, i64)>)
    requires
        s@.len() <= MAX_LETTERS,
    ensures
        dot_views(r@) == word_dots(s@, scale as int),
{
    let v = chars_of(s);
    let ghost all = v@;
    let mut out: Vec<(i64, i64)> = Vec::new();
    let mut i: usize = 0;
    assert(all.take(0) =~= seq![]);
    assert(dot_views(out@) =~= seq![]);
    while i < v.len()
        invariant
            i <= v@.len(),
            all == v@,
            v@.len() <= MAX_LETTERS,
            dot_views(out@) == word_dots(all.take(i as int), scale as int),
        decreases v@.len() - i,
    {
        let ghost before = dot_views(out@);
        proof {
            assert(all.take(i + 1).drop_last() =~= all.take(i as int));
            assert(all.take(i + 1).last() == v@[i as int]);
            assert(0 <= i * 6 * scale <= 0x7fff_ffff * 6 * 255) by (nonlinear_arith)
                requires
                    0 <= i <= 0x7fff_ffff,
                    0 <= scale <= 255,
            ;
        }
        if let Some(rows) = glyph(capital(v[i])) {
            let x: i64 = i as i64 * 6 * scale as i64;
            push_letter(&mut out, &rows, x, scale);
        }
        assert(dot_views(out@) =~= word_dots(all.take(i + 1), scale as int));
        i = i + 1;
    }
    assert(all.take(i as int) =~= all);
    out
}

/// How wide a word is.
pub fn text_width(s: &str, scale: u8) -> (r: i64)
    requires
        s@.len() <= MAX_LETTERS,
    ensures
        r == word_width(s@, scale as int),
{
    let n: usize = chars_of(s).len();
    assert(0 <= n * 6 * scale <= 0x7fff_ffff * 6 * 255) by (nonlinear_arith)
        requires
            0 <= n <= 0x7fff_ffff,
            0 <= scale <= 255,
    ;
    n as i64 * 6 * scale as i64 - scale as i64
}

// ---------------------------------------------------------------- laws

/// The dot at the place lies, with its own size, in a box of the given width and seven dots high.
pub open spec fn in_box(dot: (int, int), wide: int, scale: int) -> bool {
    0 <= dot.0 && dot.0 + scale <= wide && 0 <= dot.1 && dot.1 + scale <= 7 * scale
}

proof fn lemma_row_in_box(row: u8, cols: int, x: int, y: int, scale: int, wide: int)
    requires
        0 <= cols <= 5,
        0 <= scale,
        0 <= x,
        x + 5 * scale <= wide,
        0 <= y <= 6 * scale,
    ensures
        forall|i: int|
            0 <= i < row_dots(row, cols, x, y, scale).len() ==> in_box(
                #[trigger] row_dots(row, cols, x, y, scale)[i],
                wide,
                scale,
            ),
    decreases cols,
{
    if cols > 0 {
        lemma_row_in_box(row, cols - 1, x, y, scale, wide);
        let before = row_dots(row, cols - 1, x, y, scale);
        let all = row_dots(row, cols, x, y, scale);
        assert(0 <= (cols - 1) * scale <= 4 * scale) by (nonlinear_arith)
            requires
                1 <= cols <= 5,
                0 <= scale,
        ;
        assert forall|i: int| 0 <= i < all.len() implies in_box(#[trigger] all[i], wide, scale) by {
            if i < before.len() {
                assert(all[i] == before[i]);
            }
        }
    }
}

proof fn lemma_letter_in_box(rows: Seq<u8>, x: int, scale: int, wide: int)
    requires
        rows.len() <= 7,
        0 <= scale,
        0 <= x,
        x + 5 * scale <= wide,
    ensures
        forall|i: int|
            0 <= i < letter_dots(rows, x, scale).len() ==> in_box(
                #[trigger] letter_dots(rows, x, scale)[i],
                wide,
                scale,
            ),
    decreases rows.len(),
{
    if rows.len() > 0 {
        let y = (rows.len() - 1) * scale;
        lemma_letter_in_box(rows.drop_last(), x, scale, wide);
        assert(0 <= y <= 6 * scale) by (nonlinear_arith)
            requires
                1 <= rows.len() <= 7,
                0 <= scale,
                y == (rows.len() - 1) * scale,
        ;
        lemma_row_in_box(rows.last(), 5, x, y, scale, wide);
        let before = letter_dots(rows.drop_last(), x, scale);
        let own = row_dots(rows.last(), 5, x, y, scale);
        let all = letter_dots(rows, x, scale);
        assert forall|i: int| 0 <= i < all.len() implies in_box(#[trigger] all[i], wide, scale) by {
            if i < before.len() {
                assert(all[i] == before[i]);
            } else {
                assert(all[i] == own[i - before.len()]);
            }
        }
    }
}

/// A word keeps to its box: every dot lies, as large as it is, in the width of the word and in a
/// height of seven dots.
pub proof fn lemma_word_keeps_to_its_box(s: Seq<char>, scale: int)
    requires
        0 <= scale,
    ensures
        forall|i: int|
            0 <= i < word_dots(s, scale).len() ==> in_box(
                #[trigger] word_dots(s, scale)[i],
                word_width(s, scale),
                scale,
            ),
    decreases s.len(),
{
    if s.len() > 0 {
        let n = s.len() as int;
        let wide = word_width(s, scale);
        let x = (n - 1) * 6 * scale;
        lemma_word_keeps_to_its_box(s.drop_last(), scale);
        assert(0 <= x && x + 5 * scale == wide && word_width(s.drop_last(), scale) <= wide)
            by (nonlinear_arith)
            requires
                1 <= n,
                0 <= scale,
                x == (n - 1) * 6 * scale,
                wide == n * 6 * scale - scale,
                word_width(s.drop_last(), scale) == (n - 1) * 6 * scale - scale,
        ;
        let before = word_dots(s.drop_last(), scale);
        let all = word_dots(s, scale);
        let c = upper_char(s.last());
        lemma_glyphs_are_five_by_seven(c);
        let own = match glyph_rows(c) {
            Some(rows) => letter_dots(rows, x, scale),
            None => seq![],
        };
        if let Some(rows) = glyph_rows(c) {
            lemma_letter_in_box(rows, x, scale, wide);
        }
        assert forall|i: int| 0 <= i < all.len() implies in_box(#[trigger] all[i], wide, scale) by {
            if i < before.len() {
                assert(all[i] == before[i]);
                assert(in_box(before[i], word_width(s.drop_last(), scale), scale));
            } else {
                assert(all[i] == own[i - before.len()]);
            }
        }
    }
}

} // verus!
