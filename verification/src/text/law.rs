//! What is written is read back: words, lines, fields and numbers.

use vstd::prelude::*;

use crate::text::number::all_digits;
use crate::text::number::dec;
use crate::text::number::dec_signed;
use crate::text::number::i32_of;
use crate::text::number::lemma_value_of_dec;
use crate::text::number::u64_of;
use crate::text::number::usize_of;
use crate::text::search::char_from;
use crate::text::search::finishes;
use crate::text::search::has;
use crate::text::search::lemma_char_from;
use crate::text::search::occurs_at;
use crate::text::search::space;
use crate::text::search::trim_front;
use crate::text::search::trimmed;
use crate::text::split::joined;
use crate::text::split::lemma_word_len;
use crate::text::split::lines_of;
use crate::text::split::split_on;
use crate::text::split::word_len;
use crate::text::split::words_of;

verus! {

/// Joining begins with the first part.
pub proof fn lemma_joined_front(parts: Seq<Seq<char>>, sep: Seq<char>)
    requires
        parts.len() > 1,
    ensures
        joined(parts, sep) == parts[0] + sep + joined(parts.skip(1), sep),
    decreases parts.len(),
{
    let d = parts.drop_last();
    let t = parts.skip(1);
    if parts.len() == 2 {
        assert(joined(d, sep) == parts[0]);
        assert(joined(t, sep) == parts[1]);
    } else {
        lemma_joined_front(d, sep);
        assert(t.drop_last() =~= d.skip(1));
        assert(t.last() == parts.last());
        assert(joined(parts, sep) =~= parts[0] + sep + (joined(d.skip(1), sep) + sep
            + parts.last()));
    }
}

/// A word: something without white space in it.
pub open spec fn is_word(w: Seq<char>) -> bool {
    w.len() > 0 && forall|i: int| 0 <= i < w.len() ==> !space(#[trigger] w[i])
}

proof fn lemma_first_word(w: Seq<char>, rest: Seq<char>)
    requires
        is_word(w),
        rest.len() == 0 || space(rest[0]),
    ensures
        words_of(w + rest) == seq![w] + words_of(rest),
{
    let t = w + rest;
    assert(t[0] == w[0]);
    assert(trim_front(t) == t);
    lemma_word_len(t);
    let k = word_len(t);
    if k < w.len() {
        assert(t[k] == w[k]);
    }
    if k > w.len() {
        assert(t[w.len() as int] == rest[0]);
    }
    assert(t.take(k) =~= w);
    assert(t.skip(k) =~= rest);
}

/// Words with blanks between them are read back as these words.
pub proof fn lemma_words_are_read_back(ws: Seq<Seq<char>>)
    requires
        forall|i: int| 0 <= i < ws.len() ==> is_word(#[trigger] ws[i]),
    ensures
        words_of(joined(ws, " "@)) == ws,
    decreases ws.len(),
{
    reveal_strlit(" ");
    if ws.len() == 0 {
        assert(words_of(seq![]) =~= seq![]);
        assert(ws =~= seq![]);
    } else if ws.len() == 1 {
        lemma_first_word(ws[0], seq![]);
        assert(ws[0] + seq![] =~= ws[0]);
        assert(words_of(seq![]) =~= seq![]);
        assert(ws =~= seq![ws[0]]);
    } else {
        let t = ws.skip(1);
        assert forall|i: int| 0 <= i < t.len() implies is_word(#[trigger] t[i]) by {
            assert(t[i] == ws[i + 1]);
        }
        lemma_words_are_read_back(t);
        lemma_joined_front(ws, " "@);
        let rest = " "@ + joined(t, " "@);
        assert(joined(ws, " "@) =~= ws[0] + rest);
        lemma_first_word(ws[0], rest);
        lemma_blank_in_front(joined(t, " "@));
        assert(ws =~= seq![ws[0]] + t);
    }
}

proof fn lemma_blank_in_front(s: Seq<char>)
    ensures
        words_of(" "@ + s) == words_of(s),
{
    reveal_strlit(" ");
    let b = " "@ + s;
    assert(b[0] == ' ');
    assert(b.drop_first() =~= s);
    assert(trim_front(b) == trim_front(s));
    crate::text::search::lemma_trim_front(s);
}

/// Fields with a character between them that none of them holds are read back as these fields.
pub proof fn lemma_fields_are_read_back(fs: Seq<Seq<char>>, c: char)
    requires
        fs.len() > 0,
        forall|i: int| 0 <= i < fs.len() ==> !(#[trigger] fs[i]).contains(c),
    ensures
        split_on(joined(fs, seq![c]), c) == fs,
    decreases fs.len(),
{
    if fs.len() == 1 {
        let s = fs[0];
        lemma_char_from(s, c, 0);
        if char_from(s, c, 0) is Some {
            assert(s.contains(s[char_from(s, c, 0)->0]));
        }
        assert(fs =~= seq![s]);
    } else {
        let t = fs.skip(1);
        assert forall|i: int| 0 <= i < t.len() implies !(#[trigger] t[i]).contains(c) by {
            assert(t[i] == fs[i + 1]);
        }
        lemma_fields_are_read_back(t, c);
        lemma_joined_front(fs, seq![c]);
        let s = joined(fs, seq![c]);
        let rest = joined(t, seq![c]);
        let n = fs[0].len() as int;
        assert(s == fs[0] + seq![c] + rest);
        lemma_char_from(s, c, 0);
        assert(s[n] == c);
        assert forall|i: int| 0 <= i < n implies s[i] != c by {
            assert(s[i] == fs[0][i]);
            assert(fs[0].contains(fs[0][i]));
        }
        assert(s.take(n) =~= fs[0]);
        assert(s.skip(n + 1) =~= rest);
        assert(fs =~= seq![fs[0]] + t);
    }
}

/// Lines with line feeds between them are read back as these lines, where the last is not empty
/// and none ends in a carriage return.
pub proof fn lemma_lines_are_read_back(ls: Seq<Seq<char>>)
    requires
        ls.len() > 0,
        ls.last().len() > 0,
        forall|i: int|
            0 <= i < ls.len() ==> !(#[trigger] ls[i]).contains('\n') && (ls[i].len() > 0
                ==> ls[i].last() != '\r'),
    ensures
        lines_of(joined(ls, "\n"@)) == ls,
    decreases ls.len(),
{
    reveal_strlit("\n");
    let s = joined(ls, "\n"@);
    if ls.len() == 1 {
        lemma_char_from(s, '\n', 0);
        if char_from(s, '\n', 0) is Some {
            assert(ls[0].contains(s[char_from(s, '\n', 0)->0]));
        }
        assert(ls =~= seq![s]);
    } else {
        let t = ls.skip(1);
        assert forall|i: int| 0 <= i < t.len() implies !(#[trigger] t[i]).contains('\n') && (
        t[i].len() > 0 ==> t[i].last() != '\r') by {
            assert(t[i] == ls[i + 1]);
        }
        lemma_lines_are_read_back(t);
        lemma_joined_front(ls, "\n"@);
        let rest = joined(t, "\n"@);
        let n = ls[0].len() as int;
        assert(s == ls[0] + "\n"@ + rest);
        lemma_char_from(s, '\n', 0);
        assert(s[n] == '\n');
        assert forall|i: int| 0 <= i < n implies s[i] != '\n' by {
            assert(s[i] == ls[0][i]);
            assert(ls[0].contains(ls[0][i]));
        }
        assert(s.take(n) =~= ls[0]);
        assert(s.skip(n + 1) =~= rest);
        assert(ls =~= seq![ls[0]] + t);
    }
}

/// A number is one word, and is trimmed already.
pub proof fn lemma_numbers_are_words(n: int)
    ensures
        n >= 0 ==> is_word(dec(n)) && trimmed(dec(n)) == dec(n) && dec(n)[0] != '-' && dec(n)[0]
            != '+',
        is_word(dec_signed(n)),
        trimmed(dec_signed(n)) == dec_signed(n),
{
    let m = if n < 0 {
        -n
    } else {
        n
    };
    lemma_value_of_dec(m);
    let d = dec(m);
    assert forall|i: int| 0 <= i < d.len() implies !space(#[trigger] d[i]) && d[i] != '-' && d[i]
        != '+' by {
        assert(crate::text::number::digit_of(d[i], 10) is Some);
    }
    let s = dec_signed(n);
    assert forall|i: int| 0 <= i < s.len() implies !space(#[trigger] s[i]) by {
        if n < 0 {
            if i > 0 {
                assert(s[i] == d[i - 1]);
            }
        } else {
            assert(s[i] == d[i]);
        }
    }
    assert(trim_front(s) == s);
    assert(!space(s.last()));
    assert(!space(d[0]) && !space(d.last()));
}

/// A number is read back from how it is written.
pub proof fn lemma_numbers_are_read_back(n: int)
    ensures
        i32::MIN <= n <= i32::MAX ==> i32_of(dec_signed(n)) == Some(n),
        0 <= n <= i32::MAX ==> i32_of(dec(n)) == Some(n),
        0 <= n <= u64::MAX ==> u64_of(dec(n)) == Some(n),
        0 <= n <= usize::MAX ==> usize_of(dec(n)) == Some(n),
{
    let m = if n < 0 {
        -n
    } else {
        n
    };
    lemma_value_of_dec(m);
    lemma_numbers_are_words(n);
    if n < 0 {
        let s = dec_signed(n);
        assert(s.drop_first() =~= dec(m));
        assert(all_digits(dec(m), 10));
    }
}

// ---------------------------------------------------------------- texts in one piece

/// The parts written one behind the other.
#[verifier::opaque]
pub open spec fn run_on(parts: Seq<Seq<char>>) -> Seq<char>
    decreases parts.len(),
{
    if parts.len() == 0 {
        seq![]
    } else if parts.len() == 1 {
        parts[0]
    } else {
        run_on(parts.drop_last()) + parts.last()
    }
}

/// One part alone is the text.
pub proof fn lemma_run_on_one(p: Seq<char>)
    ensures
        run_on(seq![p]) == p,
        seq![p].len() == 1,
        seq![p][0] == p,
{
    reveal(run_on);
}

/// A further part stands behind the others.
pub proof fn lemma_run_on_more(parts: Seq<Seq<char>>, p: Seq<char>)
    requires
        parts.len() > 0,
    ensures
        run_on(parts.push(p)) == run_on(parts) + p,
        parts.push(p).len() == parts.len() + 1,
        parts.push(p)[parts.len() as int] == p,
{
    reveal(run_on);
    assert(parts.push(p).drop_last() =~= parts);
}

/// The text holds what its parts from the `i`th up to the `j`th make.
pub proof fn lemma_run_on_has(parts: Seq<Seq<char>>, i: int, j: int)
    requires
        0 <= i < j <= parts.len(),
    ensures
        has(run_on(parts), run_on(parts.subrange(i, j))),
    decreases parts.len(),
{
    reveal(run_on);
    let d = parts.drop_last();
    if j < parts.len() {
        assert(d.subrange(i, j) =~= parts.subrange(i, j));
        lemma_run_on_has(d, i, j);
        let x = run_on(parts.subrange(i, j));
        let k = choose|k: int| occurs_at(run_on(d), x, k);
        assert(run_on(parts).subrange(k, k + x.len()) =~= run_on(d).subrange(k, k + x.len()));
        assert(occurs_at(run_on(parts), x, k));
    } else {
        lemma_run_on_parts(parts, i);
        let x = run_on(parts.subrange(i, j));
        let f = run_on(parts.take(i));
        assert(parts.subrange(i, j) =~= parts.skip(i));
        let k = f.len() as int;
        assert(run_on(parts).subrange(k, k + x.len()) =~= x);
        assert(occurs_at(run_on(parts), x, k));
    }
}

proof fn lemma_run_on_parts(parts: Seq<Seq<char>>, i: int)
    requires
        0 <= i < parts.len(),
    ensures
        run_on(parts) == run_on(parts.take(i)) + run_on(parts.skip(i)),
    decreases parts.len(),
{
    reveal(run_on);
    if i == 0 {
        assert(parts.skip(0) =~= parts);
        assert(run_on(parts.take(0)) + run_on(parts) =~= run_on(parts));
    } else if i == parts.len() - 1 {
        assert(parts.take(i) =~= parts.drop_last());
        assert(parts.skip(i) =~= seq![parts.last()]);
    } else {
        let d = parts.drop_last();
        lemma_run_on_parts(d, i);
        assert(d.take(i) =~= parts.take(i));
        assert(parts.skip(i).drop_last() =~= d.skip(i));
        assert(parts.skip(i).last() == parts.last());
        assert(run_on(parts) =~= run_on(parts.take(i)) + run_on(parts.skip(i)));
    }
}

/// The text holds each of its parts.
pub proof fn lemma_has_part(parts: Seq<Seq<char>>, i: int)
    requires
        0 <= i < parts.len(),
    ensures
        has(run_on(parts), parts[i]),
{
    lemma_run_on_has(parts, i, i + 1);
    reveal(run_on);
    assert(parts.subrange(i, i + 1) =~= seq![parts[i]]);
}

/// The text holds each two of its parts that follow each other.
pub proof fn lemma_has_two(parts: Seq<Seq<char>>, i: int)
    requires
        0 <= i < parts.len() - 1,
    ensures
        has(run_on(parts), parts[i] + parts[i + 1]),
{
    lemma_run_on_has(parts, i, i + 2);
    let q = seq![parts[i]];
    lemma_run_on_one(parts[i]);
    lemma_run_on_more(q, parts[i + 1]);
    assert(parts.subrange(i, i + 2) =~= q.push(parts[i + 1]));
}

/// The text holds each three of its parts that follow each other.
pub proof fn lemma_has_three(parts: Seq<Seq<char>>, i: int)
    requires
        0 <= i < parts.len() - 2,
    ensures
        has(run_on(parts), parts[i] + parts[i + 1] + parts[i + 2]),
{
    lemma_run_on_has(parts, i, i + 3);
    let q = seq![parts[i]];
    let r = q.push(parts[i + 1]);
    lemma_run_on_one(parts[i]);
    lemma_run_on_more(q, parts[i + 1]);
    lemma_run_on_more(r, parts[i + 2]);
    assert(parts.subrange(i, i + 3) =~= r.push(parts[i + 2]));
}

/// The text holds each five of its parts that follow each other.
pub proof fn lemma_has_five(parts: Seq<Seq<char>>, i: int)
    requires
        0 <= i < parts.len() - 4,
    ensures
        has(
            run_on(parts),
            parts[i] + parts[i + 1] + parts[i + 2] + parts[i + 3] + parts[i + 4],
        ),
{
    lemma_run_on_has(parts, i, i + 5);
    let q = seq![parts[i]];
    let r = q.push(parts[i + 1]);
    let s = r.push(parts[i + 2]);
    let t = s.push(parts[i + 3]);
    lemma_run_on_one(parts[i]);
    lemma_run_on_more(q, parts[i + 1]);
    lemma_run_on_more(r, parts[i + 2]);
    lemma_run_on_more(s, parts[i + 3]);
    lemma_run_on_more(t, parts[i + 4]);
    assert(parts.subrange(i, i + 5) =~= t.push(parts[i + 4]));
}

/// The text ends with what its parts from the `i`th on make.
pub proof fn lemma_run_on_ends(parts: Seq<Seq<char>>, i: int)
    requires
        0 <= i < parts.len(),
    ensures
        finishes(run_on(parts), run_on(parts.skip(i))),
{
    lemma_run_on_parts(parts, i);
    let t = run_on(parts);
    let x = run_on(parts.skip(i));
    assert(t.subrange(t.len() - x.len(), t.len() as int) =~= x);
}

} // verus!
