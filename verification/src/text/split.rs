//! Taking texts apart and putting them together.

use vstd::prelude::*;

use crate::text::basic::chars_of;
use crate::text::basic::slice_text;
use crate::text::basic::texts;
use crate::text::search::char_from;
use crate::text::search::find;
use crate::text::search::find_char;
use crate::text::search::find_chars;
use crate::text::search::find_from;
use crate::text::search::is_space;
use crate::text::search::lemma_trim_front;
use crate::text::search::occurs_at;
use crate::text::search::skip_space;
use crate::text::search::space;
use crate::text::search::trim_front;

verus! {

/// The parts of `s` between the occurrences of `c`; one more than there are occurrences.
pub open spec fn split_on(s: Seq<char>, c: char) -> Seq<Seq<char>>
    decreases s.len(),
{
    match char_from(s, c, 0) {
        Some(k) => if 0 <= k < s.len() {
            seq![s.take(k)] + split_on(s.skip(k + 1), c)
        } else {
            seq![s]
        },
        None => seq![s],
    }
}

/// `s` without a carriage return at its end.
pub open spec fn without_cr(s: Seq<char>) -> Seq<char> {
    if s.len() > 0 && s.last() == '\r' {
        s.drop_last()
    } else {
        s
    }
}

/// The lines of `s`. Each but the last ends in a line feed, with a carriage return before it
/// or not; nothing follows a line feed at the very end.
pub open spec fn lines_of(s: Seq<char>) -> Seq<Seq<char>>
    decreases s.len(),
{
    if s.len() == 0 {
        seq![]
    } else {
        match char_from(s, '\n', 0) {
            Some(k) => if 0 <= k < s.len() {
                seq![without_cr(s.take(k))] + lines_of(s.skip(k + 1))
            } else {
                seq![s]
            },
            None => seq![s],
        }
    }
}

proof fn lemma_char_from_skip(s: Seq<char>, c: char, from: int, at: int)
    requires
        0 <= from <= at,
        from <= s.len(),
    ensures
        char_from(s.skip(from), c, at - from) == match char_from(s, c, at) {
            Some(k) => Some(k - from),
            None => None,
        },
    decreases s.len() - at,
{
    if at < s.len() {
        assert(s.skip(from)[at - from] == s[at]);
        if s[at] != c {
            lemma_char_from_skip(s, c, from, at + 1);
        }
    }
}

pub fn split_char(s: &str, c: char) -> (r: Vec<String>)
    ensures
        texts(r@) == split_on(s@, c),
        r@.len() > 0,
{
    let v = chars_of(s);
    let n: usize = v.len();
    let mut out: Vec<String> = Vec::new();
    let mut from: usize = 0;
    assert(v@.skip(0) =~= v@);
    assert(texts(out@) + split_on(v@.skip(0), c) =~= split_on(s@, c));
    loop
        invariant
            from <= n,
            n == v@.len(),
            texts(out@) + split_on(v@.skip(from as int), c) == split_on(s@, c),
        decreases n - from,
    {
        let ghost rest = v@.skip(from as int);
        proof {
            lemma_char_from_skip(v@, c, from as int, from as int);
        }
        match find_char(v.as_slice(), c, from) {
            Some(k) => {
                let ghost before = texts(out@);
                let part = slice_text(v.as_slice(), from, k);
                assert(part@ =~= rest.take(k - from));
                assert(rest.skip(k - from + 1) =~= v@.skip(k + 1));
                out.push(part);
                assert(texts(out@) + split_on(v@.skip(k + 1), c) =~= before + split_on(rest, c));
                from = k + 1;
            },
            None => {
                let ghost before = texts(out@);
                let part = slice_text(v.as_slice(), from, n);
                assert(part@ =~= rest);
                out.push(part);
                assert(texts(out@) =~= before + split_on(rest, c));
                return out;
            },
        }
    }
}

pub fn split_lines(s: &str) -> (r: Vec<String>)
    ensures
        texts(r@) == lines_of(s@),
{
    let v = chars_of(s);
    let n: usize = v.len();
    let mut out: Vec<String> = Vec::new();
    let mut from: usize = 0;
    assert(v@.skip(0) =~= v@);
    assert(texts(out@) + lines_of(v@.skip(0)) =~= lines_of(s@));
    while from < n
        invariant
            from <= n,
            n == v@.len(),
            texts(out@) + lines_of(v@.skip(from as int)) == lines_of(s@),
        decreases n - from,
    {
        let ghost rest = v@.skip(from as int);
        proof {
            lemma_char_from_skip(v@, '\n', from as int, from as int);
        }
        let ghost before = texts(out@);
        match find_char(v.as_slice(), '\n', from) {
            Some(k) => {
                let to: usize = if k > from && v[k - 1] == '\r' {
                    k - 1
                } else {
                    k
                };
                let part = slice_text(v.as_slice(), from, to);
                assert(part@ =~= without_cr(rest.take(k - from)));
                assert(rest.skip(k - from + 1) =~= v@.skip(k + 1));
                out.push(part);
                assert(texts(out@) + lines_of(v@.skip(k + 1)) =~= before + lines_of(rest));
                from = k + 1;
            },
            None => {
                let part = slice_text(v.as_slice(), from, n);
                assert(part@ =~= rest);
                out.push(part);
                from = n;
                assert(v@.skip(n as int) =~= Seq::<char>::empty());
                assert(texts(out@) + lines_of(v@.skip(n as int)) =~= before + lines_of(rest));
            },
        }
    }
    assert(v@.skip(n as int) =~= Seq::<char>::empty());
    assert(texts(out@) + lines_of(v@.skip(n as int)) =~= texts(out@));
    out
}

/// The number of characters before the first white space.
pub open spec fn word_len(s: Seq<char>) -> int
    decreases s.len(),
{
    if s.len() == 0 || space(s[0]) {
        0
    } else {
        1 + word_len(s.drop_first())
    }
}

pub proof fn lemma_word_len(s: Seq<char>)
    ensures
        0 <= word_len(s) <= s.len(),
        forall|i: int| 0 <= i < word_len(s) ==> !space(#[trigger] s[i]),
        word_len(s) < s.len() ==> space(s[word_len(s)]),
    decreases s.len(),
{
    if s.len() == 0 || space(s[0]) {
    } else {
        let t = s.drop_first();
        lemma_word_len(t);
        assert forall|i: int| 0 <= i < word_len(s) implies !space(#[trigger] s[i]) by {
            if i > 0 {
                assert(t[i - 1] == s[i]);
            }
        }
        if word_len(s) < s.len() {
            assert(t[word_len(t)] == s[word_len(s)]);
        }
    }
}

/// The words of `s`, separated by white space.
pub open spec fn words_of(s: Seq<char>) -> Seq<Seq<char>>
    decreases s.len(),
{
    let t = trim_front(s);
    let k = word_len(t);
    if t.len() == 0 || k <= 0 || k > t.len() || t.len() > s.len() {
        seq![]
    } else {
        seq![t.take(k)] + words_of(t.skip(k))
    }
}

pub fn word_end(v: &[char], from: usize) -> (r: usize)
    requires
        from <= v@.len(),
    ensures
        from <= r <= v@.len(),
        r - from == word_len(v@.skip(from as int)),
        forall|i: int| from <= i < r ==> !space(#[trigger] v@[i]),
        r < v@.len() ==> space(v@[r as int]),
{
    let mut i: usize = from;
    while i < v.len() && !is_space(v[i])
        invariant
            from <= i <= v@.len(),
            i - from + word_len(v@.skip(i as int)) == word_len(v@.skip(from as int)),
            forall|j: int| from <= j < i ==> !space(#[trigger] v@[j]),
        decreases v@.len() - i,
    {
        assert(v@.skip(i as int).drop_first() =~= v@.skip(i + 1));
        assert(v@.skip(i as int)[0] == v@[i as int]);
        i = i + 1;
    }
    assert(i < v@.len() ==> v@.skip(i as int)[0] == v@[i as int]);
    i
}

/// Trimming ends at the first character that is no white space.
pub proof fn lemma_trim_front_at(s: Seq<char>, k: int)
    requires
        0 <= k <= s.len(),
        forall|i: int| 0 <= i < k ==> space(#[trigger] s[i]),
        k < s.len() ==> !space(s[k]),
    ensures
        trim_front(s) == s.skip(k),
{
    lemma_trim_front(s);
    let m = s.len() - trim_front(s).len();
    if m < k {
        assert(space(s[m]));
        assert(trim_front(s)[0] == s[m]);
    } else if m > k {
        assert(space(s[k]));
    }
    assert(trim_front(s) == s.skip(m));
}

pub fn split_words(s: &str) -> (r: Vec<String>)
    ensures
        texts(r@) == words_of(s@),
{
    let v = chars_of(s);
    let n: usize = v.len();
    let mut out: Vec<String> = Vec::new();
    let mut from: usize = 0;
    assert(v@.skip(0) =~= v@);
    assert(texts(out@) + words_of(v@.skip(0)) =~= words_of(s@));
    loop
        invariant
            from <= n,
            n == v@.len(),
            texts(out@) + words_of(v@.skip(from as int)) == words_of(s@),
        decreases n - from,
    {
        let ghost rest = v@.skip(from as int);
        let a = skip_space(v.as_slice(), from);
        proof {
            assert forall|i: int| 0 <= i < a - from implies space(#[trigger] rest[i]) by {
                assert(rest[i] == v@[from + i]);
            }
            assert(a < n ==> rest[a - from] == v@[a as int]);
            lemma_trim_front_at(rest, a - from);
            assert(rest.skip(a - from) =~= v@.skip(a as int));
            lemma_word_len(v@.skip(a as int));
        }
        if a == n {
            assert(words_of(rest) =~= seq![]);
            assert(texts(out@) =~= texts(out@) + words_of(rest));
            return out;
        }
        let b = word_end(v.as_slice(), a);
        let ghost before = texts(out@);
        let part = slice_text(v.as_slice(), a, b);
        proof {
            assert(v@.skip(a as int)[0] == v@[a as int]);
            assert(part@ =~= v@.skip(a as int).take(b - a));
            assert(v@.skip(a as int).skip(b - a) =~= v@.skip(b as int));
        }
        out.push(part);
        assert(texts(out@) + words_of(v@.skip(b as int)) =~= before + words_of(rest));
        from = b;
    }
}

/// The texts one behind the other, with `sep` between them.
pub open spec fn joined(parts: Seq<Seq<char>>, sep: Seq<char>) -> Seq<char>
    decreases parts.len(),
{
    if parts.len() == 0 {
        seq![]
    } else if parts.len() == 1 {
        parts[0]
    } else {
        joined(parts.drop_last(), sep) + sep + parts.last()
    }
}

pub fn join(parts: &Vec<String>, sep: &str) -> (r: String)
    ensures
        r@ == joined(texts(parts@), sep@),
{
    let mut out = String::new();
    let mut i: usize = 0;
    assert(texts(parts@).take(0) =~= seq![]);
    while i < parts.len()
        invariant
            i <= parts@.len(),
            out@ == joined(texts(parts@).take(i as int), sep@),
        decreases parts@.len() - i,
    {
        let ghost t = texts(parts@).take(i + 1);
        assert(t.drop_last() =~= texts(parts@).take(i as int));
        assert(t.last() == parts@[i as int]@);
        if i > 0 {
            out.append(sep);
            out.append(parts[i].as_str());
        } else {
            assert(out@ =~= seq![]);
            out.append(parts[i].as_str());
            assert(out@ =~= parts@[0]@);
        }
        i = i + 1;
    }
    assert(texts(parts@).take(i as int) =~= texts(parts@));
    out
}

/// `s` with each `c` replaced by `by`.
pub open spec fn char_replaced(s: Seq<char>, c: char, by: Seq<char>) -> Seq<char>
    decreases s.len(),
{
    if s.len() == 0 {
        seq![]
    } else {
        char_replaced(s.drop_last(), c, by) + (if s.last() == c {
            by
        } else {
            seq![s.last()]
        })
    }
}

pub fn replace_char(s: &str, c: char, by: &str) -> (r: String)
    ensures
        r@ == char_replaced(s@, c, by@),
{
    let v = chars_of(s);
    let mut out = String::new();
    let mut i: usize = 0;
    assert(v@.take(0) =~= seq![]);
    while i < v.len()
        invariant
            i <= v@.len(),
            out@ == char_replaced(v@.take(i as int), c, by@),
        decreases v@.len() - i,
    {
        let ghost t = v@.take(i + 1);
        assert(t.drop_last() =~= v@.take(i as int));
        assert(t.last() == v@[i as int]);
        let ghost before = out@;
        if v[i] == c {
            out.append(by);
        } else {
            out.push(v[i]);
            assert(out@ =~= before + seq![v@[i as int]]);
        }
        i = i + 1;
    }
    assert(v@.take(i as int) =~= v@);
    out
}

/// `s` with each occurrence of `pat`, from the front on, replaced by `by`.
pub open spec fn all_replaced(s: Seq<char>, pat: Seq<char>, by: Seq<char>) -> Seq<char>
    decreases s.len(),
{
    match find(s, pat) {
        Some(k) => if pat.len() > 0 && 0 <= k && k + pat.len() <= s.len() {
            s.take(k) + by + all_replaced(s.skip(k + pat.len()), pat, by)
        } else {
            s
        },
        None => s,
    }
}

proof fn lemma_find_skip(s: Seq<char>, pat: Seq<char>, from: int, at: int)
    requires
        0 <= from <= at,
        from <= s.len(),
    ensures
        find_from(s.skip(from), pat, at - from) == match find_from(s, pat, at) {
            Some(k) => Some(k - from),
            None => None,
        },
    decreases s.len() - at,
{
    if at + pat.len() <= s.len() {
        assert(s.skip(from).subrange(at - from, at - from + pat.len()) =~= s.subrange(
            at,
            at + pat.len(),
        ));
        if !occurs_at(s, pat, at) {
            if at < s.len() {
                lemma_find_skip(s, pat, from, at + 1);
            }
        }
    }
}

pub fn replace_all(s: &str, pat: &str, by: &str) -> (r: String)
    requires
        pat@.len() > 0,
    ensures
        r@ == all_replaced(s@, pat@, by@),
{
    let v = chars_of(s);
    let p = chars_of(pat);
    let n: usize = v.len();
    let mut out = String::new();
    let mut from: usize = 0;
    assert(v@.skip(0) =~= v@);
    assert(out@ + all_replaced(v@.skip(0), p@, by@) =~= all_replaced(s@, pat@, by@));
    loop
        invariant
            from <= n,
            n == v@.len(),
            p@.len() > 0,
            p@ == pat@,
            out@ + all_replaced(v@.skip(from as int), p@, by@) == all_replaced(s@, pat@, by@),
        decreases n - from,
    {
        let ghost rest = v@.skip(from as int);
        let ghost before = out@;
        proof {
            lemma_find_skip(v@, p@, from as int, from as int);
        }
        match find_chars(v.as_slice(), p.as_slice(), from) {
            Some(k) => {
                let part = slice_text(v.as_slice(), from, k);
                let end: usize = k + p.len();
                assert(part@ =~= rest.take(k - from));
                assert(rest.skip(k - from + p@.len()) =~= v@.skip(end as int));
                out.append(part.as_str());
                out.append(by);
                assert(out@ + all_replaced(v@.skip(end as int), p@, by@) =~= before + all_replaced(
                    rest,
                    p@,
                    by@,
                ));
                from = end;
            },
            None => {
                let part = slice_text(v.as_slice(), from, n);
                assert(part@ =~= rest);
                out.append(part.as_str());
                return out;
            },
        }
    }
}

/// What stands behind the last `c`; the whole text where there is none.
pub open spec fn behind_last(s: Seq<char>, c: char) -> Seq<char>
    decreases s.len(),
{
    if s.len() == 0 || s.last() == c {
        seq![]
    } else {
        behind_last(s.drop_last(), c).push(s.last())
    }
}

/// `behind_last` is the longest end of the text without `c`.
pub proof fn lemma_behind_last(s: Seq<char>, c: char)
    ensures
        behind_last(s, c).len() <= s.len(),
        behind_last(s, c) == s.skip(s.len() - behind_last(s, c).len()),
        !behind_last(s, c).contains(c),
        behind_last(s, c).len() < s.len() ==> s[s.len() - behind_last(s, c).len() - 1] == c,
    decreases s.len(),
{
    let b = behind_last(s, c);
    if s.len() == 0 || s.last() == c {
        assert(s.skip(s.len() as int) =~= b);
    } else {
        let d = s.drop_last();
        lemma_behind_last(d, c);
        let e = behind_last(d, c);
        assert(b =~= s.skip(s.len() - b.len()));
        assert forall|i: int| 0 <= i < b.len() implies b[i] != c by {
            if i < e.len() {
                assert(e.contains(e[i]));
            }
        }
    }
}

pub fn after_last(s: &str, c: char) -> (r: String)
    ensures
        r@ == behind_last(s@, c),
{
    let v = chars_of(s);
    let n: usize = v.len();
    let mut i: usize = n;
    assert(v@.take(n as int) =~= v@);
    assert(v@.skip(n as int) =~= seq![]);
    while i > 0 && v[i - 1] != c
        invariant
            i <= n,
            n == v@.len(),
            behind_last(v@.take(i as int), c) + v@.skip(i as int) =~= behind_last(v@, c),
        decreases i,
    {
        assert(v@.take(i as int).drop_last() =~= v@.take(i - 1));
        assert(v@.take(i as int).last() == v@[i - 1]);
        i = i - 1;
    }
    assert(i > 0 ==> v@.take(i as int).last() == v@[i - 1]);
    let r = slice_text(v.as_slice(), i, n);
    assert(r@ =~= v@.skip(i as int));
    r
}

} // verus!
