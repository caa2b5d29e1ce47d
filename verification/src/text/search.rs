//! Looking for pieces of a text.

use vstd::prelude::*;

use crate::text::basic::chars_of;
use crate::text::basic::slice_text;

verus! {

/// `needle` stands in `hay` with its first character at `i`.
pub open spec fn occurs_at(hay: Seq<char>, needle: Seq<char>, i: int) -> bool {
    0 <= i && i + needle.len() <= hay.len() && hay.subrange(i, i + needle.len()) =~= needle
}

/// `needle` stands somewhere in `hay`.
pub open spec fn has(hay: Seq<char>, needle: Seq<char>) -> bool {
    exists|i: int| occurs_at(hay, needle, i)
}

/// The first place at or behind `from` where `needle` stands in `hay`.
pub open spec fn find_from(hay: Seq<char>, needle: Seq<char>, from: int) -> Option<int>
    decreases hay.len() - from,
{
    if from < 0 || from + needle.len() > hay.len() {
        None
    } else if occurs_at(hay, needle, from) {
        Some(from)
    } else {
        find_from(hay, needle, from + 1)
    }
}

pub open spec fn find(hay: Seq<char>, needle: Seq<char>) -> Option<int> {
    find_from(hay, needle, 0)
}

/// `find_from` gives the least place, and none only where there is none.
pub proof fn lemma_find_from(hay: Seq<char>, needle: Seq<char>, from: int)
    requires
        0 <= from,
    ensures
        match find_from(hay, needle, from) {
            Some(i) => from <= i && occurs_at(hay, needle, i) && forall|j: int|
                from <= j < i ==> !occurs_at(hay, needle, j),
            None => forall|j: int| from <= j ==> !occurs_at(hay, needle, j),
        },
    decreases hay.len() - from,
{
    if from + needle.len() <= hay.len() && !occurs_at(hay, needle, from) {
        lemma_find_from(hay, needle, from + 1);
    }
}

/// A text holds a piece exactly when the search finds it.
pub proof fn lemma_has_find(hay: Seq<char>, needle: Seq<char>)
    ensures
        has(hay, needle) <==> find(hay, needle) is Some,
{
    lemma_find_from(hay, needle, 0);
    if has(hay, needle) {
        let i = choose|i: int| occurs_at(hay, needle, i);
        assert(occurs_at(hay, needle, i));
    }
}

fn matches_at(hay: &[char], needle: &[char], at: usize) -> (r: bool)
    requires
        at + needle@.len() <= hay@.len(),
    ensures
        r == occurs_at(hay@, needle@, at as int),
{
    let end: usize = hay.len();
    let mut k: usize = 0;
    while k < needle.len()
        invariant
            k <= needle@.len(),
            end == hay@.len(),
            at + needle@.len() <= end,
            forall|j: int| 0 <= j < k ==> hay@[at + j] == needle@[j],
        decreases needle@.len() - k,
    {
        if hay[at + k] != needle[k] {
            assert(hay@.subrange(at as int, at + needle@.len())[k as int] != needle@[k as int]);
            return false;
        }
        k = k + 1;
    }
    assert(hay@.subrange(at as int, at + needle@.len()) =~= needle@);
    true
}

/// Where `needle` first stands in `hay`, not before `from`.
pub fn find_chars(hay: &[char], needle: &[char], from: usize) -> (r: Option<usize>)
    requires
        from <= hay@.len(),
    ensures
        match r {
            Some(i) => find_from(hay@, needle@, from as int) == Some(i as int) && i + needle@.len()
                <= hay@.len() && from <= i,
            None => find_from(hay@, needle@, from as int) is None,
        },
{
    let mut i: usize = from;
    if needle.len() > hay.len() {
        return None;
    }
    while i <= hay.len() - needle.len()
        invariant
            from <= i <= hay@.len() - needle@.len() + 1 || i == from,
            needle@.len() <= hay@.len(),
            from <= i <= hay@.len() + 1,
            from <= hay@.len(),
            find_from(hay@, needle@, from as int) == find_from(hay@, needle@, i as int),
        decreases hay@.len() + 1 - i,
    {
        if matches_at(hay, needle, i) {
            return Some(i);
        }
        i = i + 1;
    }
    None
}

/// `needle` stands in `hay`.
pub fn contains(hay: &str, needle: &str) -> (r: bool)
    ensures
        r == has(hay@, needle@),
{
    let h = chars_of(hay);
    let n = chars_of(needle);
    proof {
        lemma_has_find(hay@, needle@);
    }
    find_chars(h.as_slice(), n.as_slice(), 0).is_some()
}

/// `s` begins with `p`.
pub open spec fn begins(s: Seq<char>, p: Seq<char>) -> bool {
    occurs_at(s, p, 0)
}

/// `s` ends with `p`.
pub open spec fn finishes(s: Seq<char>, p: Seq<char>) -> bool {
    occurs_at(s, p, s.len() - p.len())
}

pub fn starts_with(s: &str, p: &str) -> (r: bool)
    ensures
        r == begins(s@, p@),
{
    let h = chars_of(s);
    let n = chars_of(p);
    chars_start_with(h.as_slice(), n.as_slice())
}

pub fn chars_start_with(s: &[char], p: &[char]) -> (r: bool)
    ensures
        r == begins(s@, p@),
{
    if p.len() > s.len() {
        return false;
    }
    matches_at(s, p, 0)
}

pub fn ends_with(s: &str, p: &str) -> (r: bool)
    ensures
        r == finishes(s@, p@),
{
    let h = chars_of(s);
    let n = chars_of(p);
    if n.len() > h.len() {
        return false;
    }
    matches_at(h.as_slice(), n.as_slice(), h.len() - n.len())
}

/// The character is white space in the sense of Unicode's `White_Space` property.
pub open spec fn space(c: char) -> bool {
    let n = c as int;
    ||| 0x9 <= n <= 0xd
    ||| n == 0x20
    ||| n == 0x85
    ||| n == 0xa0
    ||| n == 0x1680
    ||| 0x2000 <= n <= 0x200a
    ||| n == 0x2028
    ||| n == 0x2029
    ||| n == 0x202f
    ||| n == 0x205f
    ||| n == 0x3000
}

pub fn is_space(c: char) -> (r: bool)
    ensures
        r == space(c),
{
    let n: u32 = c as u32;
    (0x9 <= n && n <= 0xd) || n == 0x20 || n == 0x85 || n == 0xa0 || n == 0x1680 || (0x2000 <= n
        && n <= 0x200a) || n == 0x2028 || n == 0x2029 || n == 0x202f || n == 0x205f || n == 0x3000
}

/// `s` without the white space in front.
pub open spec fn trim_front(s: Seq<char>) -> Seq<char>
    decreases s.len(),
{
    if s.len() > 0 && space(s[0]) {
        trim_front(s.drop_first())
    } else {
        s
    }
}

/// `s` without the white space behind.
pub open spec fn trim_back(s: Seq<char>) -> Seq<char>
    decreases s.len(),
{
    if s.len() > 0 && space(s.last()) {
        trim_back(s.drop_last())
    } else {
        s
    }
}

/// `s` without the white space at either end.
pub open spec fn trimmed(s: Seq<char>) -> Seq<char> {
    trim_back(trim_front(s))
}

/// The first index at or behind `from` whose character is no white space.
pub fn skip_space(v: &[char], from: usize) -> (r: usize)
    requires
        from <= v@.len(),
    ensures
        from <= r <= v@.len(),
        forall|i: int| from <= i < r ==> space(#[trigger] v@[i]),
        r < v@.len() ==> !space(v@[r as int]),
        v@.skip(r as int) == trim_front(v@.skip(from as int)),
{
    let mut i: usize = from;
    while i < v.len() && is_space(v[i])
        invariant
            from <= i <= v@.len(),
            forall|j: int| from <= j < i ==> space(#[trigger] v@[j]),
            trim_front(v@.skip(i as int)) == trim_front(v@.skip(from as int)),
        decreases v@.len() - i,
    {
        assert(v@.skip(i as int).drop_first() =~= v@.skip(i + 1));
        i = i + 1;
    }
    i
}

/// The span of `v` between the white space at its ends.
pub fn trim_span(v: &[char]) -> (r: (usize, usize))
    ensures
        r.0 <= r.1 <= v@.len(),
        v@.subrange(r.0 as int, r.1 as int) == trimmed(v@),
{
    assert(v@.skip(0) =~= v@);
    let a = skip_space(v, 0);
    let mut b: usize = v.len();
    assert(v@.subrange(a as int, b as int) =~= v@.skip(a as int));
    while b > a && is_space(v[b - 1])
        invariant
            a <= b <= v@.len(),
            trim_back(v@.subrange(a as int, b as int)) == trimmed(v@),
        decreases b,
    {
        assert(v@.subrange(a as int, b as int).drop_last() =~= v@.subrange(a as int, b - 1));
        b = b - 1;
    }
    (a, b)
}

/// `s` without the white space at either end.
pub fn trim(s: &str) -> (r: String)
    ensures
        r@ == trimmed(s@),
{
    let v = chars_of(s);
    let (a, b) = trim_span(v.as_slice());
    slice_text(v.as_slice(), a, b)
}

/// The text has no character but white space.
pub open spec fn blank(s: Seq<char>) -> bool {
    forall|i: int| 0 <= i < s.len() ==> space(#[trigger] s[i])
}

/// What stands in front of `trim_front(s)` is white space, and it begins with none.
pub proof fn lemma_trim_front(s: Seq<char>)
    ensures
        trim_front(s).len() <= s.len(),
        trim_front(s) == s.skip(s.len() - trim_front(s).len()),
        forall|i: int| 0 <= i < s.len() - trim_front(s).len() ==> space(#[trigger] s[i]),
        trim_front(s).len() > 0 ==> !space(trim_front(s)[0]),
    decreases s.len(),
{
    if s.len() > 0 && space(s[0]) {
        lemma_trim_front(s.drop_first());
        let t = s.drop_first();
        assert forall|i: int| 0 <= i < s.len() - trim_front(s).len() implies space(
            #[trigger] s[i],
        ) by {
            if i > 0 {
                assert(space(t[i - 1]));
            }
        }
        assert(trim_front(s) =~= s.skip(s.len() - trim_front(s).len()));
    } else {
        assert(s =~= s.skip(0));
    }
}

/// What stands behind `trim_back(s)` is white space, and it ends with none.
pub proof fn lemma_trim_back(s: Seq<char>)
    ensures
        trim_back(s).len() <= s.len(),
        trim_back(s) == s.take(trim_back(s).len() as int),
        forall|i: int| trim_back(s).len() <= i < s.len() ==> space(#[trigger] s[i]),
        trim_back(s).len() > 0 ==> !space(trim_back(s).last()),
    decreases s.len(),
{
    if s.len() > 0 && space(s.last()) {
        lemma_trim_back(s.drop_last());
        let t = s.drop_last();
        assert forall|i: int| trim_back(s).len() <= i < s.len() implies space(#[trigger] s[i]) by {
            if i < s.len() - 1 {
                assert(space(t[i]));
            }
        }
        assert(trim_back(s) =~= s.take(trim_back(s).len() as int));
    } else {
        assert(s =~= s.take(s.len() as int));
    }
}

/// The text has no character but white space.
pub fn is_blank(s: &str) -> (r: bool)
    ensures
        r == blank(s@),
{
    let v = chars_of(s);
    let i = skip_space(v.as_slice(), 0);
    i == v.len()
}

/// Where the character `c` first stands in `s`, not before `from`.
pub open spec fn char_from(s: Seq<char>, c: char, from: int) -> Option<int>
    decreases s.len() - from,
{
    if from < 0 || from >= s.len() {
        None
    } else if s[from] == c {
        Some(from)
    } else {
        char_from(s, c, from + 1)
    }
}

/// The least place of `c`, and none only where there is none.
pub proof fn lemma_char_from(s: Seq<char>, c: char, from: int)
    requires
        0 <= from,
    ensures
        match char_from(s, c, from) {
            Some(i) => from <= i < s.len() && s[i] == c && forall|j: int|
                from <= j < i ==> s[j] != c,
            None => forall|j: int| from <= j < s.len() ==> s[j] != c,
        },
    decreases s.len() - from,
{
    if from < s.len() && s[from] != c {
        lemma_char_from(s, c, from + 1);
    }
}

pub fn find_char(v: &[char], c: char, from: usize) -> (r: Option<usize>)
    requires
        from <= v@.len(),
    ensures
        match r {
            Some(i) => char_from(v@, c, from as int) == Some(i as int) && from <= i < v@.len()
                && v@[i as int] == c && forall|j: int| from <= j < i ==> v@[j] != c,
            None => char_from(v@, c, from as int) is None && forall|j: int|
                from <= j < v@.len() ==> v@[j] != c,
        },
{
    let mut i: usize = from;
    while i < v.len()
        invariant
            from <= i <= v@.len(),
            char_from(v@, c, from as int) == char_from(v@, c, i as int),
            forall|j: int| from <= j < i ==> v@[j] != c,
        decreases v@.len() - i,
    {
        if v[i] == c {
            return Some(i);
        }
        i = i + 1;
    }
    None
}

/// The text holds the character.
pub fn has_char(s: &str, c: char) -> (r: bool)
    ensures
        r == s@.contains(c),
{
    let v = chars_of(s);
    match find_char(v.as_slice(), c, 0) {
        Some(i) => {
            assert(s@[i as int] == c);
            true
        },
        None => false,
    }
}

} // verus!
