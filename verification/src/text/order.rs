//! The order of texts, and sorted lists without repetition.

use vstd::prelude::*;

use crate::text::basic::chars_of;
use crate::text::basic::same;
use crate::text::basic::texts;

verus! {

/// `a` stands before `b`: character by character, a prefix before what it begins.
pub open spec fn before(a: Seq<char>, b: Seq<char>) -> bool
    decreases a.len(),
{
    if b.len() == 0 {
        false
    } else if a.len() == 0 {
        true
    } else if a[0] == b[0] {
        before(a.drop_first(), b.drop_first())
    } else {
        (a[0] as int) < (b[0] as int)
    }
}

fn code_of(c: char) -> (r: u32)
    ensures
        r as int == c as int,
{
    c as u32
}

/// `a` stands before `b`.
pub fn is_before(a: &str, b: &str) -> (r: bool)
    ensures
        r == before(a@, b@),
{
    let x = chars_of(a);
    let y = chars_of(b);
    let mut i: usize = 0;
    assert(x@.skip(0) =~= x@);
    assert(y@.skip(0) =~= y@);
    while i < x.len() && i < y.len() && x[i] == y[i]
        invariant
            i <= x@.len(),
            i <= y@.len(),
            before(x@.skip(i as int), y@.skip(i as int)) == before(a@, b@),
        decreases x@.len() - i,
    {
        assert(x@.skip(i as int).drop_first() =~= x@.skip(i + 1));
        assert(y@.skip(i as int).drop_first() =~= y@.skip(i + 1));
        i = i + 1;
    }
    proof {
        let p = x@.skip(i as int);
        let q = y@.skip(i as int);
        assert(p.len() > 0 ==> p[0] == x@[i as int]);
        assert(q.len() > 0 ==> q[0] == y@[i as int]);
    }
    if i >= y.len() {
        false
    } else if i >= x.len() {
        true
    } else {
        code_of(x[i]) < code_of(y[i])
    }
}

pub proof fn lemma_before_irreflexive(a: Seq<char>)
    ensures
        !before(a, a),
    decreases a.len(),
{
    if a.len() > 0 {
        lemma_before_irreflexive(a.drop_first());
    }
}

pub proof fn lemma_before_transitive(a: Seq<char>, b: Seq<char>, c: Seq<char>)
    requires
        before(a, b),
        before(b, c),
    ensures
        before(a, c),
    decreases a.len(),
{
    if a.len() > 0 && a[0] == b[0] && b[0] == c[0] {
        lemma_before_transitive(a.drop_first(), b.drop_first(), c.drop_first());
    }
}

pub proof fn lemma_before_total(a: Seq<char>, b: Seq<char>)
    ensures
        a == b || before(a, b) || before(b, a),
    decreases a.len(),
{
    if a.len() > 0 && b.len() > 0 && a[0] == b[0] {
        lemma_before_total(a.drop_first(), b.drop_first());
        if a.drop_first() == b.drop_first() {
            assert(a =~= seq![a[0]] + a.drop_first());
            assert(b =~= seq![b[0]] + b.drop_first());
        }
    } else if a.len() == 0 && b.len() == 0 {
        assert(a =~= b);
    }
}

/// Each text stands before all that follow it.
pub open spec fn rising(s: Seq<Seq<char>>) -> bool {
    forall|i: int, j: int| 0 <= i < j < s.len() ==> #[trigger] before(s[i], s[j])
}

/// `s` with `x` at its place in the order; unchanged where `x` is there already.
pub open spec fn with_text(s: Seq<Seq<char>>, x: Seq<char>) -> Seq<Seq<char>>
    decreases s.len(),
{
    if s.len() == 0 {
        seq![x]
    } else if s[0] == x {
        s
    } else if before(x, s[0]) {
        seq![x] + s
    } else {
        seq![s[0]] + with_text(s.drop_first(), x)
    }
}

/// The texts of a list, in order and each once.
pub open spec fn sorted_set(s: Seq<Seq<char>>) -> Seq<Seq<char>>
    decreases s.len(),
{
    if s.len() == 0 {
        seq![]
    } else {
        with_text(sorted_set(s.drop_last()), s.last())
    }
}

pub proof fn lemma_with_text(s: Seq<Seq<char>>, x: Seq<char>)
    requires
        rising(s),
    ensures
        rising(with_text(s, x)),
        forall|y: Seq<char>| #[trigger] with_text(s, x).contains(y) <==> s.contains(y) || y == x,
    decreases s.len(),
{
    let r = with_text(s, x);
    if s.len() == 0 {
        assert(r[0] == x);
    } else if s[0] == x {
    } else if before(x, s[0]) {
        assert forall|i: int, j: int| 0 <= i < j < r.len() implies #[trigger] before(r[i], r[j]) by {
            if i == 0 {
                if j > 1 {
                    assert(before(s[0], s[j - 1]));
                    lemma_before_transitive(x, s[0], s[j - 1]);
                }
            } else {
                assert(before(s[i - 1], s[j - 1]));
            }
        }
        assert forall|y: Seq<char>| #[trigger] r.contains(y) <==> s.contains(y) || y == x by {
            assert(r[0] == x);
            if s.contains(y) {
                let k = choose|k: int| 0 <= k < s.len() && s[k] == y;
                assert(r[k + 1] == y);
            }
            if r.contains(y) {
                let k = choose|k: int| 0 <= k < r.len() && r[k] == y;
                if k > 0 {
                    assert(s[k - 1] == y);
                }
            }
        }
    } else {
        let t = s.drop_first();
        assert forall|i: int, j: int| 0 <= i < j < t.len() implies #[trigger] before(t[i], t[j]) by {
            assert(before(s[i + 1], s[j + 1]));
        }
        lemma_with_text(t, x);
        lemma_before_total(s[0], x);
        let q = with_text(t, x);
        assert forall|i: int, j: int| 0 <= i < j < r.len() implies #[trigger] before(r[i], r[j]) by {
            if i == 0 {
                assert(r[j] == q[j - 1]);
                assert(q.contains(r[j]));
                if r[j] != x {
                    let k = choose|k: int| 0 <= k < t.len() && t[k] == r[j];
                    assert(before(s[0], s[k + 1]));
                }
            } else {
                assert(before(q[i - 1], q[j - 1]));
            }
        }
        assert forall|y: Seq<char>| #[trigger] r.contains(y) <==> s.contains(y) || y == x by {
            assert(r[0] == s[0]);
            if r.contains(y) {
                let k = choose|k: int| 0 <= k < r.len() && r[k] == y;
                if k > 0 {
                    assert(q[k - 1] == y);
                    assert(q.contains(y));
                    if y != x {
                        let m = choose|m: int| 0 <= m < t.len() && t[m] == y;
                        assert(s[m + 1] == y);
                    }
                }
            }
            if s.contains(y) {
                let k = choose|k: int| 0 <= k < s.len() && s[k] == y;
                if k > 0 {
                    assert(t[k - 1] == y);
                    assert(q.contains(y));
                    let m = choose|m: int| 0 <= m < q.len() && q[m] == y;
                    assert(r[m + 1] == y);
                }
            }
            if y == x {
                assert(q.contains(y));
                let m = choose|m: int| 0 <= m < q.len() && q[m] == y;
                assert(r[m + 1] == y);
            }
        }
    }
}

/// `sorted_set` is in order and holds exactly the texts of the list.
pub proof fn lemma_sorted_set(s: Seq<Seq<char>>)
    ensures
        rising(sorted_set(s)),
        forall|y: Seq<char>| #[trigger] sorted_set(s).contains(y) <==> s.contains(y),
    decreases s.len(),
{
    if s.len() > 0 {
        let d = s.drop_last();
        lemma_sorted_set(d);
        lemma_with_text(sorted_set(d), s.last());
        assert forall|y: Seq<char>| #[trigger] sorted_set(s).contains(y) <==> s.contains(y) by {
            if s.contains(y) {
                let k = choose|k: int| 0 <= k < s.len() && s[k] == y;
                if k < s.len() - 1 {
                    assert(d[k] == y);
                }
            }
            if d.contains(y) {
                let k = choose|k: int| 0 <= k < d.len() && d[k] == y;
                assert(s[k] == y);
            }
            assert(s[s.len() - 1] == s.last());
        }
    }
}

/// The same texts occur in both lists.
pub open spec fn same_members(a: Seq<Seq<char>>, b: Seq<Seq<char>>) -> bool {
    forall|y: Seq<char>|
        #![trigger a.contains(y)]
        #![trigger b.contains(y)]
        a.contains(y) <==> b.contains(y)
}

/// Two lists in order that hold the same texts are the same list.
pub proof fn lemma_rising_unique(a: Seq<Seq<char>>, b: Seq<Seq<char>>)
    requires
        rising(a),
        rising(b),
        same_members(a, b),
    ensures
        a == b,
    decreases a.len(),
{
    if a.len() == 0 {
        if b.len() > 0 {
            assert(b.contains(b[0]));
        }
        assert(a =~= b);
    } else {
        assert(a.contains(a[0]));
        let k = choose|k: int| 0 <= k < b.len() && b[k] == a[0];
        assert(b.contains(b[0]));
        let m = choose|m: int| 0 <= m < a.len() && a[m] == b[0];
        if a[0] != b[0] {
            assert(before(b[0], b[k]));
            assert(before(a[0], a[m]));
            lemma_before_transitive(a[0], b[0], a[0]);
            lemma_before_irreflexive(a[0]);
        }
        let x = a.drop_first();
        let y = b.drop_first();
        assert forall|i: int, j: int| 0 <= i < j < x.len() implies #[trigger] before(x[i], x[j]) by {
            assert(before(a[i + 1], a[j + 1]));
        }
        assert forall|i: int, j: int| 0 <= i < j < y.len() implies #[trigger] before(y[i], y[j]) by {
            assert(before(b[i + 1], b[j + 1]));
        }
        lemma_before_irreflexive(a[0]);
        assert forall|t: Seq<char>|
            #![trigger x.contains(t)]
            #![trigger y.contains(t)]
            x.contains(t) <==> y.contains(t) by {
            if x.contains(t) {
                let i = choose|i: int| 0 <= i < x.len() && x[i] == t;
                assert(a[i + 1] == t);
                assert(before(a[0], a[i + 1]));
                assert(b.contains(t));
                let j = choose|j: int| 0 <= j < b.len() && b[j] == t;
                assert(y[j - 1] == t);
            }
            if y.contains(t) {
                let i = choose|i: int| 0 <= i < y.len() && y[i] == t;
                assert(b[i + 1] == t);
                assert(before(b[0], b[i + 1]));
                assert(a.contains(t));
                let j = choose|j: int| 0 <= j < a.len() && a[j] == t;
                assert(x[j - 1] == t);
            }
        }
        lemma_rising_unique(x, y);
        assert(a =~= seq![a[0]] + x);
        assert(b =~= seq![b[0]] + y);
    }
}

/// Lists of the same texts, in whatever order and however often, have the same sorted set.
pub proof fn lemma_sorted_set_same(a: Seq<Seq<char>>, b: Seq<Seq<char>>)
    requires
        same_members(a, b),
    ensures
        sorted_set(a) == sorted_set(b),
{
    lemma_sorted_set(a);
    lemma_sorted_set(b);
    lemma_rising_unique(sorted_set(a), sorted_set(b));
}

proof fn lemma_with_text_at(s: Seq<Seq<char>>, x: Seq<char>, k: int)
    requires
        0 <= k <= s.len(),
        forall|i: int| 0 <= i < k ==> #[trigger] s[i] != x && !before(x, s[i]),
        k < s.len() ==> s[k] == x || before(x, s[k]),
    ensures
        with_text(s, x) == if k < s.len() && s[k] == x {
            s
        } else {
            s.insert(k, x)
        },
    decreases s.len(),
{
    if s.len() == 0 {
        assert(s.insert(k, x) =~= seq![x]);
    } else if k == 0 {
        assert(s.insert(0, x) =~= seq![x] + s);
    } else {
        let t = s.drop_first();
        assert forall|i: int| 0 <= i < k - 1 implies #[trigger] t[i] != x && !before(x, t[i]) by {
            assert(s[i + 1] == t[i]);
        }
        lemma_with_text_at(t, x, k - 1);
        assert(s[0] != x && !before(x, s[0]));
        if k < s.len() && s[k] == x {
            assert(seq![s[0]] + t =~= s);
        } else {
            assert(seq![s[0]] + t.insert(k - 1, x) =~= s.insert(k, x));
        }
    }
}

/// Puts `x` at its place in the order, unless it is there already.
pub fn put_text(v: &mut Vec<String>, x: String)
    ensures
        texts(final(v)@) == with_text(texts(old(v)@), x@),
{
    let ghost s = texts(v@);
    let n: usize = v.len();
    let mut k: usize = 0;
    while k < n && !same(v[k].as_str(), x.as_str()) && !is_before(x.as_str(), v[k].as_str())
        invariant
            k <= n,
            n == v@.len(),
            s == texts(v@),
            forall|i: int| 0 <= i < k ==> #[trigger] s[i] != x@ && !before(x@, s[i]),
        decreases n - k,
    {
        k = k + 1;
    }
    proof {
        lemma_with_text_at(s, x@, k as int);
    }
    if k < n && same(v[k].as_str(), x.as_str()) {
        return;
    }
    let ghost xv = x@;
    v.insert(k, x);
    assert(texts(v@) =~= s.insert(k as int, xv));
}

/// The texts of the list, in order and each once.
pub fn sort_texts(v: &Vec<String>) -> (r: Vec<String>)
    ensures
        texts(r@) == sorted_set(texts(v@)),
{
    let mut out: Vec<String> = Vec::new();
    let mut i: usize = 0;
    assert(texts(out@) =~= sorted_set(texts(v@).take(0)));
    while i < v.len()
        invariant
            i <= v@.len(),
            texts(out@) == sorted_set(texts(v@).take(i as int)),
        decreases v@.len() - i,
    {
        put_text(&mut out, v[i].clone());
        assert(texts(v@).take(i + 1).drop_last() =~= texts(v@).take(i as int));
        i = i + 1;
    }
    assert(texts(v@).take(i as int) =~= texts(v@));
    out
}

} // verus!
