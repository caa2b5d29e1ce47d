//! Reading the XML that `uiautomator dump` writes.
//!
//! Only what such a dump holds is read: `<hierarchy ..>`, `<node ..>`, `<node .. />` and
//! `</node>`.

use vstd::prelude::*;

use crate::model::node::nodes_view;
use crate::model::node::Hierarchy;
use crate::model::node::HierarchyView;
use crate::model::node::NodeView;
use crate::model::node::UiNode;
use crate::model::rect::rect_of;
use crate::model::rect::Rect;
use crate::outside::char_code;
use crate::text::basic::chars_of;
use crate::text::basic::same;
use crate::text::basic::slice_text;
use crate::text::number::i32_of;
use crate::text::number::parse_i32;
use crate::text::number::parse_u32;
use crate::text::number::u32_of;
use crate::text::search::char_from;
use crate::text::search::find_char;
use crate::text::search::is_space;
use crate::text::search::skip_space;
use crate::text::search::space;
use crate::text::search::trim_front;
use crate::text::search::trim_span;
use crate::text::search::trimmed;
use crate::text::split::lemma_trim_front_at;
use crate::text::split::word_end;
use crate::text::split::word_len;
use crate::text::utf8::char_bytes;
use crate::text::utf8::utf8_len;

verus! {

/// Why a dump gives no screen.
#[derive(Debug, Clone, Copy, PartialEq, Eq, Structural)]
pub enum DumpError {
    /// There is no `node` in it.
    Empty,
}

impl DumpError {
    pub fn text(&self) -> (r: &'static str)
        ensures
            r@ == "控件树为空（dump 内容中没有 node 节点）"@,
    {
        "控件树为空（dump 内容中没有 node 节点）"
    }
}

// ---------------------------------------------------------------- entities

/// The end of the entity whose characters start at `k`: the index of the semicolon, or none
/// where the text ends before one or more than eight bytes stand before it.
pub open spec fn entity_end(t: Seq<char>, k: int, bytes: int) -> Option<int>
    decreases t.len() - k,
{
    if k < 0 || k >= t.len() {
        None
    } else if t[k] == ';' {
        Some(k)
    } else if bytes + utf8_len(t[k]) > 8 {
        None
    } else {
        entity_end(t, k + 1, bytes + utf8_len(t[k]))
    }
}

/// How many characters are read in search of a semicolon that does not come in time.
pub open spec fn entity_stop(t: Seq<char>, k: int, bytes: int) -> int
    decreases t.len() - k,
{
    if k < 0 || k >= t.len() {
        t.len() as int
    } else if bytes + utf8_len(t[k]) > 8 {
        k + 1
    } else {
        entity_stop(t, k + 1, bytes + utf8_len(t[k]))
    }
}

/// The character with the number.
pub open spec fn coded(n: Option<int>) -> Option<char> {
    match n {
        Some(v) => if char_code(v as u32) {
            Some(v as char)
        } else {
            None
        },
        None => None,
    }
}

/// The character that an entity stands for.
pub open spec fn entity_char(e: Seq<char>) -> Option<char> {
    if e == "amp"@ {
        Some('&')
    } else if e == "lt"@ {
        Some('<')
    } else if e == "gt"@ {
        Some('>')
    } else if e == "quot"@ {
        Some('"')
    } else if e == "apos"@ {
        Some('\'')
    } else if e.len() >= 2 && e[0] == '#' && (e[1] == 'x' || e[1] == 'X') {
        coded(u32_of(e.skip(2), 16))
    } else if e.len() >= 1 && e[0] == '#' {
        coded(u32_of(e.skip(1), 10))
    } else {
        None
    }
}

/// The text with its entities replaced. What is no entity stays as it is.
pub open spec fn unescaped(s: Seq<char>) -> Seq<char>
    decreases s.len(),
{
    if s.len() == 0 {
        seq![]
    } else if s[0] != '&' {
        seq![s[0]] + unescaped(s.skip(1))
    } else {
        let t = s.skip(1);
        match entity_end(t, 0, 0) {
            Some(k) => if 0 <= k < t.len() {
                (match entity_char(t.take(k)) {
                    Some(c) => seq![c],
                    None => seq!['&'] + t.take(k) + seq![';'],
                }) + unescaped(t.skip(k + 1))
            } else {
                s
            },
            None => {
                let k = entity_stop(t, 0, 0);
                if 0 <= k <= t.len() {
                    seq!['&'] + t.take(k) + unescaped(t.skip(k))
                } else {
                    s
                }
            },
        }
    }
}

fn char_at(v: &[char], from: usize, radix: u64) -> (r: Option<char>)
    requires
        from <= v@.len(),
        2 <= radix <= 16,
    ensures
        r == coded(u32_of(v@.skip(from as int), radix as int)),
{
    let mut digits: Vec<char> = Vec::new();
    let mut i: usize = from;
    while i < v.len()
        invariant
            from <= i <= v@.len(),
            digits@ == v@.subrange(from as int, i as int),
        decreases v@.len() - i,
    {
        digits.push(v[i]);
        i = i + 1;
        assert(v@.subrange(from as int, i as int) =~= v@.subrange(from as int, i - 1).push(
            v@[i - 1],
        ));
    }
    assert(digits@ =~= v@.skip(from as int));
    match parse_u32(digits.as_slice(), radix) {
        Some(n) => {
            let r = char::from_u32(n);
            proof {
                if let Some(c) = r {
                    assert(c == (n as int) as char);
                }
            }
            r
        },
        None => None,
    }
}

fn entity(e: &[char]) -> (r: Option<char>)
    ensures
        r == entity_char(e@),
{
    let text = slice_text(e, 0, e.len());
    assert(text@ =~= e@);
    let t = text.as_str();
    if same(t, "amp") {
        Some('&')
    } else if same(t, "lt") {
        Some('<')
    } else if same(t, "gt") {
        Some('>')
    } else if same(t, "quot") {
        Some('"')
    } else if same(t, "apos") {
        Some('\'')
    } else if e.len() >= 2 && e[0] == '#' && (e[1] == 'x' || e[1] == 'X') {
        char_at(e, 2, 16)
    } else if e.len() >= 1 && e[0] == '#' {
        char_at(e, 1, 10)
    } else {
        None
    }
}

/// The end of what is read behind an ampersand at `from - 1`, and whether a semicolon ends it.
fn read_entity(v: &[char], from: usize) -> (r: (usize, bool))
    requires
        from <= v@.len(),
    ensures
        ({
            let t = v@.skip(from as int);
            &&& from <= r.0 <= v@.len()
            &&& r.1 ==> r.0 < v@.len() && entity_end(t, 0, 0) == Some(r.0 - from)
            &&& !r.1 ==> entity_end(t, 0, 0) is None && entity_stop(t, 0, 0) == r.0 - from
        }),
{
    let ghost t = v@.skip(from as int);
    let mut i: usize = from;
    let mut bytes: usize = 0;
    while i < v.len()
        invariant
            from <= i <= v@.len(),
            t == v@.skip(from as int),
            bytes <= 8,
            entity_end(t, i - from, bytes as int) == entity_end(t, 0, 0),
            entity_end(t, 0, 0) is None ==> entity_stop(t, i - from, bytes as int) == entity_stop(
                t,
                0,
                0,
            ),
        decreases v@.len() - i,
    {
        assert(t[i - from] == v@[i as int]);
        if v[i] == ';' {
            return (i, true);
        }
        bytes = bytes + char_bytes(v[i]);
        i = i + 1;
        if bytes > 8 {
            return (i, false);
        }
    }
    (i, false)
}

fn push_range(out: &mut Vec<char>, v: &[char], from: usize, to: usize)
    requires
        from <= to <= v@.len(),
    ensures
        final(out)@ == old(out)@ + v@.subrange(from as int, to as int),
{
    let ghost before = out@;
    let mut i: usize = from;
    assert(before + v@.subrange(from as int, from as int) =~= before);
    while i < to
        invariant
            from <= i <= to <= v@.len(),
            out@ == before + v@.subrange(from as int, i as int),
        decreases to - i,
    {
        out.push(v[i]);
        i = i + 1;
        assert(before + v@.subrange(from as int, i as int) =~= (before + v@.subrange(
            from as int,
            i - 1,
        )).push(v@[i - 1]));
    }
}

/// The characters with their entities replaced.
pub fn unescape(v: &[char]) -> (r: String)
    ensures
        r@ == unescaped(v@),
{
    let mut out: Vec<char> = Vec::new();
    let mut i: usize = 0;
    assert(v@.skip(0) =~= v@);
    assert(out@ + unescaped(v@.skip(0)) =~= unescaped(v@));
    while i < v.len()
        invariant
            i <= v@.len(),
            out@ + unescaped(v@.skip(i as int)) == unescaped(v@),
        decreases v@.len() - i,
    {
        let ghost before = out@;
        let ghost s = v@.skip(i as int);
        let ghost t = s.skip(1);
        assert(s[0] == v@[i as int]);
        assert(t =~= v@.skip(i + 1));
        if v[i] != '&' {
            out.push(v[i]);
            assert(out@ + unescaped(t) =~= before + unescaped(s));
            i = i + 1;
        } else {
            let (end, ok) = read_entity(v, i + 1);
            let ghost k = end - (i + 1);
            if !ok {
                out.push('&');
                push_range(&mut out, v, i + 1, end);
                assert(v@.subrange(i + 1, end as int) =~= t.take(k));
                assert(t.skip(k) =~= v@.skip(end as int));
                assert(out@ + unescaped(v@.skip(end as int)) =~= before + unescaped(s));
                i = end;
            } else {
                let mut ent: Vec<char> = Vec::new();
                push_range(&mut ent, v, i + 1, end);
                assert(ent@ =~= t.take(k));
                assert(t.skip(k + 1) =~= v@.skip(end + 1));
                match entity(ent.as_slice()) {
                    Some(c) => {
                        out.push(c);
                    },
                    None => {
                        out.push('&');
                        push_range(&mut out, v, i + 1, end);
                        out.push(';');
                        assert(v@.subrange(i + 1, end as int) =~= t.take(k));
                    },
                }
                assert(out@ + unescaped(v@.skip(end + 1)) =~= before + unescaped(s));
                i = end + 1;
            }
        }
    }
    assert(v@.skip(i as int) =~= seq![]);
    let r = slice_text(out.as_slice(), 0, out.len());
    assert(r@ =~= out@);
    assert(out@ + unescaped(v@.skip(i as int)) =~= out@);
    r
}

// ---------------------------------------------------------------- attributes

/// An attribute of a tag.
pub struct Attr {
    pub key: String,
    pub value: String,
}

/// The attributes as pairs of texts.
pub open spec fn attr_pairs(v: Seq<Attr>) -> Seq<(Seq<char>, Seq<char>)> {
    Seq::new(v.len(), |i: int| (v[i].key@, v[i].value@))
}

/// The number of characters before the first white space or equals sign.
pub open spec fn key_len(s: Seq<char>) -> int
    decreases s.len(),
{
    if s.len() == 0 || space(s[0]) || s[0] == '=' {
        0
    } else {
        1 + key_len(s.skip(1))
    }
}

/// The value at the front of a text, and what stands behind it: a value in quotes reaches to the
/// same quote, another one to the next white space.
pub open spec fn value_split(v: Seq<char>) -> (Seq<char>, Seq<char>) {
    if v[0] == '"' || v[0] == '\'' {
        match char_from(v, v[0], 1) {
            Some(e) => (v.subrange(1, e), v.skip(e + 1)),
            None => (v.skip(1), seq![]),
        }
    } else {
        (v.take(word_len(v)), v.skip(word_len(v)))
    }
}

/// The attributes in a text such as `k="v" k2='v2'`. A key without an equals sign has an empty
/// value; one without anything behind the sign is dropped.
pub open spec fn attrs_of(s: Seq<char>) -> Seq<(Seq<char>, Seq<char>)>
    decreases s.len(),
{
    let t = trim_front(s);
    let key = t.take(key_len(t));
    let u = trim_front(t.skip(key_len(t)));
    let v = trim_front(u.skip(1));
    if t.len() == 0 {
        seq![]
    } else if u.len() == 0 || u[0] != '=' {
        if u.len() < s.len() {
            seq![(key, seq![])] + attrs_of(u)
        } else {
            seq![]
        }
    } else if v.len() == 0 || value_split(v).1.len() >= s.len() {
        seq![]
    } else {
        seq![(key, unescaped(value_split(v).0))] + attrs_of(value_split(v).1)
    }
}

/// The value of an attribute; the last one counts where a key occurs twice.
pub open spec fn attr(a: Seq<(Seq<char>, Seq<char>)>, key: Seq<char>) -> Option<Seq<char>>
    decreases a.len(),
{
    if a.len() == 0 {
        None
    } else if a.last().0 == key {
        Some(a.last().1)
    } else {
        attr(a.drop_last(), key)
    }
}

fn get<'a>(attrs: &'a Vec<Attr>, key: &str) -> (r: Option<&'a String>)
    ensures
        match attr(attr_pairs(attrs@), key@) {
            Some(v) => r is Some && r->0@ == v,
            None => r is None,
        },
{
    let mut i: usize = attrs.len();
    let ghost a = attr_pairs(attrs@);
    assert(a.take(i as int) =~= a);
    while i > 0
        invariant
            i <= attrs@.len(),
            a == attr_pairs(attrs@),
            attr(a.take(i as int), key@) == attr(a, key@),
        decreases i,
    {
        assert(a.take(i as int).drop_last() =~= a.take(i - 1));
        assert(a.take(i as int).last() == a[i - 1]);
        if same(attrs[i - 1].key.as_str(), key) {
            return Some(&attrs[i - 1].value);
        }
        i = i - 1;
    }
    None
}

fn key_end(v: &[char], from: usize) -> (r: usize)
    requires
        from <= v@.len(),
    ensures
        from <= r <= v@.len(),
        r - from == key_len(v@.skip(from as int)),
        r < v@.len() ==> space(v@[r as int]) || v@[r as int] == '=',
{
    let mut i: usize = from;
    while i < v.len() && !is_space(v[i]) && v[i] != '='
        invariant
            from <= i <= v@.len(),
            i - from + key_len(v@.skip(i as int)) == key_len(v@.skip(from as int)),
        decreases v@.len() - i,
    {
        assert(v@.skip(i as int)[0] == v@[i as int]);
        assert(v@.skip(i as int).skip(1) =~= v@.skip(i + 1));
        i = i + 1;
    }
    assert(i < v@.len() ==> v@.skip(i as int)[0] == v@[i as int]);
    i
}

/// `skip_space` does what `trim_front` says.
fn skip_blank(v: &[char], from: usize) -> (r: usize)
    requires
        from <= v@.len(),
    ensures
        from <= r <= v@.len(),
        trim_front(v@.skip(from as int)) == v@.skip(r as int),
        r < v@.len() ==> !space(v@[r as int]),
{
    let r = skip_space(v, from);
    proof {
        let s = v@.skip(from as int);
        assert forall|i: int| 0 <= i < r - from implies space(#[trigger] s[i]) by {
            assert(s[i] == v@[from + i]);
        }
        assert(r < v@.len() ==> s[r - from] == v@[r as int]);
        lemma_trim_front_at(s, r - from);
        assert(s.skip(r - from) =~= v@.skip(r as int));
    }
    r
}

proof fn lemma_char_from_shift(v: Seq<char>, c: char, base: int, at: int)
    requires
        0 <= base <= at,
        base <= v.len(),
    ensures
        char_from(v.skip(base), c, at - base) == match char_from(v, c, at) {
            Some(k) => Some(k - base),
            None => None,
        },
    decreases v.len() - at,
{
    if at < v.len() {
        assert(v.skip(base)[at - base] == v[at]);
        if v[at] != c {
            lemma_char_from_shift(v, c, base, at + 1);
        }
    }
}

fn value_text(v: &[char], from: usize, to: usize) -> (r: String)
    requires
        from <= to <= v@.len(),
    ensures
        r@ == unescaped(v@.subrange(from as int, to as int)),
{
    let mut part: Vec<char> = Vec::new();
    push_range(&mut part, v, from, to);
    assert(part@ =~= v@.subrange(from as int, to as int));
    unescape(part.as_slice())
}

fn push_attr(out: &mut Vec<Attr>, key: String, value: String)
    ensures
        attr_pairs(final(out)@) == attr_pairs(old(out)@) + seq![(key@, value@)],
{
    let ghost k = (key@, value@);
    out.push(Attr { key, value });
    assert(attr_pairs(out@) =~= attr_pairs(old(out)@) + seq![k]);
}

/// The value at `vs`, and the index behind it.
fn read_value(v: &[char], vs: usize) -> (r: (String, usize))
    requires
        vs < v@.len(),
        !space(v@[vs as int]),
    ensures
        vs < r.1 <= v@.len(),
        ({
            let w = value_split(v@.skip(vs as int));
            r.0@ == unescaped(w.0) && v@.skip(r.1 as int) == w.1
        }),
{
    let n: usize = v.len();
    let ghost w = v@.skip(vs as int);
    let quote = v[vs];
    assert(w[0] == quote);
    if quote == '"' || quote == '\'' {
        proof {
            lemma_char_from_shift(v@, quote, vs as int, vs + 1);
        }
        match find_char(v, quote, vs + 1) {
            Some(e) => {
                let value = value_text(v, vs + 1, e);
                proof {
                    assert(v@.subrange(vs + 1, e as int) =~= w.subrange(1, e - vs));
                    assert(w.skip(e - vs + 1) =~= v@.skip(e + 1));
                }
                (value, e + 1)
            },
            None => {
                let value = value_text(v, vs + 1, n);
                proof {
                    assert(v@.subrange(vs + 1, n as int) =~= w.skip(1));
                    assert(v@.skip(n as int) =~= seq![]);
                }
                (value, n)
            },
        }
    } else {
        let e = word_end(v, vs);
        let value = value_text(v, vs, e);
        proof {
            assert(v@.subrange(vs as int, e as int) =~= w.take(e - vs));
            assert(w.skip(e - vs) =~= v@.skip(e as int));
        }
        (value, e)
    }
}

/// Reads one attribute at `i`; gives the index behind it, or none where there are no more.
fn read_attr(v: &[char], i: usize, out: &mut Vec<Attr>) -> (r: Option<usize>)
    requires
        i <= v@.len(),
    ensures
        match r {
            Some(next) => i < next <= v@.len() && attr_pairs(final(out)@) + attrs_of(
                v@.skip(next as int),
            ) == attr_pairs(old(out)@) + attrs_of(v@.skip(i as int)),
            None => attr_pairs(final(out)@) == attr_pairs(old(out)@) + attrs_of(v@.skip(i as int)),
        },
{
    let n: usize = v.len();
    let ghost s = v@.skip(i as int);
    let ghost before = attr_pairs(out@);
    let ks = skip_blank(v, i);
    let ghost t = v@.skip(ks as int);
    if ks == n {
        assert(attrs_of(s) =~= seq![]);
        assert(before + attrs_of(s) =~= before);
        return None;
    }
    let ke = key_end(v, ks);
    let key = slice_text(v, ks, ke);
    let eq = skip_blank(v, ke);
    let ghost u = v@.skip(eq as int);
    proof {
        assert(t[0] == v@[ks as int]);
        assert(t.skip(ke - ks) =~= v@.skip(ke as int));
        assert(key@ =~= t.take(ke - ks));
        assert(eq < n ==> u[0] == v@[eq as int]);
    }
    if eq == n || v[eq] != '=' {
        assert(i < eq) by {
            if ks == ke && eq == ke {
                assert(v@[ks as int] == '=');
            }
        }
        let value = String::new();
        assert(value@ =~= seq![]);
        push_attr(out, key, value);
        assert(attrs_of(s) =~= seq![(t.take(ke - ks), Seq::<char>::empty())] + attrs_of(u));
        assert(attr_pairs(out@) + attrs_of(u) =~= before + attrs_of(s));
        return Some(eq);
    }
    let vs = skip_blank(v, eq + 1);
    let ghost w = v@.skip(vs as int);
    assert(u.skip(1) =~= v@.skip(eq + 1));
    if vs == n {
        assert(attrs_of(s) =~= seq![]);
        assert(before + attrs_of(s) =~= before);
        return None;
    }
    let (value, next) = read_value(v, vs);
    let ghost val = value@;
    push_attr(out, key, value);
    assert(attrs_of(s) =~= seq![(t.take(ke - ks), val)] + attrs_of(v@.skip(next as int)));
    assert(attr_pairs(out@) + attrs_of(v@.skip(next as int)) =~= before + attrs_of(s));
    Some(next)
}

/// The attributes from `from` on.
pub fn parse_attrs(v: &[char], from: usize) -> (r: Vec<Attr>)
    requires
        from <= v@.len(),
    ensures
        attr_pairs(r@) == attrs_of(v@.skip(from as int)),
{
    let mut out: Vec<Attr> = Vec::new();
    let mut i: usize = from;
    let ghost goal = attrs_of(v@.skip(from as int));
    assert(attr_pairs(out@) + goal =~= goal);
    loop
        invariant
            i <= v@.len(),
            attr_pairs(out@) + attrs_of(v@.skip(i as int)) == goal,
            goal == attrs_of(v@.skip(from as int)),
        decreases v@.len() - i,
    {
        match read_attr(v, i, &mut out) {
            Some(next) => {
                i = next;
            },
            None => {
                return out;
            },
        }
    }
}

// ---------------------------------------------------------------- widgets

pub open spec fn attr_text(a: Seq<(Seq<char>, Seq<char>)>, key: Seq<char>) -> Seq<char> {
    match attr(a, key) {
        Some(v) => v,
        None => seq![],
    }
}

pub open spec fn attr_flag(a: Seq<(Seq<char>, Seq<char>)>, key: Seq<char>) -> bool {
    attr(a, key) == Some("true"@)
}

/// A number, or zero where the text is none.
pub open spec fn number_or_zero(s: Seq<char>) -> i32 {
    match i32_of(s) {
        Some(n) => n as i32,
        None => 0,
    }
}

/// The widget that the attributes of a tag describe. It is enabled where they do not say: some
/// devices leave that out.
pub open spec fn node_of(a: Seq<(Seq<char>, Seq<char>)>) -> NodeView {
    NodeView {
        index: number_or_zero(attr_text(a, "index"@)),
        text: attr_text(a, "text"@),
        resource_id: attr_text(a, "resource-id"@),
        class: attr_text(a, "class"@),
        package: attr_text(a, "package"@),
        content_desc: attr_text(a, "content-desc"@),
        bounds: match rect_of(attr_text(a, "bounds"@)) {
            Some(r) => r,
            None => Rect { x1: 0, y1: 0, x2: 0, y2: 0 },
        },
        clickable: attr_flag(a, "clickable"@),
        long_clickable: attr_flag(a, "long-clickable"@),
        scrollable: attr_flag(a, "scrollable"@),
        checkable: attr_flag(a, "checkable"@),
        checked: attr_flag(a, "checked"@),
        enabled: attr(a, "enabled"@) is None || attr_flag(a, "enabled"@),
        focused: attr_flag(a, "focused"@),
        selected: attr_flag(a, "selected"@),
        password: attr_flag(a, "password"@),
        children: seq![],
    }
}

fn text_attr(attrs: &Vec<Attr>, key: &str) -> (r: String)
    ensures
        r@ == attr_text(attr_pairs(attrs@), key@),
{
    match get(attrs, key) {
        Some(v) => v.clone(),
        None => {
            let e = String::new();
            assert(e@ =~= seq![]);
            e
        },
    }
}

fn attr_bool(attrs: &Vec<Attr>, key: &str) -> (r: bool)
    ensures
        r == attr_flag(attr_pairs(attrs@), key@),
{
    match get(attrs, key) {
        Some(v) => same(v.as_str(), "true"),
        None => false,
    }
}

fn number(s: &str) -> (r: i32)
    ensures
        r == number_or_zero(s@),
{
    let v = chars_of(s);
    match parse_i32(v.as_slice()) {
        Some(n) => n,
        None => 0,
    }
}

/// The widget that the attributes of a tag describe.
pub fn node_from_attrs(attrs: &Vec<Attr>) -> (r: UiNode)
    ensures
        r@ == node_of(attr_pairs(attrs@)),
{
    let bounds_text = text_attr(attrs, "bounds");
    let bounds: Rect = match Rect::parse(bounds_text.as_str()) {
        Some(b) => b,
        None => Rect::new(0, 0, 0, 0),
    };
    let enabled: bool = match get(attrs, "enabled") {
        Some(v) => same(v.as_str(), "true"),
        None => true,
    };
    let n = UiNode {
        index: number(text_attr(attrs, "index").as_str()),
        text: text_attr(attrs, "text"),
        resource_id: text_attr(attrs, "resource-id"),
        class: text_attr(attrs, "class"),
        package: text_attr(attrs, "package"),
        content_desc: text_attr(attrs, "content-desc"),
        bounds,
        clickable: attr_bool(attrs, "clickable"),
        long_clickable: attr_bool(attrs, "long-clickable"),
        scrollable: attr_bool(attrs, "scrollable"),
        checkable: attr_bool(attrs, "checkable"),
        checked: attr_bool(attrs, "checked"),
        enabled,
        focused: attr_bool(attrs, "focused"),
        selected: attr_bool(attrs, "selected"),
        password: attr_bool(attrs, "password"),
        children: Vec::new(),
    };
    assert(nodes_view(n.children@) =~= seq![]);
    n
}

// ---------------------------------------------------------------- tags

/// The end of a tag: the first closing bracket from `j` on that is in no double quotes.
pub open spec fn tag_end(s: Seq<char>, j: int) -> Option<int>
    decreases s.len() - j,
{
    if j < 0 || j >= s.len() {
        None
    } else if s[j] == '"' {
        match char_from(s, '"', j + 1) {
            Some(k) => if j < k < s.len() {
                tag_end(s, k + 1)
            } else {
                None
            },
            None => None,
        }
    } else if s[j] == '>' {
        Some(j)
    } else {
        tag_end(s, j + 1)
    }
}

/// The insides of the tags from `i` on, without white space around them. A tag that does not
/// end is none, and nothing is read behind it.
pub open spec fn tags_from(s: Seq<char>, i: int) -> Seq<Seq<char>>
    decreases s.len() - i,
{
    match char_from(s, '<', i) {
        Some(p) => match tag_end(s, p + 1) {
            Some(j) => if i <= p < j < s.len() {
                seq![trimmed(s.subrange(p + 1, j))] + tags_from(s, j + 1)
            } else {
                seq![]
            },
            None => seq![],
        },
        None => seq![],
    }
}

/// `s` without slashes at its end.
pub open spec fn slashes_off(s: Seq<char>) -> Seq<char>
    decreases s.len(),
{
    if s.len() > 0 && s.last() == '/' {
        slashes_off(s.drop_last())
    } else {
        s
    }
}

/// What of a tag is its name and its attributes: all of it but the slashes that close it.
pub open spec fn tag_body(raw: Seq<char>) -> Seq<char> {
    slashes_off(raw)
}

/// The attributes of a tag: what stands behind its name and one white space.
pub open spec fn tag_attrs(raw: Seq<char>) -> Seq<(Seq<char>, Seq<char>)> {
    let body = tag_body(raw);
    let k = word_len(body);
    if k + 1 <= body.len() {
        attrs_of(body.skip(k + 1))
    } else {
        seq![]
    }
}

/// What was read of a dump so far: the widgets that are not closed yet, the outermost first, the
/// outermost widget that was closed last, the size of the screen, and whether there was a
/// widget at all.
pub struct Reading {
    pub stack: Seq<NodeView>,
    pub root: Option<NodeView>,
    pub width: i32,
    pub height: i32,
    pub rotation: i32,
    pub seen: bool,
}

/// A widget is complete: it goes into the one around it, or is the root.
pub open spec fn attach(r: Reading, n: NodeView) -> Reading {
    if r.stack.len() == 0 {
        Reading { root: Some(n), ..r }
    } else {
        let p = r.stack.last();
        Reading {
            stack: r.stack.drop_last().push(NodeView { children: p.children.push(n), ..p }),
            ..r
        }
    }
}

/// The innermost widget is complete.
pub open spec fn close_node(r: Reading) -> Reading {
    if r.stack.len() == 0 {
        r
    } else {
        attach(Reading { stack: r.stack.drop_last(), ..r }, r.stack.last())
    }
}

/// What an attribute says of a size; what it was before where there is none.
pub open spec fn sized(a: Seq<(Seq<char>, Seq<char>)>, key: Seq<char>, before: i32) -> i32 {
    match attr(a, key) {
        Some(v) => number_or_zero(v),
        None => before,
    }
}

/// A tag that opens something: the screen with its size, or a widget, which is complete where
/// the tag closes itself.
pub open spec fn open_tag(
    r: Reading,
    name: Seq<char>,
    a: Seq<(Seq<char>, Seq<char>)>,
    complete: bool,
) -> Reading {
    if name == "hierarchy"@ {
        Reading {
            width: sized(a, "width"@, r.width),
            height: sized(a, "height"@, r.height),
            rotation: sized(a, "rotation"@, r.rotation),
            ..r
        }
    } else if name == "node"@ {
        if complete {
            Reading { seen: true, ..attach(r, node_of(a)) }
        } else {
            Reading { stack: r.stack.push(node_of(a)), seen: true, ..r }
        }
    } else {
        r
    }
}

/// One more tag.
pub open spec fn read_tag(r: Reading, raw: Seq<char>) -> Reading {
    if raw.len() > 0 && (raw[0] == '!' || raw[0] == '?') {
        r
    } else if raw.len() > 0 && raw[0] == '/' {
        if raw.skip(1) == "node"@ {
            close_node(r)
        } else {
            r
        }
    } else {
        let body = tag_body(raw);
        open_tag(
            r,
            body.take(word_len(body)),
            tag_attrs(raw),
            raw.len() > 0 && raw.last() == '/',
        )
    }
}

pub open spec fn read_tags(tags: Seq<Seq<char>>) -> Reading
    decreases tags.len(),
{
    if tags.len() == 0 {
        Reading { stack: seq![], root: None, width: 0, height: 0, rotation: 0, seen: false }
    } else {
        read_tag(read_tags(tags.drop_last()), tags.last())
    }
}

/// All widgets that are still open are complete, the innermost first.
pub open spec fn close_all(r: Reading) -> Reading
    decreases r.stack.len(),
{
    if r.stack.len() == 0 {
        r
    } else {
        close_all(close_node(r))
    }
}

/// The screen that a dump describes; none where there is no widget in it. Where it does not give
/// a size, the root's lower right corner stands for it.
pub open spec fn hierarchy_of(xml: Seq<char>) -> Option<HierarchyView> {
    let r = close_all(read_tags(tags_from(xml, 0)));
    if !r.seen {
        None
    } else {
        match r.root {
            Some(n) => if r.width <= 0 || r.height <= 0 {
                Some(
                    HierarchyView {
                        root: r.root,
                        width: n.bounds.x2,
                        height: n.bounds.y2,
                        rotation: r.rotation,
                    },
                )
            } else {
                Some(
                    HierarchyView {
                        root: r.root,
                        width: r.width,
                        height: r.height,
                        rotation: r.rotation,
                    },
                )
            },
            None => Some(
                HierarchyView {
                    root: None,
                    width: r.width,
                    height: r.height,
                    rotation: r.rotation,
                },
            ),
        }
    }
}

/// What is kept while a dump is read.
struct Reader {
    stack: Vec<UiNode>,
    root: Option<UiNode>,
    width: i32,
    height: i32,
    rotation: i32,
    seen: bool,
}

spec fn reading(r: Reader) -> Reading {
    Reading {
        stack: nodes_view(r.stack@),
        root: match r.root {
            Some(n) => Some(n@),
            None => None,
        },
        width: r.width,
        height: r.height,
        rotation: r.rotation,
        seen: r.seen,
    }
}

impl Reader {
    fn attach(&mut self, n: UiNode)
        ensures
            reading(*final(self)) == attach(reading(*old(self)), n@),
    {
        proof {
            crate::model::node::lemma_nodes_view(self.stack@);
        }
        match self.stack.pop() {
            Some(p) => {
                let mut parent = p;
                let ghost rest = self.stack@;
                let ghost kids = parent.children@;
                assert(kids.push(n).drop_last() =~= kids);
                parent.children.push(n);
                assert(rest.push(parent).drop_last() =~= rest);
                assert(nodes_view(rest.push(parent)) == nodes_view(rest).push(parent@));
                self.stack.push(parent);
                assert(old(self).stack@.drop_last() =~= rest);
                assert(reading(*self).stack =~= attach(reading(*old(self)), n@).stack);
            },
            None => {
                self.root = Some(n);
            },
        }
    }

    fn close_node(&mut self)
        ensures
            reading(*final(self)) == close_node(reading(*old(self))),
            old(self).stack@.len() > 0 ==> final(self).stack@.len() == old(self).stack@.len() - 1,
    {
        proof {
            crate::model::node::lemma_nodes_view(self.stack@);
        }
        match self.stack.pop() {
            Some(n) => {
                assert(old(self).stack@.drop_last() =~= self.stack@);
                assert(reading(*old(self)).stack.drop_last() =~= nodes_view(self.stack@));
                self.attach(n);
                proof {
                    crate::model::node::lemma_nodes_view(self.stack@);
                    crate::model::node::lemma_nodes_view(old(self).stack@.drop_last());
                }
            },
            None => {},
        }
    }

    fn open_tag(&mut self, name: &str, attrs: &Vec<Attr>, complete: bool)
        ensures
            reading(*final(self)) == open_tag(
                reading(*old(self)),
                name@,
                attr_pairs(attrs@),
                complete,
            ),
    {
        if same(name, "hierarchy") {
            if let Some(t) = get(attrs, "width") {
                self.width = number(t.as_str());
            }
            if let Some(t) = get(attrs, "height") {
                self.height = number(t.as_str());
            }
            if let Some(t) = get(attrs, "rotation") {
                self.rotation = number(t.as_str());
            }
        } else if same(name, "node") {
            let n = node_from_attrs(attrs);
            if complete {
                self.attach(n);
            } else {
                proof {
                    assert(self.stack@.push(n).drop_last() =~= self.stack@);
                }
                self.stack.push(n);
            }
            self.seen = true;
        }
    }

    fn read_tag(&mut self, v: &[char], from: usize, to: usize)
        requires
            from <= to <= v@.len(),
        ensures
            reading(*final(self)) == read_tag(
                reading(*old(self)),
                v@.subrange(from as int, to as int),
            ),
    {
        let ghost raw = v@.subrange(from as int, to as int);
        if from < to {
            assert(raw[0] == v@[from as int]);
            assert(raw.last() == v@[to - 1]);
            if v[from] == '!' || v[from] == '?' {
                return ;
            }
            if v[from] == '/' {
                let name = slice_text(v, from + 1, to);
                assert(name@ =~= raw.skip(1));
                if same(name.as_str(), "node") {
                    self.close_node();
                }
                return ;
            }
        }
        let self_closing = from < to && v[to - 1] == '/';
        let mut body: Vec<char> = Vec::new();
        let mut end: usize = to;
        while end > from && v[end - 1] == '/'
            invariant
                from <= end <= to <= v@.len(),
                slashes_off(v@.subrange(from as int, end as int)) == slashes_off(raw),
                raw == v@.subrange(from as int, to as int),
            decreases end,
        {
            let ghost t = v@.subrange(from as int, end as int);
            assert(t.last() == v@[end - 1]);
            assert(t.drop_last() =~= v@.subrange(from as int, end - 1));
            end = end - 1;
        }
        push_range(&mut body, v, from, end);
        proof {
            let t = v@.subrange(from as int, end as int);
            assert(end > from ==> t.last() == v@[end - 1]);
            assert(body@ =~= t);
            assert(body@ == tag_body(raw));
            assert(body@.skip(0) =~= body@);
        }
        let k = word_end(body.as_slice(), 0);
        let name = slice_text(body.as_slice(), 0, k);
        assert(name@ =~= body@.take(word_len(body@)));
        let attrs: Vec<Attr> = if k < body.len() {
            parse_attrs(body.as_slice(), k + 1)
        } else {
            Vec::new()
        };
        assert(attr_pairs(attrs@) =~= tag_attrs(raw));
        self.open_tag(name.as_str(), &attrs, self_closing);
    }
}

fn find_tag_end(v: &[char], from: usize) -> (r: Option<usize>)
    requires
        from <= v@.len(),
    ensures
        match r {
            Some(j) => from <= j < v@.len() && tag_end(v@, from as int) == Some(j as int),
            None => tag_end(v@, from as int) is None,
        },
{
    let mut j: usize = from;
    while j < v.len()
        invariant
            from <= j <= v@.len(),
            tag_end(v@, j as int) == tag_end(v@, from as int),
        decreases v@.len() - j,
    {
        if v[j] == '"' {
            match find_char(v, '"', j + 1) {
                Some(k) => {
                    j = k + 1;
                },
                None => {
                    return None;
                },
            }
        } else if v[j] == '>' {
            return Some(j);
        } else {
            j = j + 1;
        }
    }
    None
}

fn read_all(v: &[char]) -> (r: Reader)
    ensures
        reading(r) == read_tags(tags_from(v@, 0)),
{
    let n: usize = v.len();
    let mut r = Reader {
        stack: Vec::new(),
        root: None,
        width: 0,
        height: 0,
        rotation: 0,
        seen: false,
    };
    let ghost mut done: Seq<Seq<char>> = seq![];
    let mut i: usize = 0;
    proof {
        assert(nodes_view(r.stack@) =~= seq![]);
        assert(done + tags_from(v@, 0) =~= tags_from(v@, 0));
    }
    loop
        invariant
            i <= n,
            n == v@.len(),
            reading(r) == read_tags(done),
            done + tags_from(v@, i as int) == tags_from(v@, 0),
        decreases n - i,
    {
        match find_char(v, '<', i) {
            None => {
                assert(tags_from(v@, i as int) =~= seq![]);
                assert(done + tags_from(v@, i as int) =~= done);
                return r;
            },
            Some(p) => match find_tag_end(v, p + 1) {
                None => {
                    assert(tags_from(v@, i as int) =~= seq![]);
                    assert(done + tags_from(v@, i as int) =~= done);
                    return r;
                },
                Some(j) => {
                    let mut inner: Vec<char> = Vec::new();
                    push_range(&mut inner, v, p + 1, j);
                    assert(inner@ =~= v@.subrange(p + 1, j as int));
                    let (a, b) = trim_span(inner.as_slice());
                    r.read_tag(inner.as_slice(), a, b);
                    proof {
                        let raw = trimmed(v@.subrange(p + 1, j as int));
                        let more = done.push(raw);
                        assert(more.drop_last() =~= done);
                        assert(more + tags_from(v@, j + 1) =~= done + tags_from(v@, i as int));
                        done = more;
                    }
                    i = j + 1;
                },
            },
        }
    }
}

/// Reads a dump. It is refused exactly when there is no widget in it.
pub fn parse_hierarchy(xml: &str) -> (r: Result<Hierarchy, DumpError>)
    ensures
        match hierarchy_of(xml@) {
            Some(h) => r is Ok && r->Ok_0@ == h,
            None => r == Err::<Hierarchy, DumpError>(DumpError::Empty),
        },
{
    let v = chars_of(xml);
    let mut r = read_all(v.as_slice());
    let ghost goal = close_all(read_tags(tags_from(xml@, 0)));
    while r.stack.len() > 0
        invariant
            close_all(reading(r)) == goal,
        decreases r.stack@.len(),
    {
        proof {
            crate::model::node::lemma_nodes_view(r.stack@);
        }
        r.close_node();
    }
    assert(nodes_view(r.stack@).len() == 0);
    if !r.seen {
        return Err(DumpError::Empty);
    }
    let mut width: i32 = r.width;
    let mut height: i32 = r.height;
    if width <= 0 || height <= 0 {
        if let Some(n) = &r.root {
            width = n.bounds.x2;
            height = n.bounds.y2;
        }
    }
    Ok(Hierarchy { root: r.root, width, height, rotation: r.rotation })
}

// ---------------------------------------------------------------- laws

/// The tag opens a widget.
pub open spec fn opens_node(raw: Seq<char>) -> bool {
    let body = tag_body(raw);
    &&& !(raw.len() > 0 && (raw[0] == '!' || raw[0] == '?' || raw[0] == '/'))
    &&& body.take(word_len(body)) == "node"@
}

/// A reading in which a widget was seen holds one: closed, or still open.
spec fn holds_node(r: Reading) -> bool {
    r.seen ==> r.root is Some || r.stack.len() > 0
}

proof fn lemma_node_is_no_hierarchy()
    ensures
        "node"@ != "hierarchy"@,
{
    reveal_strlit("node");
    reveal_strlit("hierarchy");
    assert("node"@.len() != "hierarchy"@.len());
}

proof fn lemma_tags_seen(tags: Seq<Seq<char>>)
    ensures
        read_tags(tags).seen <==> exists|i: int| 0 <= i < tags.len() && opens_node(#[trigger] tags[i]),
        holds_node(read_tags(tags)),
    decreases tags.len(),
{
    if tags.len() > 0 {
        let before = tags.drop_last();
        lemma_tags_seen(before);
        lemma_node_is_no_hierarchy();
        if exists|i: int| 0 <= i < before.len() && opens_node(#[trigger] before[i]) {
            let i = choose|i: int| 0 <= i < before.len() && opens_node(#[trigger] before[i]);
            assert(opens_node(tags[i]));
        }
        assert forall|i: int| 0 <= i < tags.len() && opens_node(#[trigger] tags[i]) && i
            < before.len() implies opens_node(before[i]) by {}
    }
}

proof fn lemma_closed_holds_node(r: Reading)
    requires
        holds_node(r),
    ensures
        close_all(r).seen == r.seen,
        r.seen ==> close_all(r).root is Some,
    decreases r.stack.len(),
{
    if r.stack.len() > 0 {
        lemma_closed_holds_node(close_node(r));
    }
}

/// One widget is enough: a dump is read exactly when some tag in it opens a widget, whether the
/// dump is complete or was cut short.
pub proof fn lemma_one_widget_is_enough(xml: Seq<char>)
    ensures
        hierarchy_of(xml) is Some <==> exists|i: int|
            0 <= i < tags_from(xml, 0).len() && opens_node(#[trigger] tags_from(xml, 0)[i]),
{
    lemma_tags_seen(tags_from(xml, 0));
    lemma_closed_holds_node(read_tags(tags_from(xml, 0)));
}

/// A dump that was read has a root, and a screen whose size the dump gives or the root has.
pub proof fn lemma_read_dump_has_root(xml: Seq<char>)
    ensures
        match hierarchy_of(xml) {
            Some(h) => h.root is Some && (h.width > 0 && h.height > 0 || (h.width == (
            h.root->0).bounds.x2 && h.height == (h.root->0).bounds.y2)),
            None => true,
        },
{
    lemma_tags_seen(tags_from(xml, 0));
    lemma_closed_holds_node(read_tags(tags_from(xml, 0)));
}

} // verus!
