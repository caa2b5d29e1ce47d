//! What is read of a dump: attributes, tags, and widgets within widgets.

use vstd::prelude::*;

use crate::dump::attach;
use crate::dump::attr;
use crate::dump::attrs_of;
use crate::dump::close_all;
use crate::dump::hierarchy_of;
use crate::dump::key_len;
use crate::dump::node_of;
use crate::dump::open_tag;
use crate::dump::read_tag;
use crate::dump::read_tags;
use crate::dump::slashes_off;
use crate::dump::tag_attrs;
use crate::dump::tag_end;
use crate::dump::tags_from;
use crate::dump::unescaped;
use crate::dump::value_split;
use crate::dump::Reading;
use crate::model::node::NodeView;
use crate::model::rect::rect_text;
use crate::model::rect::Rect;
use crate::text::number::i32_of;
use crate::text::search::char_from;
use crate::text::search::lemma_char_from;
use crate::text::search::space;
use crate::text::search::trim_front;
use crate::text::search::trimmed;
use crate::text::split::word_len;

verus! {

/// A text without ampersands is read as it is.
pub proof fn lemma_literal_is_read(s: Seq<char>)
    requires
        !s.contains('&'),
    ensures
        unescaped(s) == s,
    decreases s.len(),
{
    if s.len() > 0 {
        assert(s.contains(s[0]));
        let t = s.skip(1);
        assert(!t.contains('&')) by {
            if t.contains('&') {
                let i = choose|i: int| 0 <= i < t.len() && t[i] == '&';
                assert(s[i + 1] == '&');
            }
        }
        lemma_literal_is_read(t);
        assert(s =~= seq![s[0]] + t);
    } else {
        assert(s =~= seq![]);
    }
}

/// The five named entities are read as their characters, wherever they stand.
pub proof fn lemma_entities_are_read(rest: Seq<char>)
    ensures
        unescaped("&amp;"@ + rest) == seq!['&'] + unescaped(rest),
        unescaped("&lt;"@ + rest) == seq!['<'] + unescaped(rest),
        unescaped("&gt;"@ + rest) == seq!['>'] + unescaped(rest),
        unescaped("&quot;"@ + rest) == seq!['"'] + unescaped(rest),
        unescaped("&apos;"@ + rest) == seq!['\''] + unescaped(rest),
{
    reveal_strlit("&amp;");
    reveal_strlit("&lt;");
    reveal_strlit("&gt;");
    reveal_strlit("&quot;");
    reveal_strlit("&apos;");
    reveal_strlit("amp");
    reveal_strlit("lt");
    reveal_strlit("gt");
    reveal_strlit("quot");
    reveal_strlit("apos");
    assert("lt"@[0] == 'l' && "gt"@[0] == 'g');
    assert("quot"@[0] == 'q' && "apos"@[0] == 'a');
    assert("amp"@.len() == 3 && "lt"@.len() == 2 && "gt"@.len() == 2 && "quot"@.len() == 4
        && "apos"@.len() == 4);
    lemma_entity("amp"@, rest);
    lemma_entity("lt"@, rest);
    lemma_entity("gt"@, rest);
    lemma_entity("quot"@, rest);
    lemma_entity("apos"@, rest);
    assert("&amp;"@ + rest =~= seq!['&'] + "amp"@ + seq![';'] + rest);
    assert("&lt;"@ + rest =~= seq!['&'] + "lt"@ + seq![';'] + rest);
    assert("&gt;"@ + rest =~= seq!['&'] + "gt"@ + seq![';'] + rest);
    assert("&quot;"@ + rest =~= seq!['&'] + "quot"@ + seq![';'] + rest);
    assert("&apos;"@ + rest =~= seq!['&'] + "apos"@ + seq![';'] + rest);
}

proof fn lemma_entity(e: Seq<char>, rest: Seq<char>)
    requires
        e.len() <= 4,
        forall|i: int| 0 <= i < e.len() ==> 97 <= #[trigger] e[i] as int <= 122,
        crate::dump::entity_char(e) is Some,
    ensures
        unescaped(seq!['&'] + e + seq![';'] + rest) == seq![crate::dump::entity_char(e)->0]
            + unescaped(rest),
{
    let s = seq!['&'] + e + seq![';'] + rest;
    let t = s.skip(1);
    assert(t =~= e + seq![';'] + rest);
    lemma_entity_end(e, rest, 0);
    assert(t.take(e.len() as int) =~= e);
    assert(t.skip(e.len() as int + 1) =~= rest);
    assert(s[0] == '&');
}

proof fn lemma_entity_end(e: Seq<char>, rest: Seq<char>, k: int)
    requires
        0 <= k <= e.len() <= 4,
        forall|i: int| 0 <= i < e.len() ==> 97 <= #[trigger] e[i] as int <= 122,
    ensures
        crate::dump::entity_end(e + seq![';'] + rest, k, k) == Some(e.len() as int),
    decreases e.len() - k,
{
    let t = e + seq![';'] + rest;
    if k < e.len() {
        assert(t[k] == e[k]);
        assert(crate::text::utf8::utf8_len(t[k]) == 1);
        lemma_entity_end(e, rest, k + 1);
    } else {
        assert(t[k] == ';');
    }
}

// ---------------------------------------------------------------- attributes

/// The name of an attribute.
pub open spec fn plain_key(k: Seq<char>) -> bool {
    k.len() > 0 && forall|i: int| 0 <= i < k.len() ==> !space(#[trigger] k[i]) && k[i] != '='
}

/// One attribute as it is written: a blank, its name, and its value in quotes.
pub open spec fn written(k: Seq<char>, v: Seq<char>) -> Seq<char> {
    seq![' '] + k + seq!['=', '"'] + v + seq!['"']
}

proof fn lemma_key_len(k: Seq<char>, rest: Seq<char>)
    requires
        forall|i: int| 0 <= i < k.len() ==> !space(#[trigger] k[i]) && k[i] != '=',
        rest.len() > 0,
        rest[0] == '=',
    ensures
        key_len(k + rest) == k.len(),
    decreases k.len(),
{
    if k.len() == 0 {
        assert(k + rest =~= rest);
    } else {
        let q = k.skip(1);
        assert forall|i: int| 0 <= i < q.len() implies !space(#[trigger] q[i]) && q[i] != '=' by {
            assert(q[i] == k[i + 1]);
        }
        lemma_key_len(q, rest);
        assert((k + rest).skip(1) =~= q + rest);
        assert((k + rest)[0] == k[0]);
    }
}

/// An attribute is read as its name and its value, with or without the blank in front of it; those
/// behind it are read as if it were not there.
pub proof fn lemma_attribute_is_read(k: Seq<char>, v: Seq<char>, rest: Seq<char>)
    requires
        plain_key(k),
        !v.contains('"'),
    ensures
        attrs_of(written(k, v) + rest) == seq![(k, unescaped(v))] + attrs_of(rest),
        attrs_of((written(k, v) + rest).drop_first()) == seq![(k, unescaped(v))] + attrs_of(rest),
{
    let s = written(k, v) + rest;
    let q = seq!['"'] + v + seq!['"'] + rest;
    let e = seq!['='] + q;
    let t = k + e;
    assert(s =~= seq![' '] + t);
    assert(s[0] == ' ');
    assert(s.drop_first() =~= t);
    assert(t[0] == k[0]);
    assert(trim_front(t) == t);
    assert(trim_front(s) == t);
    lemma_key_len(k, e);
    assert(t.take(k.len() as int) =~= k);
    assert(t.skip(k.len() as int) =~= e);
    assert(e[0] == '=');
    assert(trim_front(e) == e);
    assert(e.skip(1) =~= q);
    assert(q[0] == '"');
    assert(trim_front(q) == q);
    lemma_char_from(q, '"', 1);
    let n = v.len() as int;
    assert(q[n + 1] == '"');
    assert forall|i: int| 1 <= i < n + 1 implies q[i] != '"' by {
        assert(q[i] == v[i - 1]);
        assert(v.contains(v[i - 1]));
    }
    assert(char_from(q, '"', 1) == Some(n + 1));
    assert(q.subrange(1, n + 1) =~= v);
    assert(q.skip(n + 2) =~= rest);
    assert(value_split(q) == (v, rest));
}

/// Nothing is read of nothing.
pub proof fn lemma_no_attributes()
    ensures
        attrs_of(seq![]) == Seq::<(Seq<char>, Seq<char>)>::empty(),
{
    let e: Seq<char> = seq![];
    assert(trim_front(e).len() == 0);
}

/// The attribute that counts is the last one with the name.
pub proof fn lemma_last_attribute_counts(a: Seq<(Seq<char>, Seq<char>)>, key: Seq<char>)
    ensures
        match attr(a, key) {
            Some(v) => exists|i: int|
                0 <= i < a.len() && (#[trigger] a[i]).0 == key && a[i].1 == v && forall|j: int|
                    i < j < a.len() ==> (#[trigger] a[j]).0 != key,
            None => forall|j: int| 0 <= j < a.len() ==> (#[trigger] a[j]).0 != key,
        },
    decreases a.len(),
{
    if a.len() > 0 && a.last().0 != key {
        let d = a.drop_last();
        lemma_last_attribute_counts(d, key);
        assert forall|j: int| 0 <= j < d.len() implies d[j] == #[trigger] a[j] by {}
        if let Some(v) = attr(d, key) {
            let i = choose|i: int|
                0 <= i < d.len() && (#[trigger] d[i]).0 == key && d[i].1 == v && forall|j: int|
                    i < j < d.len() ==> (#[trigger] d[j]).0 != key;
            assert(a[i].0 == key);
            assert forall|j: int| i < j < a.len() implies (#[trigger] a[j]).0 != key by {
                if j < d.len() {
                    assert(d[j].0 != key);
                }
            }
        } else {
            assert forall|j: int| 0 <= j < a.len() implies (#[trigger] a[j]).0 != key by {
                if j < d.len() {
                    assert(d[j].0 != key);
                }
            }
        }
    } else if a.len() > 0 {
        assert(a[a.len() - 1].0 == key);
    }
}

/// The value of an attribute, or nothing.
pub open spec fn value_or_none(a: Seq<(Seq<char>, Seq<char>)>, key: Seq<char>) -> Seq<char> {
    match attr(a, key) {
        Some(v) => v,
        None => seq![],
    }
}

/// The attribute is there and says yes.
pub open spec fn says_yes(a: Seq<(Seq<char>, Seq<char>)>, key: Seq<char>) -> bool {
    attr(a, key) is Some && attr(a, key)->0 == "true"@
}

/// What a widget is follows from the attributes of the same names; it is enabled unless it says
/// that it is not.
pub proof fn lemma_attributes_make_a_widget(a: Seq<(Seq<char>, Seq<char>)>, r: Rect)
    ensures
        ({
            let n = node_of(a);
            &&& n.text == value_or_none(a, "text"@)
            &&& n.resource_id == value_or_none(a, "resource-id"@)
            &&& n.class == value_or_none(a, "class"@)
            &&& n.package == value_or_none(a, "package"@)
            &&& n.content_desc == value_or_none(a, "content-desc"@)
            &&& attr(a, "bounds"@) == Some(rect_text(r)) && r.x1 > i32::MIN && r.y1 > i32::MIN
                && r.x2 > i32::MIN && r.y2 > i32::MIN ==> n.bounds == r
            &&& n.clickable == says_yes(a, "clickable"@)
            &&& n.long_clickable == says_yes(a, "long-clickable"@)
            &&& n.scrollable == says_yes(a, "scrollable"@)
            &&& n.checkable == says_yes(a, "checkable"@)
            &&& n.checked == says_yes(a, "checked"@)
            &&& n.focused == says_yes(a, "focused"@)
            &&& n.selected == says_yes(a, "selected"@)
            &&& n.password == says_yes(a, "password"@)
            &&& n.enabled == (attr(a, "enabled"@) is None || says_yes(a, "enabled"@))
            &&& n.children.len() == 0
            &&& match i32_of(value_or_none(a, "index"@)) {
                Some(i) => n.index == i,
                None => n.index == 0,
            }
        }),
{
    if r.x1 > i32::MIN && r.y1 > i32::MIN && r.x2 > i32::MIN && r.y2 > i32::MIN {
        crate::model::rect::lemma_parse_reads_text(r);
    }
}

// ---------------------------------------------------------------- tags

/// The text of a tag in which every quote is closed and no `>` stands outside of quotes: pieces
/// without either, and values in quotes, in turn.
pub open spec fn closed_tag(pieces: Seq<(Seq<char>, Seq<char>)>, tail: Seq<char>) -> bool {
    &&& forall|i: int|
        0 <= i < pieces.len() ==> !(#[trigger] pieces[i]).0.contains('"') && !pieces[i].0.contains(
            '>',
        ) && !pieces[i].1.contains('"')
    &&& !tail.contains('"') && !tail.contains('>')
}

/// The tag that pieces and quoted values make.
pub open spec fn tag_text(pieces: Seq<(Seq<char>, Seq<char>)>, tail: Seq<char>) -> Seq<char>
    decreases pieces.len(),
{
    if pieces.len() == 0 {
        tail
    } else {
        pieces[0].0 + seq!['"'] + pieces[0].1 + seq!['"'] + tag_text(pieces.skip(1), tail)
    }
}

proof fn lemma_tag_end_plain(s: Seq<char>, j: int, p: Seq<char>)
    requires
        0 <= j,
        j + p.len() <= s.len(),
        s.subrange(j, j + p.len()) == p,
        !p.contains('"'),
        !p.contains('>'),
    ensures
        tag_end(s, j) == tag_end(s, j + p.len()),
    decreases p.len(),
{
    if p.len() > 0 {
        assert(s.subrange(j, j + p.len())[0] == s[j]);
        assert(p.contains(p[0]));
        let q = p.skip(1);
        assert(s.subrange(j + 1, j + 1 + q.len()) =~= q) by {
            assert forall|i: int| 0 <= i < q.len() implies s.subrange(j + 1, j + 1 + q.len())[i]
                == q[i] by {
                assert(s.subrange(j, j + p.len())[i + 1] == p[i + 1]);
            }
        }
        assert(!q.contains('"')) by {
            if q.contains('"') {
                let i = choose|i: int| 0 <= i < q.len() && q[i] == '"';
                assert(p[i + 1] == '"');
            }
        }
        assert(!q.contains('>')) by {
            if q.contains('>') {
                let i = choose|i: int| 0 <= i < q.len() && q[i] == '>';
                assert(p[i + 1] == '>');
            }
        }
        lemma_tag_end_plain(s, j + 1, q);
    }
}

proof fn lemma_tag_end(
    s: Seq<char>,
    j: int,
    pieces: Seq<(Seq<char>, Seq<char>)>,
    tail: Seq<char>,
    rest: Seq<char>,
)
    requires
        0 <= j <= s.len(),
        closed_tag(pieces, tail),
        s.skip(j) == tag_text(pieces, tail) + seq!['>'] + rest,
    ensures
        tag_end(s, j) == Some(j + tag_text(pieces, tail).len()),
    decreases pieces.len(),
{
    let t = tag_text(pieces, tail);
    let body = t + seq!['>'] + rest;
    assert(s.len() == j + body.len());
    assert forall|i: int| 0 <= i < body.len() implies s[j + i] == #[trigger] body[i] by {
        assert(s.skip(j)[i] == s[j + i]);
    }
    if pieces.len() == 0 {
        assert(s.subrange(j, j + tail.len()) =~= tail) by {
            assert forall|i: int| 0 <= i < tail.len() implies s.subrange(j, j + tail.len())[i]
                == tail[i] by {
                assert(body[i] == tail[i]);
            }
        }
        lemma_tag_end_plain(s, j, tail);
        assert(body[tail.len() as int] == '>');
    } else {
        let p = pieces[0].0;
        let v = pieces[0].1;
        let more = pieces.skip(1);
        let u = tag_text(more, tail);
        assert(t == p + seq!['"'] + v + seq!['"'] + u);
        assert(s.subrange(j, j + p.len()) =~= p) by {
            assert forall|i: int| 0 <= i < p.len() implies s.subrange(j, j + p.len())[i] == p[i] by {
                assert(body[i] == p[i]);
            }
        }
        lemma_tag_end_plain(s, j, p);
        let a = j + p.len();
        assert(body[p.len() as int] == '"');
        assert(s[a] == '"');
        let b = a + 1 + v.len();
        assert(body[p.len() as int + 1 + v.len()] == '"');
        assert(s[b] == '"');
        lemma_char_from(s, '"', a + 1);
        assert forall|i: int| a + 1 <= i < b implies s[i] != '"' by {
            assert(body[i - j] == v[i - a - 1]);
            assert(s[j + (i - j)] == body[i - j]);
            assert(v.contains(v[i - a - 1]));
        }
        assert(char_from(s, '"', a + 1) == Some(b));
        assert(s.skip(b + 1) =~= u + seq!['>'] + rest) by {
            assert forall|i: int| 0 <= i < s.skip(b + 1).len() implies s.skip(b + 1)[i] == (u
                + seq!['>'] + rest)[i] by {
                assert(s[b + 1 + i] == body[b + 1 - j + i]);
            }
        }
        assert forall|i: int| 0 <= i < more.len() implies !(#[trigger] more[i]).0.contains('"')
            && !more[i].0.contains('>') && !more[i].1.contains('"') by {
            assert(more[i] == pieces[i + 1]);
        }
        lemma_tag_end(s, b + 1, more, tail, rest);
    }
}

proof fn lemma_char_from_shift(s: Seq<char>, c: char, d: int, i: int)
    requires
        0 <= d <= s.len(),
        0 <= i,
    ensures
        char_from(s.skip(d), c, i) == match char_from(s, c, d + i) {
            Some(k) => Some(k - d),
            None => None,
        },
    decreases s.len() - d - i,
{
    if i < s.len() - d {
        assert(s.skip(d)[i] == s[d + i]);
        if s[d + i] != c {
            lemma_char_from_shift(s, c, d, i + 1);
        }
    }
}

proof fn lemma_tag_end_shift(s: Seq<char>, d: int, j: int)
    requires
        0 <= d <= s.len(),
        0 <= j,
    ensures
        tag_end(s.skip(d), j) == match tag_end(s, d + j) {
            Some(k) => Some(k - d),
            None => None,
        },
    decreases s.len() - d - j,
{
    if j < s.len() - d {
        assert(s.skip(d)[j] == s[d + j]);
        if s[d + j] == '"' {
            lemma_char_from_shift(s, '"', d, j + 1);
            lemma_char_from(s, '"', d + j + 1);
            match char_from(s, '"', d + j + 1) {
                Some(k) => {
                    lemma_tag_end_shift(s, d, k + 1 - d);
                },
                None => {},
            }
        } else if s[d + j] != '>' {
            lemma_tag_end_shift(s, d, j + 1);
        }
    }
}

proof fn lemma_tags_shift(s: Seq<char>, d: int, i: int)
    requires
        0 <= d <= s.len(),
        0 <= i,
    ensures
        tags_from(s.skip(d), i) == tags_from(s, d + i),
    decreases s.len() - d - i,
{
    let u = s.skip(d);
    lemma_char_from_shift(s, '<', d, i);
    lemma_char_from(s, '<', d + i);
    match char_from(s, '<', d + i) {
        Some(p) => {
            lemma_tag_end_shift(s, d, p + 1 - d);
            match tag_end(s, p + 1) {
                Some(j) => {
                    if d + i <= p < j < s.len() {
                        assert(u.subrange(p - d + 1, j - d) =~= s.subrange(p + 1, j));
                        lemma_tags_shift(s, d, j + 1 - d);
                    }
                },
                None => {},
            }
        },
        None => {},
    }
}

/// Tags are read in their order, each without white space around it; what stands between them does
/// not matter, and a `>` within quotes does not end a tag.
pub proof fn lemma_tag_is_read(
    between: Seq<char>,
    pieces: Seq<(Seq<char>, Seq<char>)>,
    tail: Seq<char>,
    rest: Seq<char>,
)
    requires
        !between.contains('<'),
        closed_tag(pieces, tail),
    ensures
        tags_from(between + seq!['<'] + tag_text(pieces, tail) + seq!['>'] + rest, 0) == seq![
            trimmed(tag_text(pieces, tail)),
        ] + tags_from(rest, 0),
{
    let t = tag_text(pieces, tail);
    let s = between + seq!['<'] + t + seq!['>'] + rest;
    let n = between.len() as int;
    lemma_char_from(s, '<', 0);
    assert(s[n] == '<');
    assert forall|i: int| 0 <= i < n implies s[i] != '<' by {
        assert(s[i] == between[i]);
        assert(between.contains(between[i]));
    }
    assert(char_from(s, '<', 0) == Some(n));
    assert(s.skip(n + 1) =~= t + seq!['>'] + rest);
    lemma_tag_end(s, n + 1, pieces, tail, rest);
    let j = n + 1 + t.len();
    assert(s.subrange(n + 1, j) =~= t);
    lemma_tags_shift(s, j + 1, 0);
    assert(s.skip(j + 1) =~= rest);
}

// ---------------------------------------------------------------- widgets within widgets

/// The tags, read within some widget, give that widget these widgets as further children.
pub open spec fn reads_as(tags: Seq<Seq<char>>, nodes: Seq<NodeView>) -> bool {
    forall|r: Reading|
        r.stack.len() > 0 ==> {
            let p = r.stack.last();
            &&& (#[trigger] read_on(r, tags)).stack == r.stack.drop_last().push(
                NodeView { children: p.children + nodes, ..p },
            )
            &&& read_on(r, tags).root == r.root
            &&& read_on(r, tags).width == r.width
            &&& read_on(r, tags).height == r.height
            &&& read_on(r, tags).rotation == r.rotation
        }
}

/// What is read once some further tags were.
pub open spec fn read_on(r: Reading, tags: Seq<Seq<char>>) -> Reading
    decreases tags.len(),
{
    if tags.len() == 0 {
        r
    } else {
        read_tag(read_on(r, tags.drop_last()), tags.last())
    }
}

proof fn lemma_read_on_sum(r: Reading, a: Seq<Seq<char>>, b: Seq<Seq<char>>)
    ensures
        read_on(r, a + b) == read_on(read_on(r, a), b),
    decreases b.len(),
{
    if b.len() == 0 {
        assert(a + b =~= a);
    } else {
        lemma_read_on_sum(r, a, b.drop_last());
        assert((a + b).drop_last() =~= a + b.drop_last());
        assert((a + b).last() == b.last());
    }
}

proof fn lemma_read_all(tags: Seq<Seq<char>>)
    ensures
        read_tags(tags) == read_on(read_tags(seq![]), tags),
    decreases tags.len(),
{
    if tags.len() > 0 {
        lemma_read_all(tags.drop_last());
    } else {
        assert(tags =~= seq![]);
    }
}

/// The tag begins a widget: its first word is `node`.
pub open spec fn begins_node(raw: Seq<char>) -> bool {
    &&& raw.len() > 4
    &&& raw[0] == 'n'
    &&& slashes_off(raw).take(word_len(slashes_off(raw))) == "node"@
}

/// The attributes of a widget are all that stands behind the word `node`, with or without the slash
/// that closes the tag at once.
pub proof fn lemma_tag_of_a_widget(attributes: Seq<char>)
    requires
        attributes.len() > 0,
        attributes[0] == ' ',
        attributes.last() == '"',
    ensures
        ({
            let open = "node"@ + attributes;
            let closed = open + seq!['/'];
            let list = attrs_of(attributes.drop_first());
            &&& begins_node(open) && open.last() != '/' && tag_attrs(open) == list
            &&& begins_node(closed) && closed.last() == '/' && tag_attrs(closed) == list
        }),
{
    reveal_strlit("node");
    let open = "node"@ + attributes;
    let closed = open + seq!['/'];
    assert(closed.drop_last() =~= open);
    assert(open.last() == attributes.last());
    assert(slashes_off(open) == open);
    assert(slashes_off(closed) == open);
    lemma_word_in_front("node"@, attributes);
    assert(open.take(4) =~= "node"@);
    assert(open.skip(5) =~= attributes.drop_first());
}

proof fn lemma_word_in_front(w: Seq<char>, rest: Seq<char>)
    requires
        forall|i: int| 0 <= i < w.len() ==> !space(#[trigger] w[i]),
        rest.len() > 0,
        space(rest[0]),
    ensures
        word_len(w + rest) == w.len(),
    decreases w.len(),
{
    if w.len() == 0 {
        assert(w + rest =~= rest);
    } else {
        let t = w.drop_first();
        assert forall|i: int| 0 <= i < t.len() implies !space(#[trigger] t[i]) by {
            assert(t[i] == w[i + 1]);
        }
        lemma_word_in_front(t, rest);
        assert((w + rest).drop_first() =~= t + rest);
        assert((w + rest)[0] == w[0]);
    }
}

/// No tags give no widgets.
pub proof fn lemma_nothing_within()
    ensures
        reads_as(seq![], seq![]),
{
    assert forall|r: Reading| r.stack.len() > 0 implies {
        let p = r.stack.last();
        &&& (#[trigger] read_on(r, seq![])).stack == r.stack.drop_last().push(
            NodeView { children: p.children + Seq::<NodeView>::empty(), ..p },
        )
        &&& read_on(r, seq![]).root == r.root
        &&& read_on(r, seq![]).width == r.width
        &&& read_on(r, seq![]).height == r.height
        &&& read_on(r, seq![]).rotation == r.rotation
    } by {
        let p = r.stack.last();
        assert(p.children + Seq::<NodeView>::empty() =~= p.children);
        assert(r.stack =~= r.stack.drop_last().push(p));
    }
}

/// Tags behind others give the widgets of both, in their order.
pub proof fn lemma_one_behind_the_other(
    a: Seq<Seq<char>>,
    x: Seq<NodeView>,
    b: Seq<Seq<char>>,
    y: Seq<NodeView>,
)
    requires
        reads_as(a, x),
        reads_as(b, y),
    ensures
        reads_as(a + b, x + y),
{
    assert forall|r: Reading| r.stack.len() > 0 implies {
        let p = r.stack.last();
        &&& (#[trigger] read_on(r, a + b)).stack == r.stack.drop_last().push(
            NodeView { children: p.children + (x + y), ..p },
        )
        &&& read_on(r, a + b).root == r.root
        &&& read_on(r, a + b).width == r.width
        &&& read_on(r, a + b).height == r.height
        &&& read_on(r, a + b).rotation == r.rotation
    } by {
        lemma_read_on_sum(r, a, b);
        let m = read_on(r, a);
        let q = m.stack.last();
        let n = read_on(m, b);
        assert(m.stack.len() > 0);
        assert(n.stack == m.stack.drop_last().push(NodeView { children: q.children + y, ..q }));
        assert(m.stack.drop_last() =~= r.stack.drop_last());
        assert(q.children + y =~= r.stack.last().children + (x + y));
    }
}

/// A widget that is closed at once has no children.
pub proof fn lemma_closed_widget_is_read(raw: Seq<char>)
    requires
        begins_node(raw),
        raw.last() == '/',
    ensures
        reads_as(seq![raw], seq![node_of(tag_attrs(raw))]),
{
    reveal_strlit("node");
    reveal_strlit("hierarchy");
    assert("node"@.len() == 4 && "hierarchy"@.len() == 9);
    let n = node_of(tag_attrs(raw));
    assert forall|r: Reading| r.stack.len() > 0 implies {
        let p = r.stack.last();
        &&& (#[trigger] read_on(r, seq![raw])).stack == r.stack.drop_last().push(
            NodeView { children: p.children + seq![n], ..p },
        )
        &&& read_on(r, seq![raw]).root == r.root
        &&& read_on(r, seq![raw]).width == r.width
        &&& read_on(r, seq![raw]).height == r.height
        &&& read_on(r, seq![raw]).rotation == r.rotation
    } by {
        assert(seq![raw].drop_last() =~= seq![]);
        assert(seq![raw].last() == raw);
        assert(read_on(r, seq![raw]) == read_tag(read_on(r, seq![]), raw));
        let p = r.stack.last();
        assert(p.children.push(n) =~= p.children + seq![n]);
    }
}

/// A widget holds the widgets between its tag and the one that closes it, and no others.
pub proof fn lemma_open_widget_is_read(
    raw: Seq<char>,
    inner: Seq<Seq<char>>,
    nodes: Seq<NodeView>,
)
    requires
        begins_node(raw),
        raw.last() != '/',
        reads_as(inner, nodes),
    ensures
        reads_as(
            seq![raw] + inner + seq!["/node"@],
            seq![(NodeView { children: nodes, ..node_of(tag_attrs(raw)) })],
        ),
{
    reveal_strlit("node");
    reveal_strlit("/node");
    reveal_strlit("hierarchy");
    assert("node"@.len() == 4 && "hierarchy"@.len() == 9);
    assert("/node"@.skip(1) =~= "node"@);
    assert("/node"@[0] == '/');
    let n = node_of(tag_attrs(raw));
    let whole = NodeView { children: nodes, ..n };
    let tags = seq![raw] + inner + seq!["/node"@];
    assert forall|r: Reading| r.stack.len() > 0 implies {
        let p = r.stack.last();
        &&& (#[trigger] read_on(r, tags)).stack == r.stack.drop_last().push(
            NodeView { children: p.children + seq![whole], ..p },
        )
        &&& read_on(r, tags).root == r.root
        &&& read_on(r, tags).width == r.width
        &&& read_on(r, tags).height == r.height
        &&& read_on(r, tags).rotation == r.rotation
    } by {
        let p = r.stack.last();
        lemma_read_on_sum(r, seq![raw] + inner, seq!["/node"@]);
        lemma_read_on_sum(r, seq![raw], inner);
        assert(seq![raw].drop_last() =~= seq![]);
        assert(seq![raw].last() == raw);
        let a = read_on(r, seq![raw]);
        assert(a == read_tag(read_on(r, seq![]), raw));
        assert(a.stack == r.stack.push(n));
        let b = read_on(a, inner);
        assert(a.stack.last() == n);
        assert(a.stack.drop_last() =~= r.stack);
        assert(n.children + nodes =~= nodes);
        assert(b.stack == r.stack.push(whole));
        assert(seq!["/node"@].drop_last() =~= seq![]);
        assert(seq!["/node"@].last() == "/node"@);
        let c = read_on(b, seq!["/node"@]);
        assert(c == read_tag(read_on(b, seq![]), "/node"@));
        assert(b.stack.drop_last() =~= r.stack);
        assert(b.stack.last() == whole);
        assert(c == attach(Reading { stack: b.stack.drop_last(), ..b }, whole));
        assert(p.children.push(whole) =~= p.children + seq![whole]);
    }
}

/// A dump of one widget and those within it is read as that widget. The size of the screen is the
/// one that the dump gives, or where it gives none the right lower corner of the widget.
pub proof fn lemma_dump_is_read(
    xml: Seq<char>,
    raw: Seq<char>,
    inner: Seq<Seq<char>>,
    nodes: Seq<NodeView>,
)
    requires
        begins_node(raw),
        raw.last() != '/',
        reads_as(inner, nodes),
        tags_from(xml, 0) == seq![raw] + inner + seq!["/node"@],
    ensures
        ({
            let n = NodeView { children: nodes, ..node_of(tag_attrs(raw)) };
            match hierarchy_of(xml) {
                Some(h) => h.root == Some(n) && h.width == n.bounds.x2 && h.height == n.bounds.y2
                    && h.rotation == 0,
                None => false,
            }
        }),
{
    reveal_strlit("node");
    reveal_strlit("/node");
    reveal_strlit("hierarchy");
    assert("node"@.len() == 4 && "hierarchy"@.len() == 9);
    assert("/node"@.skip(1) =~= "node"@);
    assert("/node"@[0] == '/');
    let tags = tags_from(xml, 0);
    let n = node_of(tag_attrs(raw));
    let whole = NodeView { children: nodes, ..n };
    let r = read_tags(seq![]);
    lemma_read_all(tags);
    lemma_read_on_sum(r, seq![raw] + inner, seq!["/node"@]);
    lemma_read_on_sum(r, seq![raw], inner);
    assert(seq![raw].drop_last() =~= seq![]);
    assert(seq![raw].last() == raw);
    let a = read_on(r, seq![raw]);
    assert(a == read_tag(read_on(r, seq![]), raw));
    assert(a.stack =~= seq![n]);
    let b = read_on(a, inner);
    assert(a.stack.last() == n);
    assert(n.children + nodes =~= nodes);
    assert(b.stack =~= seq![whole]);
    assert(seq!["/node"@].drop_last() =~= seq![]);
    assert(seq!["/node"@].last() == "/node"@);
    let c = read_on(b, seq!["/node"@]);
    assert(c == read_tag(read_on(b, seq![]), "/node"@));
    assert(b.stack.drop_last() =~= seq![]);
    assert(c.root == Some(whole));
    assert(c.stack.len() == 0);
    assert(close_all(c) == c);
    crate::dump::lemma_one_widget_is_enough(xml);
    assert(tags[0] == raw);
    assert(crate::dump::opens_node(tags[0]));
}

/// The tag `hierarchy` gives the size of the screen and how it is turned.
pub proof fn lemma_size_in_dump(r: Reading, a: Seq<(Seq<char>, Seq<char>)>, complete: bool)
    ensures
        ({
            let s = open_tag(r, "hierarchy"@, a, complete);
            &&& s.stack == r.stack && s.root == r.root
            &&& attr(a, "width"@) is Some ==> match i32_of(attr(a, "width"@)->0) {
                Some(n) => s.width == n,
                None => s.width == 0,
            }
            &&& attr(a, "height"@) is Some ==> match i32_of(attr(a, "height"@)->0) {
                Some(n) => s.height == n,
                None => s.height == 0,
            }
            &&& attr(a, "rotation"@) is Some ==> match i32_of(attr(a, "rotation"@)->0) {
                Some(n) => s.rotation == n,
                None => s.rotation == 0,
            }
        }),
{
}

} // verus!
