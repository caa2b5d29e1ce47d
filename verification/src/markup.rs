//! Text inside HTML.

use vstd::prelude::*;

use crate::dump::entity_char;
use crate::dump::entity_end;
use crate::dump::unescaped;
use crate::text::basic::chars_of;
use crate::text::utf8::utf8_len;

verus! {

/// What stands for a character in HTML.
pub open spec fn escaped_char(c: char) -> Seq<char> {
    if c == '&' {
        "&amp;"@
    } else if c == '<' {
        "&lt;"@
    } else if c == '>' {
        "&gt;"@
    } else if c == '"' {
        "&quot;"@
    } else {
        seq![c]
    }
}

/// What stands for a text in HTML.
pub open spec fn escaped(s: Seq<char>) -> Seq<char>
    decreases s.len(),
{
    if s.len() == 0 {
        seq![]
    } else {
        escaped_char(s[0]) + escaped(s.skip(1))
    }
}

/// What stands for a text in HTML.
pub fn esc(s: &str) -> (r: String)
    ensures
        r@ == escaped(s@),
{
    let v = chars_of(s);
    let mut out = String::new();
    let mut i: usize = 0;
    assert(v@.skip(0) =~= v@);
    assert(out@ + escaped(v@) =~= escaped(v@));
    while i < v.len()
        invariant
            i <= v@.len(),
            v@ == s@,
            out@ + escaped(v@.skip(i as int)) == escaped(s@),
        decreases v@.len() - i,
    {
        let c = v[i];
        let ghost before = out@;
        if c == '&' {
            out.append("&amp;");
        } else if c == '<' {
            out.append("&lt;");
        } else if c == '>' {
            out.append("&gt;");
        } else if c == '"' {
            out.append("&quot;");
        } else {
            out.push(c);
        }
        proof {
            assert(v@.skip(i as int)[0] == c);
            assert(v@.skip(i as int).skip(1) =~= v@.skip(i + 1));
            assert(out@ =~= before + escaped_char(c));
            assert(out@ + escaped(v@.skip(i + 1)) =~= before + (escaped_char(c) + escaped(
                v@.skip(i + 1),
            )));
        }
        i = i + 1;
    }
    assert(v@.skip(i as int) =~= seq![]);
    assert(out@ + seq![] =~= out@);
    out
}

// ---------------------------------------------------------------- laws

/// An escaped text cannot open or close a tag, nor end the value of an attribute.
pub proof fn lemma_escaped_holds_no_markup(s: Seq<char>)
    ensures
        !escaped(s).contains('<'),
        !escaped(s).contains('>'),
        !escaped(s).contains('"'),
    decreases s.len(),
{
    reveal_strlit("&amp;");
    reveal_strlit("&lt;");
    reveal_strlit("&gt;");
    reveal_strlit("&quot;");
    if s.len() > 0 {
        let head = escaped_char(s[0]);
        let tail = escaped(s.skip(1));
        lemma_escaped_holds_no_markup(s.skip(1));
        assert forall|i: int| 0 <= i < escaped(s).len() implies ({
            let c = #[trigger] escaped(s)[i];
            c != '<' && c != '>' && c != '"'
        }) by {
            if i < head.len() {
                assert(escaped(s)[i] == head[i]);
            } else {
                assert(escaped(s)[i] == tail[i - head.len()]);
                assert(tail.contains(tail[i - head.len()]));
            }
        }
    }
}

/// The entity of the name stands for the character in front of any text.
proof fn lemma_entity(name: Seq<char>, c: char, rest: Seq<char>)
    requires
        entity_char(name) == Some(c),
        0 < name.len() <= 4,
        forall|i: int| 0 <= i < name.len() ==> #[trigger] name[i] != ';' && utf8_len(name[i]) == 1,
    ensures
        unescaped(seq!['&'] + name + seq![';'] + rest) == seq![c] + unescaped(rest),
{
    let s = seq!['&'] + name + seq![';'] + rest;
    let t = s.skip(1);
    assert(t =~= name + seq![';'] + rest);
    assert forall|i: int| 0 <= i < name.len() implies #[trigger] t[i] == name[i] by {}
    assert(t[name.len() as int] == ';');
    reveal_with_fuel(entity_end, 6);
    assert(entity_end(t, 0, 0) == Some(name.len() as int));
    assert(t.take(name.len() as int) =~= name);
    assert(t.skip(name.len() as int + 1) =~= rest);
}

/// Reading an escaped text gives the text back: nothing is lost in a report.
pub proof fn lemma_unescape_undoes_escape(s: Seq<char>)
    ensures
        unescaped(escaped(s)) == s,
    decreases s.len(),
{
    if s.len() > 0 {
        let c = s[0];
        let rest = escaped(s.skip(1));
        lemma_unescape_undoes_escape(s.skip(1));
        assert(seq![c] + s.skip(1) =~= s);
        reveal_strlit("amp");
        reveal_strlit("lt");
        reveal_strlit("gt");
        reveal_strlit("quot");
        reveal_strlit("&amp;");
        reveal_strlit("&lt;");
        reveal_strlit("&gt;");
        reveal_strlit("&quot;");
        assert("amp"@.len() == 3 && "lt"@.len() == 2 && "gt"@.len() == 2 && "quot"@.len() == 4);
        assert("lt"@[0] == 'l' && "gt"@[0] == 'g');
        if c == '&' {
            assert("&amp;"@ =~= seq!['&'] + "amp"@ + seq![';']);
            lemma_entity("amp"@, '&', rest);
        } else if c == '<' {
            assert("&lt;"@ =~= seq!['&'] + "lt"@ + seq![';']);
            lemma_entity("lt"@, '<', rest);
        } else if c == '>' {
            assert("&gt;"@ =~= seq!['&'] + "gt"@ + seq![';']);
            lemma_entity("gt"@, '>', rest);
        } else if c == '"' {
            assert("&quot;"@ =~= seq!['&'] + "quot"@ + seq![';']);
            lemma_entity("quot"@, '"', rest);
        } else {
            let e = seq![c] + rest;
            assert(e[0] == c);
            assert(e.skip(1) =~= rest);
        }
    }
}

} // verus!
