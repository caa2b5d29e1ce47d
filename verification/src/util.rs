//! Small tools: durations, names and hashes.

use std::collections::hash_map::DefaultHasher;
use std::hash::Hasher;
use vstd::prelude::*;
use vstd::std_specs::hash::DefaultHasherAdditionalSpecFns;

use crate::outside::feed_text;
use crate::outside::hash_writes;
use crate::text::basic::chars_of;
use crate::text::basic::same;
use crate::text::basic::slice_text;
use crate::text::basic::texts;
use crate::text::number::dec;
use crate::text::number::dec_text;
use crate::text::number::padded_dec;
use crate::text::number::zero_padded;
use crate::text::split::char_replaced;
use crate::text::split::replace_char;

verus! {

/// The local time for display, such as `2026-09-09 23:50:01`, from `chrono::Local::now` and
/// `format`. Nothing is claimed of it: it is another one at each call.
#[verifier::external_body]
pub fn now_str() -> String {
    chrono::Local::now().format("%Y-%m-%d %H:%M:%S").to_string()
}

/// The local time for file names, such as `20260909_235001`, from `chrono::Local::now` and
/// `format`. Nothing is claimed of it: it is another one at each call.
#[verifier::external_body]
pub fn now_file_str() -> String {
    chrono::Local::now().format("%Y%m%d_%H%M%S").to_string()
}

/// A duration in words: `1h02m03s`, `12m03s` or `3.4s`.
pub open spec fn duration_text(ms: int) -> Seq<char> {
    let secs = ms / 1000;
    if secs >= 3600 {
        dec(secs / 3600) + "h"@ + zero_padded(dec((secs % 3600) / 60), 2) + "m"@ + zero_padded(
            dec(secs % 60),
            2,
        ) + "s"@
    } else if secs >= 60 {
        zero_padded(dec(secs / 60), 2) + "m"@ + zero_padded(dec(secs % 60), 2) + "s"@
    } else {
        dec(secs) + "."@ + dec((ms % 1000) / 100) + "s"@
    }
}

/// A duration of milliseconds in words.
pub fn fmt_duration(ms: u64) -> (r: String)
    ensures
        r@ == duration_text(ms as int),
{
    let secs: u64 = ms / 1000;
    if secs >= 3600 {
        let mut out = dec_text(secs / 3600);
        out.append("h");
        out.append(padded_dec((secs % 3600) / 60, 2).as_str());
        out.append("m");
        out.append(padded_dec(secs % 60, 2).as_str());
        out.append("s");
        out
    } else if secs >= 60 {
        let mut out = padded_dec(secs / 60, 2);
        out.append("m");
        out.append(padded_dec(secs % 60, 2).as_str());
        out.append("s");
        out
    } else {
        let mut out = dec_text(secs);
        out.append(".");
        out.append(dec_text((ms % 1000) / 100).as_str());
        out.append("s");
        out
    }
}

/// `s` as one word for a shell: in single quotes, each single quote in it written `'\''`.
pub open spec fn quoted(s: Seq<char>) -> Seq<char> {
    "'"@ + char_replaced(s, '\'', "'\\''"@) + "'"@
}

/// `s` as one word for the shell of a device.
pub fn shell_quote(s: &str) -> (r: String)
    ensures
        r@ == quoted(s@),
{
    let mut out = "'".to_string();
    out.append(replace_char(s, '\'', "'\\''").as_str());
    out.append("'");
    out
}

/// What a shell makes of a word of plain characters, single quotes and backslashes; none where
/// a quote stays open or a backslash stands at the end.
pub open spec fn shell_word(q: Seq<char>, inside: bool) -> Option<Seq<char>>
    decreases q.len(),
{
    if q.len() == 0 {
        if inside {
            None
        } else {
            Some(seq![])
        }
    } else if q[0] == '\'' {
        shell_word(q.skip(1), !inside)
    } else if !inside && q[0] == '\\' {
        if q.len() == 1 {
            None
        } else {
            match shell_word(q.skip(2), false) {
                Some(rest) => Some(seq![q[1]] + rest),
                None => None,
            }
        }
    } else {
        match shell_word(q.skip(1), inside) {
            Some(rest) => Some(seq![q[0]] + rest),
            None => None,
        }
    }
}

proof fn lemma_shell_word_quoted(s: Seq<char>, tail: Seq<char>)
    ensures
        shell_word(char_replaced(s, '\'', "'\\''"@) + tail, true) == match shell_word(tail, true) {
            Some(rest) => Some(s + rest),
            None => None,
        },
    decreases s.len(),
{
    let by = "'\\''"@;
    if s.len() == 0 {
        assert(char_replaced(s, '\'', by) + tail =~= tail);
        match shell_word(tail, true) {
            Some(rest) => {
                assert(s + rest =~= rest);
            },
            None => {},
        }
    } else {
        let d = s.drop_last();
        let c = s.last();
        let piece = if c == '\'' {
            by
        } else {
            seq![c]
        };
        let more = piece + tail;
        assert(char_replaced(s, '\'', by) + tail =~= char_replaced(d, '\'', by) + more);
        lemma_shell_word_quoted(d, more);
        if c == '\'' {
            reveal_strlit("'\\''");
            let m1 = more.skip(1);
            let m2 = m1.skip(2);
            assert(more[0] == '\'' && m1[0] == '\\' && m1[1] == '\'' && m2[0] == '\'');
            assert(m2.skip(1) =~= tail);
            assert(shell_word(more, true) == shell_word(m1, false));
            assert(shell_word(m2, false) == shell_word(tail, true));
            assert(shell_word(m1, false) == match shell_word(m2, false) {
                Some(rest) => Some(seq![m1[1]] + rest),
                None => None,
            });
        } else {
            assert(more.skip(1) =~= tail);
        }
        match shell_word(tail, true) {
            Some(rest) => {
                assert(d + (seq![c] + rest) =~= s + rest);
            },
            None => {},
        }
    }
}

/// The shell reads a quoted word as the text that was quoted.
pub proof fn lemma_shell_reads_quoted(s: Seq<char>)
    ensures
        shell_word(quoted(s), false) == Some(s),
{
    let body = char_replaced(s, '\'', "'\\''"@);
    reveal_strlit("'");
    assert(quoted(s).skip(1) =~= body + "'"@);
    lemma_shell_word_quoted(s, "'"@);
    assert("'"@.skip(1) =~= seq![]);
    assert(shell_word("'"@, true) == shell_word("'"@.skip(1), false));
    assert(s + Seq::<char>::empty() =~= s);
}

/// A line end or a blank, as they stand behind the output of a command.
pub open spec fn output_tail(c: char) -> bool {
    c == '\n' || c == '\r' || c == ' '
}

/// `s` without line ends and blanks at its end.
pub open spec fn output_trimmed(s: Seq<char>) -> Seq<char>
    decreases s.len(),
{
    if s.len() > 0 && output_tail(s.last()) {
        output_trimmed(s.drop_last())
    } else {
        s
    }
}

/// The output of a command without line ends and blanks at its end.
pub fn trim_output(s: String) -> (r: String)
    ensures
        r@ == output_trimmed(s@),
{
    let v = chars_of(s.as_str());
    let mut n: usize = v.len();
    assert(v@.take(n as int) =~= v@);
    while n > 0 && (v[n - 1] == '\n' || v[n - 1] == '\r' || v[n - 1] == ' ')
        invariant
            n <= v@.len(),
            output_trimmed(v@.take(n as int)) == output_trimmed(s@),
        decreases n,
    {
        assert(v@.take(n as int).last() == v@[n - 1]);
        assert(v@.take(n as int).drop_last() =~= v@.take(n - 1));
        n = n - 1;
    }
    let r = slice_text(v.as_slice(), 0, n);
    assert(r@ =~= v@.take(n as int));
    assert(n > 0 ==> v@.take(n as int).last() == v@[n - 1]);
    r
}

/// Nothing that is trimmed is left at the end of trimmed output, and it begins the output.
pub proof fn lemma_output_trimmed(s: Seq<char>)
    ensures
        output_trimmed(s).len() <= s.len(),
        output_trimmed(s) == s.take(output_trimmed(s).len() as int),
        output_trimmed(s).len() > 0 ==> !output_tail(output_trimmed(s).last()),
    decreases s.len(),
{
    if s.len() > 0 && output_tail(s.last()) {
        lemma_output_trimmed(s.drop_last());
        let n = output_trimmed(s).len() as int;
        assert(s.drop_last().take(n) =~= s.take(n));
    } else {
        assert(s.take(s.len() as int) =~= s);
    }
}

/// The first `n` characters, with an ellipsis where there are more.
pub open spec fn truncated(s: Seq<char>, n: int) -> Seq<char> {
    if s.len() <= n {
        s
    } else {
        s.take(n).push('…')
    }
}

/// `s`, cut behind `n` characters and marked with an ellipsis where it is longer.
pub fn truncate(s: &str, n: usize) -> (r: String)
    ensures
        r@ == truncated(s@, n as int),
{
    let v = chars_of(s);
    if v.len() <= n {
        s.to_string()
    } else {
        let mut out = slice_text(v.as_slice(), 0, n);
        assert(out@ =~= v@.take(n as int));
        out.push('…');
        out
    }
}

/// The hash of a text: what a fresh `DefaultHasher` gives once the text was written to it.
pub open spec fn hash_of(s: Seq<char>) -> u64 {
    DefaultHasher::spec_finish(hash_writes(s))
}

/// The hash of a text.
pub fn hash64(v: &str) -> (r: u64)
    ensures
        r == hash_of(v@),
{
    let mut h = DefaultHasher::new();
    feed_text(v, &mut h);
    assert(Seq::<Seq<u8>>::empty() + hash_writes(v@) =~= hash_writes(v@));
    h.finish()
}

/// An ASCII letter or digit.
pub open spec fn plain(c: char) -> bool {
    let n = c as int;
    (48 <= n <= 57) || (65 <= n <= 90) || (97 <= n <= 122)
}

/// What becomes of one character in a file name.
pub open spec fn slug_char(c: char) -> Seq<char> {
    if plain(c) || c == '-' || c == '_' {
        seq![c]
    } else if c == '.' || c == ':' || c == '/' {
        seq!['_']
    } else {
        seq![]
    }
}

/// What becomes of the characters of a text in a file name.
pub open spec fn slug_chars(s: Seq<char>) -> Seq<char>
    decreases s.len(),
{
    if s.len() == 0 {
        seq![]
    } else {
        slug_chars(s.drop_last()) + slug_char(s.last())
    }
}

/// `s` without underscores in front.
pub open spec fn underscores_off_front(s: Seq<char>) -> Seq<char>
    decreases s.len(),
{
    if s.len() > 0 && s[0] == '_' {
        underscores_off_front(s.drop_first())
    } else {
        s
    }
}

/// `s` without underscores at the end.
pub open spec fn underscores_off_back(s: Seq<char>) -> Seq<char>
    decreases s.len(),
{
    if s.len() > 0 && s.last() == '_' {
        underscores_off_back(s.drop_last())
    } else {
        s
    }
}

/// A text as a part of a file name.
pub open spec fn slug_of(s: Seq<char>) -> Seq<char> {
    let body = underscores_off_back(underscores_off_front(slug_chars(s)));
    if body.len() == 0 {
        "unknown"@
    } else {
        body
    }
}

fn is_plain(c: char) -> (r: bool)
    ensures
        r == plain(c),
{
    let n: u32 = c as u32;
    (48 <= n && n <= 57) || (65 <= n && n <= 90) || (97 <= n && n <= 122)
}

fn slug_kept(s: &str) -> (r: Vec<char>)
    ensures
        r@ == slug_chars(s@),
{
    let v = chars_of(s);
    let mut kept: Vec<char> = Vec::new();
    let mut i: usize = 0;
    assert(v@.take(0) =~= seq![]);
    while i < v.len()
        invariant
            i <= v@.len(),
            kept@ == slug_chars(v@.take(i as int)),
        decreases v@.len() - i,
    {
        let c = v[i];
        let ghost before = kept@;
        assert(v@.take(i + 1).drop_last() =~= v@.take(i as int));
        assert(v@.take(i + 1).last() == c);
        if is_plain(c) || c == '-' || c == '_' {
            kept.push(c);
            assert(kept@ =~= before + slug_char(c));
        } else if c == '.' || c == ':' || c == '/' {
            kept.push('_');
            assert(kept@ =~= before + slug_char(c));
        } else {
            assert(kept@ =~= before + slug_char(c));
        }
        i = i + 1;
    }
    assert(v@.take(i as int) =~= v@);
    kept
}

/// Any text as a part of a file name: letters, digits, hyphens and underscores stay, points,
/// colons and slashes become underscores, the rest is dropped.
pub fn slug(s: &str) -> (r: String)
    ensures
        r@ == slug_of(s@),
{
    let kept = slug_kept(s);
    let n: usize = kept.len();
    let mut a: usize = 0;
    assert(kept@.skip(0) =~= kept@);
    while a < n && kept[a] == '_'
        invariant
            a <= n,
            n == kept@.len(),
            underscores_off_front(kept@.skip(a as int)) == underscores_off_front(kept@),
        decreases n - a,
    {
        assert(kept@.skip(a as int)[0] == kept@[a as int]);
        assert(kept@.skip(a as int).drop_first() =~= kept@.skip(a + 1));
        a = a + 1;
    }
    assert(a < n ==> kept@.skip(a as int)[0] == kept@[a as int]);
    let ghost front = kept@.skip(a as int);
    let mut b: usize = n;
    assert(kept@.subrange(a as int, n as int) =~= front);
    while b > a && kept[b - 1] == '_'
        invariant
            a <= b <= n,
            n == kept@.len(),
            underscores_off_back(kept@.subrange(a as int, b as int)) == underscores_off_back(front),
        decreases b,
    {
        let ghost t = kept@.subrange(a as int, b as int);
        assert(t.last() == kept@[b - 1]);
        assert(t.drop_last() =~= kept@.subrange(a as int, b - 1));
        b = b - 1;
    }
    let ghost t = kept@.subrange(a as int, b as int);
    assert(b > a ==> t.last() == kept@[b - 1]);
    if a == b {
        return "unknown".to_string();
    }
    slice_text(kept.as_slice(), a, b)
}

/// Nothing but ASCII letters, digits, hyphens and underscores.
pub open spec fn safe_chars(s: Seq<char>) -> bool {
    forall|i: int|
        0 <= i < s.len() ==> plain(#[trigger] s[i]) || s[i] == '-' || s[i] == '_'
}

proof fn lemma_slug_chars(s: Seq<char>)
    ensures
        safe_chars(slug_chars(s)),
    decreases s.len(),
{
    if s.len() > 0 {
        let d = slug_chars(s.drop_last());
        lemma_slug_chars(s.drop_last());
        assert forall|i: int| 0 <= i < slug_chars(s).len() implies plain(
            #[trigger] slug_chars(s)[i],
        ) || slug_chars(s)[i] == '-' || slug_chars(s)[i] == '_' by {
            if i < d.len() {
                assert(slug_chars(s)[i] == d[i]);
            } else {
                assert(slug_chars(s)[i] == slug_char(s.last())[i - d.len()]);
            }
        }
    }
}

proof fn lemma_underscores_off(s: Seq<char>)
    requires
        safe_chars(s),
    ensures
        safe_chars(underscores_off_front(s)),
        safe_chars(underscores_off_back(s)),
    decreases s.len(),
{
    if s.len() > 0 {
        lemma_underscores_off(s.drop_first());
        lemma_underscores_off(s.drop_last());
    }
}

/// A slug is never empty and holds nothing but ASCII letters, digits, hyphens and underscores.
pub proof fn lemma_slug_is_safe(s: Seq<char>)
    ensures
        slug_of(s).len() > 0,
        safe_chars(slug_of(s)),
{
    reveal_strlit("unknown");
    lemma_slug_chars(s);
    lemma_underscores_off(slug_chars(s));
    lemma_underscores_off(underscores_off_front(slug_chars(s)));
}

/// The name to try at the `n`th attempt: the stem, then the stem with a number behind it.
pub open spec fn numbered(stem: Seq<char>, n: int) -> Seq<char> {
    if n <= 1 {
        stem
    } else {
        stem + "_"@ + dec(n)
    }
}

/// The first of the names from the `n`th attempt on that is not taken, up to number 999; with
/// all of them taken, the stem with the given stamp.
pub open spec fn free_name(
    stem: Seq<char>,
    taken: Seq<Seq<char>>,
    stamp: Seq<char>,
    n: int,
) -> Seq<char>
    decreases 1000 - n,
{
    if n >= 1000 {
        stem + "_"@ + stamp
    } else if !taken.contains(numbered(stem, n)) {
        numbered(stem, n)
    } else {
        free_name(stem, taken, stamp, n + 1)
    }
}

fn is_taken(taken: &Vec<String>, name: &str) -> (r: bool)
    ensures
        r == texts(taken@).contains(name@),
{
    let mut i: usize = 0;
    while i < taken.len()
        invariant
            i <= taken@.len(),
            forall|j: int| 0 <= j < i ==> texts(taken@)[j] != name@,
        decreases taken@.len() - i,
    {
        if same(taken[i].as_str(), name) {
            assert(texts(taken@)[i as int] == name@);
            return true;
        }
        i = i + 1;
    }
    false
}

/// A name for a directory that none of the `taken` names has: the stem itself where it is free,
/// else the stem with the first free number from 2 to 999, else the stem with the stamp.
pub fn unique_name(stem: &str, taken: &Vec<String>, stamp: &str) -> (r: String)
    ensures
        r@ == free_name(stem@, texts(taken@), stamp@, 1),
{
    if !is_taken(taken, stem) {
        return stem.to_string();
    }
    let mut n: u64 = 2;
    while n < 1000
        invariant
            2 <= n <= 1000,
            free_name(stem@, texts(taken@), stamp@, n as int) == free_name(
                stem@,
                texts(taken@),
                stamp@,
                1,
            ),
        decreases 1000 - n,
    {
        let mut name = stem.to_string();
        name.append("_");
        name.append(dec_text(n).as_str());
        if !is_taken(taken, name.as_str()) {
            return name;
        }
        n = n + 1;
    }
    let mut name = stem.to_string();
    name.append("_");
    name.append(stamp);
    name
}

/// A unique name is not taken as long as one of the numbered names is free.
pub proof fn lemma_free_name_is_free(
    stem: Seq<char>,
    taken: Seq<Seq<char>>,
    stamp: Seq<char>,
    n: int,
    k: int,
)
    requires
        n <= k < 1000,
        !taken.contains(numbered(stem, k)),
    ensures
        !taken.contains(free_name(stem, taken, stamp, n)),
    decreases 1000 - n,
{
    if taken.contains(numbered(stem, n)) {
        lemma_free_name_is_free(stem, taken, stamp, n + 1, k);
    }
}

} // verus!
