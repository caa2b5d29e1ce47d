//! What the replies of a device say.

use vstd::prelude::*;

use crate::monitor::line::option_text;
use crate::text::basic::chars_of;
use crate::text::basic::same;
use crate::text::basic::slice_text;
use crate::text::basic::texts;
use crate::text::number::i32_of;
use crate::text::number::parse_i32;
use crate::text::search::begins;
use crate::text::search::char_from;
use crate::text::search::contains;
use crate::text::search::find;
use crate::text::search::find_char;
use crate::text::search::find_chars;
use crate::text::search::has;
use crate::text::search::has_char;
use crate::text::search::is_space;
use crate::text::search::lemma_char_from;
use crate::text::search::lemma_find_from;
use crate::text::search::space;
use crate::text::search::starts_with;
use crate::text::search::trim;
use crate::text::search::trimmed;
use crate::text::split::lines_of;
use crate::text::split::split_char;
use crate::text::split::split_lines;
use crate::text::split::split_on;
use crate::text::split::split_words;
use crate::text::split::words_of;

verus! {

// ---------------------------------------------------------------- numbers

/// The number that a text writes; zero where it writes none.
pub open spec fn number_or_zero(s: Seq<char>) -> i32 {
    match i32_of(trimmed(s)) {
        Some(n) => n as i32,
        None => 0,
    }
}

/// The number that a text writes; zero where it writes none.
pub fn parse_or_zero(s: &str) -> (r: i32)
    ensures
        r == number_or_zero(s@),
{
    let digits = chars_of(trim(s).as_str());
    match parse_i32(digits.as_slice()) {
        Some(n) => n,
        None => 0,
    }
}

/// The level of the interface of a system, by the reply to the question for it; zero where that is
/// no number.
pub fn sdk_int(reply: &str) -> (r: i32)
    ensures
        r == number_or_zero(reply@),
{
    parse_or_zero(reply)
}

/// The last of the texts; an empty one where there is none.
pub open spec fn last_or_empty(s: Seq<Seq<char>>) -> Seq<char> {
    if s.len() == 0 {
        seq![]
    } else {
        s.last()
    }
}

fn take_last(v: &Vec<String>) -> (r: String)
    ensures
        r@ == last_or_empty(texts(v@)),
{
    if v.len() == 0 {
        let e = String::new();
        assert(e@ =~= seq![]);
        e
    } else {
        v[v.len() - 1].clone()
    }
}

/// The size of the screen by the reply to `wm size`: the last line counts, and in it what stands
/// behind the last colon, such as `1080x2400`. None where that is no size.
pub open spec fn size_of(out: Seq<char>) -> Option<(i32, i32)> {
    let parts = split_on(trimmed(last_or_empty(split_on(last_or_empty(lines_of(out)), ':'))), 'x');
    let w = number_or_zero(parts[0]);
    let h = if parts.len() > 1 {
        number_or_zero(parts[1])
    } else {
        0
    };
    if w > 0 && h > 0 {
        Some((w, h))
    } else {
        None
    }
}

/// The size of the screen by the reply to `wm size`.
pub fn screen_size(out: &str) -> (r: Option<(i32, i32)>)
    ensures
        r == size_of(out@),
{
    let line = take_last(&split_lines(out));
    let dim = trim(take_last(&split_char(line.as_str(), ':')).as_str());
    let parts = split_char(dim.as_str(), 'x');
    let w = parse_or_zero(parts[0].as_str());
    let h: i32 = if parts.len() > 1 {
        parse_or_zero(parts[1].as_str())
    } else {
        0
    };
    if w > 0 && h > 0 {
        Some((w, h))
    } else {
        None
    }
}

// ---------------------------------------------------------------- the activity in front

/// What stands in front of the first `c`; all where there is none.
pub open spec fn up_to(s: Seq<char>, c: char) -> Seq<char> {
    match char_from(s, c, 0) {
        Some(i) => s.take(i),
        None => s,
    }
}

/// The word names an activity: it holds a slash and a dot.
pub open spec fn names_activity(w: Seq<char>) -> bool {
    w.contains('/') && w.contains('.')
}

/// The first of the words that names an activity.
pub open spec fn first_activity(words: Seq<Seq<char>>) -> Option<Seq<char>>
    decreases words.len(),
{
    if words.len() == 0 {
        None
    } else if names_activity(words[0]) {
        Some(words[0])
    } else {
        first_activity(words.skip(1))
    }
}

/// The activity that a record names: the first word in front of the closing brace that does.
pub open spec fn component_in(seg: Seq<char>) -> Option<Seq<char>> {
    first_activity(words_of(up_to(seg, '}')))
}

/// The activity that a record names.
pub fn extract_component(seg: &str) -> (r: Option<String>)
    ensures
        option_text(r) == component_in(seg@),
{
    let v = chars_of(seg);
    proof {
        lemma_char_from(v@, '}', 0);
    }
    let head = match find_char(v.as_slice(), '}', 0) {
        Some(i) => slice_text(v.as_slice(), 0, i),
        None => seg.to_string(),
    };
    assert(head@ =~= up_to(seg@, '}'));
    let words = split_words(head.as_str());
    let ghost all = texts(words@);
    let mut i: usize = 0;
    assert(all.skip(0) =~= all);
    while i < words.len()
        invariant
            i <= words@.len(),
            all == texts(words@),
            first_activity(all.skip(i as int)) == component_in(seg@),
        decreases words@.len() - i,
    {
        let w = &words[i];
        proof {
            assert(all.skip(i as int)[0] == w@);
            assert(all.skip(i as int).skip(1) =~= all.skip(i + 1));
        }
        if has_char(w.as_str(), '/') && has_char(w.as_str(), '.') {
            return Some(w.clone());
        }
        i = i + 1;
    }
    None
}

/// The activity that a line names behind a key.
pub open spec fn component_behind(line: Seq<char>, key: Seq<char>) -> Option<Seq<char>> {
    match find(line, key) {
        Some(i) => component_in(line.skip(i + key.len() as int)),
        None => None,
    }
}

fn read_behind(line: &str, key: &str) -> (r: Option<String>)
    ensures
        option_text(r) == component_behind(line@, key@),
{
    let v = chars_of(line);
    let k = chars_of(key);
    proof {
        lemma_find_from(v@, k@, 0);
    }
    match find_chars(v.as_slice(), k.as_slice(), 0) {
        Some(i) => {
            let n: usize = v.len();
            assert(i + k@.len() <= n);
            let rest = slice_text(v.as_slice(), i + k.len(), n);
            assert(rest@ =~= line@.skip(i + key@.len() as int));
            extract_component(rest.as_str())
        },
        None => None,
    }
}

/// The first activity that a line names behind a key.
pub open spec fn first_behind(lines: Seq<Seq<char>>, key: Seq<char>) -> Option<Seq<char>>
    decreases lines.len(),
{
    if lines.len() == 0 {
        None
    } else {
        match component_behind(lines[0], key) {
            Some(c) => Some(c),
            None => first_behind(lines.skip(1), key),
        }
    }
}

fn search_behind(lines: &Vec<String>, key: &str) -> (r: Option<String>)
    ensures
        option_text(r) == first_behind(texts(lines@), key@),
{
    let ghost all = texts(lines@);
    let mut i: usize = 0;
    assert(all.skip(0) =~= all);
    while i < lines.len()
        invariant
            i <= lines@.len(),
            all == texts(lines@),
            first_behind(all, key@) == first_behind(all.skip(i as int), key@),
        decreases lines@.len() - i,
    {
        proof {
            assert(all.skip(i as int)[0] == lines@[i as int]@);
            assert(all.skip(i as int).skip(1) =~= all.skip(i + 1));
        }
        let found = read_behind(lines[i].as_str(), key);
        if found.is_some() {
            return found;
        }
        i = i + 1;
    }
    None
}

/// The activity in front by the reply to `dumpsys activity activities`. Systems of different age
/// write it behind different keys; a newer key counts before an older one.
pub open spec fn resumed_in(out: Seq<char>) -> Option<Seq<char>> {
    let lines = lines_of(out);
    match first_behind(lines, "topResumedActivity="@) {
        Some(c) => Some(c),
        None => match first_behind(lines, "mResumedActivity:"@) {
            Some(c) => Some(c),
            None => match first_behind(lines, "mFocusedActivity:"@) {
                Some(c) => Some(c),
                None => first_behind(lines, "mLastResumedActivity="@),
            },
        },
    }
}

/// The activity in front by the reply to `dumpsys activity activities`.
pub fn parse_resumed_activity(out: &str) -> (r: Option<String>)
    ensures
        option_text(r) == resumed_in(out@),
{
    let lines = split_lines(out);
    let a = search_behind(&lines, "topResumedActivity=");
    if a.is_some() {
        return a;
    }
    let b = search_behind(&lines, "mResumedActivity:");
    if b.is_some() {
        return b;
    }
    let c = search_behind(&lines, "mFocusedActivity:");
    if c.is_some() {
        return c;
    }
    search_behind(&lines, "mLastResumedActivity=")
}

/// The activity that a line of `dumpsys activity top` names: the first word behind `ACTIVITY `.
pub open spec fn top_of_line(line: Seq<char>) -> Option<Seq<char>> {
    let t = trimmed(line);
    if begins(t, "ACTIVITY "@) {
        let words = words_of(t.skip("ACTIVITY "@.len() as int));
        if words.len() > 0 && words[0].len() > 0 {
            Some(words[0])
        } else {
            None
        }
    } else {
        None
    }
}

/// The activity in front by the reply to `dumpsys activity top`; empty where none is named.
pub open spec fn top_in(lines: Seq<Seq<char>>) -> Seq<char>
    decreases lines.len(),
{
    if lines.len() == 0 {
        seq![]
    } else {
        match top_of_line(lines[0]) {
            Some(c) => c,
            None => top_in(lines.skip(1)),
        }
    }
}

fn read_top(line: &str) -> (r: Option<String>)
    ensures
        option_text(r) == top_of_line(line@),
{
    let t = trim(line);
    if !starts_with(t.as_str(), "ACTIVITY ") {
        return None;
    }
    proof {
        reveal_strlit("ACTIVITY ");
    }
    let v = chars_of(t.as_str());
    let n: usize = v.len();
    let rest = slice_text(v.as_slice(), 9, n);
    assert(rest@ =~= t@.skip("ACTIVITY "@.len() as int));
    let words = split_words(rest.as_str());
    assert(texts(words@).len() == words@.len());
    if words.len() > 0 && chars_of(words[0].as_str()).len() > 0 {
        Some(words[0].clone())
    } else {
        None
    }
}

/// The activity in front by the reply to `dumpsys activity top`.
pub fn top_activity(out: &str) -> (r: String)
    ensures
        r@ == top_in(lines_of(out@)),
{
    let lines = split_lines(out);
    let ghost all = texts(lines@);
    let mut i: usize = 0;
    assert(all.skip(0) =~= all);
    while i < lines.len()
        invariant
            i <= lines@.len(),
            all == texts(lines@),
            top_in(all.skip(i as int)) == top_in(lines_of(out@)),
        decreases lines@.len() - i,
    {
        proof {
            assert(all.skip(i as int)[0] == lines@[i as int]@);
            assert(all.skip(i as int).skip(1) =~= all.skip(i + 1));
        }
        if let Some(c) = read_top(lines[i].as_str()) {
            return c;
        }
        i = i + 1;
    }
    let e = String::new();
    assert(e@ =~= seq![]);
    e
}

/// The activity that opens an app by the reply to the question for it: the last line with a
/// slash.
pub open spec fn launcher_in(lines: Seq<Seq<char>>) -> Option<Seq<char>>
    decreases lines.len(),
{
    if lines.len() == 0 {
        None
    } else if lines.last().contains('/') {
        Some(trimmed(lines.last()))
    } else {
        launcher_in(lines.drop_last())
    }
}

/// The activity that opens an app by the reply to the question for it.
pub fn launcher(out: &str) -> (r: Option<String>)
    ensures
        option_text(r) == launcher_in(lines_of(out@)),
{
    let lines = split_lines(out);
    let ghost all = texts(lines@);
    let mut n: usize = lines.len();
    assert(all.take(n as int) =~= all);
    while n > 0
        invariant
            n <= lines@.len(),
            all == texts(lines@),
            launcher_in(all.take(n as int)) == launcher_in(lines_of(out@)),
        decreases n,
    {
        proof {
            assert(all.take(n as int).last() == lines@[n - 1]@);
            assert(all.take(n as int).drop_last() =~= all.take(n - 1));
        }
        if has_char(lines[n - 1].as_str(), '/') {
            return Some(trim(lines[n - 1].as_str()));
        }
        n = n - 1;
    }
    None
}

// ---------------------------------------------------------------- processes

/// The reply to `pidof` gives a process: it holds digits and blanks only, and some digit.
pub open spec fn gives_pid(out: Seq<char>) -> bool {
    let t = trimmed(out);
    t.len() > 0 && forall|i: int|
        0 <= i < t.len() ==> ('0' <= #[trigger] t[i] && t[i] <= '9') || space(t[i])
}

/// The reply to `pidof` gives a process.
pub fn has_pid(out: &str) -> (r: bool)
    ensures
        r == gives_pid(out@),
{
    let t = trim(out);
    let v = chars_of(t.as_str());
    let mut i: usize = 0;
    while i < v.len()
        invariant
            i <= v@.len(),
            v@ == trimmed(out@),
            forall|j: int| 0 <= j < i ==> ('0' <= #[trigger] v@[j] && v@[j] <= '9') || space(v@[j]),
        decreases v@.len() - i,
    {
        let c = v[i];
        if !(('0' <= c && c <= '9') || is_space(c)) {
            return false;
        }
        i = i + 1;
    }
    v.len() > 0
}

/// One of the lines is the name of the app.
pub open spec fn lists_name(lines: Seq<Seq<char>>, package: Seq<char>) -> bool {
    exists|i: int| 0 <= i < lines.len() && trimmed(#[trigger] lines[i]) == package
}

/// What the names of all processes say: whether the app is among them; none where there is no
/// name at all, so that the processes have to be listed in full.
pub fn named_process(out: &str, package: &str) -> (r: Option<bool>)
    ensures
        r == if out@.len() == 0 {
            None::<bool>
        } else {
            Some(lists_name(lines_of(out@), package@))
        },
{
    if chars_of(out).len() == 0 {
        return None;
    }
    let lines = split_lines(out);
    let ghost all = texts(lines@);
    let mut i: usize = 0;
    while i < lines.len()
        invariant
            i <= lines@.len(),
            all == texts(lines@),
            all == lines_of(out@),
            out@.len() > 0,
            forall|j: int| 0 <= j < i ==> trimmed(#[trigger] all[j]) != package@,
        decreases lines@.len() - i,
    {
        assert(all[i as int] == lines@[i as int]@);
        if same(trim(lines[i].as_str()).as_str(), package) {
            return Some(true);
        }
        i = i + 1;
    }
    Some(false)
}

/// Whether an app runs, by the replies to `pidof`, to the question for the names of all
/// processes and to that for all that is known of them. A reply counts only where those before
/// it do not tell.
pub open spec fn running_by(
    pid: Seq<char>,
    names: Seq<char>,
    all: Seq<char>,
    package: Seq<char>,
) -> bool {
    if gives_pid(pid) {
        true
    } else if names.len() > 0 {
        lists_name(lines_of(names), package)
    } else {
        has(all, package)
    }
}

/// Whether an app runs. The later replies may be left empty where an earlier one tells.
pub fn is_running(pid: &str, names: &str, all: &str, package: &str) -> (r: bool)
    ensures
        r == running_by(pid@, names@, all@, package@),
{
    if has_pid(pid) {
        return true;
    }
    match named_process(names, package) {
        Some(b) => b,
        None => contains(all, package),
    }
}

} // verus!
