//! What lines of a log lead to, in terms of what stands in them.

use vstd::prelude::*;

use crate::monitor::collect::detail_of;
use crate::monitor::collect::fed;
use crate::monitor::collect::kind_name;
use crate::monitor::collect::line_ends_off;
use crate::monitor::collect::mark_of;
use crate::monitor::collect::repeated;
use crate::monitor::collect::reports;
use crate::monitor::collect::BlockView;
use crate::monitor::collect::CollectorView;
use crate::monitor::collect::Incident;
use crate::monitor::collect::ReportView;
use crate::monitor::line::crashed_package;
use crate::monitor::line::digit_run;
use crate::monitor::line::exception_from;
use crate::monitor::line::exception_name;
use crate::monitor::line::fingerprint_of;
use crate::monitor::line::first_named;
use crate::monitor::line::item_len;
use crate::monitor::line::line_mark;
use crate::monitor::line::name_char;
use crate::monitor::line::name_end;
use crate::monitor::line::named_by;
use crate::monitor::line::package_char;
use crate::monitor::line::package_like;
use crate::monitor::line::tool_crash;
use crate::monitor::line::tool_line;
use crate::monitor::line::IncidentKind;
use crate::monitor::line::Source;
use crate::text::search::char_from;
use crate::text::search::find;
use crate::text::search::finishes;
use crate::text::search::has;
use crate::text::search::lemma_char_from;
use crate::text::search::lemma_find_from;
use crate::text::search::lemma_has_find;
use crate::text::search::occurs_at;
use crate::text::search::space;
use crate::text::search::trim_front;
use crate::text::search::trimmed;
use crate::text::split::joined;
use crate::text::split::lemma_trim_front_at;
use crate::text::split::lemma_word_len;
use crate::text::split::lines_of;
use crate::text::split::split_on;
use crate::text::split::word_len;
use crate::text::split::words_of;
use crate::text::utf8::byte_len;
use crate::util::truncated;

verus! {

/// Taking line ends off leaves a front part of the text; all behind it are line ends, and it does
/// not end in one.
pub proof fn lemma_line_ends_off(s: Seq<char>)
    ensures
        line_ends_off(s).len() <= s.len(),
        line_ends_off(s) == s.take(line_ends_off(s).len() as int),
        forall|i: int|
            line_ends_off(s).len() <= i < s.len() ==> #[trigger] s[i] == '\n' || s[i] == '\r',
        line_ends_off(s).len() > 0 ==> line_ends_off(s).last() != '\n' && line_ends_off(s).last()
            != '\r',
    decreases s.len(),
{
    if s.len() > 0 && (s.last() == '\n' || s.last() == '\r') {
        let d = s.drop_last();
        lemma_line_ends_off(d);
        let n = line_ends_off(d).len() as int;
        assert(d.take(n) =~= s.take(n));
        assert forall|i: int| n <= i < s.len() implies #[trigger] s[i] == '\n' || s[i] == '\r' by {
            if i < d.len() {
                assert(d[i] == s[i]);
            }
        }
    } else {
        assert(s.take(s.len() as int) =~= s);
    }
}

/// What does not end in a line end stands in a line with or without its line ends.
proof fn lemma_has_line(raw: Seq<char>, t: Seq<char>)
    requires
        t.len() > 0,
        t.last() != '\n',
        t.last() != '\r',
    ensures
        has(line_ends_off(raw), t) <==> has(raw, t),
{
    lemma_line_ends_off(raw);
    let line = line_ends_off(raw);
    if has(raw, t) {
        let i = choose|i: int| occurs_at(raw, t, i);
        let e = i + t.len() - 1;
        assert(raw.subrange(i, i + t.len())[t.len() - 1] == raw[e]);
        assert(raw[e] == t.last());
        assert(e < line.len());
        assert(line.subrange(i, i + t.len()) =~= raw.subrange(i, i + t.len()));
        assert(occurs_at(line, t, i));
    }
    if has(line, t) {
        let i = choose|i: int| occurs_at(line, t, i);
        assert(line.subrange(i, i + t.len()) =~= raw.subrange(i, i + t.len()));
        assert(occurs_at(raw, t, i));
    }
}

proof fn lemma_triggers(raw: Seq<char>)
    ensures
        ({
            let line = line_ends_off(raw);
            &&& has(line, "ANR in "@) <==> has(raw, "ANR in "@)
            &&& has(line, "am_anr"@) <==> has(raw, "am_anr"@)
            &&& has(line, "Input dispatching timed out"@) <==> has(
                raw,
                "Input dispatching timed out"@,
            )
            &&& has(line, "FATAL SIGNAL"@) <==> has(raw, "FATAL SIGNAL"@)
            &&& has(line, "*** ***"@) <==> has(raw, "*** ***"@)
            &&& has(line, "tombstone"@) <==> has(raw, "tombstone"@)
            &&& has(line, "FATAL EXCEPTION"@) <==> has(raw, "FATAL EXCEPTION"@)
            &&& has(line, "am_crash"@) <==> has(raw, "am_crash"@)
            &&& has(line, "AndroidRuntime:"@) <==> has(raw, "AndroidRuntime:"@)
            &&& has(line, "Shutting down VM"@) <==> has(raw, "Shutting down VM"@)
            &&& has(line, "FATAL"@) <==> has(raw, "FATAL"@)
        }),
{
    reveal_strlit("ANR in ");
    reveal_strlit("am_anr");
    reveal_strlit("Input dispatching timed out");
    reveal_strlit("FATAL SIGNAL");
    reveal_strlit("*** ***");
    reveal_strlit("tombstone");
    reveal_strlit("FATAL EXCEPTION");
    reveal_strlit("am_crash");
    reveal_strlit("AndroidRuntime:");
    reveal_strlit("Shutting down VM");
    reveal_strlit("FATAL");
    lemma_has_line(raw, "ANR in "@);
    lemma_has_line(raw, "am_anr"@);
    lemma_has_line(raw, "Input dispatching timed out"@);
    lemma_has_line(raw, "FATAL SIGNAL"@);
    lemma_has_line(raw, "*** ***"@);
    lemma_has_line(raw, "tombstone"@);
    lemma_has_line(raw, "FATAL EXCEPTION"@);
    lemma_has_line(raw, "am_crash"@);
    lemma_has_line(raw, "AndroidRuntime:"@);
    lemma_has_line(raw, "Shutting down VM"@);
    lemma_has_line(raw, "FATAL"@);
}

/// A block of the kind has just been opened by the line.
pub open spec fn just_opened(
    before: CollectorView,
    after: CollectorView,
    kind: IncidentKind,
    raw: Seq<char>,
    now: u64,
) -> bool {
    match after.pending {
        Some(b) => {
            &&& b.kind == kind
            &&& b.start == before.total + 1
            &&& b.since == now
            &&& b.hold == 2_500_000_000
            &&& b.summary == line_ends_off(raw)
            &&& after.total == before.total + 1
        },
        None => false,
    }
}

/// The headers of incidents open blocks, whatever was open before: `ANR in` and `am_anr` one of
/// an app that does not answer; else `FATAL SIGNAL` and `*** ***` one of a native crash; else
/// `FATAL EXCEPTION` and `am_crash` one of a crash.
pub proof fn lemma_headers_open_blocks(v: CollectorView, raw: Seq<char>, now: u64)
    requires
        v.total < u64::MAX - 1,
    ensures
        ({
            let after = fed(v, raw, now).1;
            let anr = has(raw, "ANR in "@) || has(raw, "am_anr"@);
            let late = has(raw, "Input dispatching timed out"@);
            let native = has(raw, "FATAL SIGNAL"@) || has(raw, "*** ***"@);
            let java = has(raw, "FATAL EXCEPTION"@) || has(raw, "am_crash"@);
            &&& anr ==> just_opened(v, after, IncidentKind::Anr, raw, now)
            &&& !anr && !late && native ==> just_opened(
                v,
                after,
                IncidentKind::NativeCrash,
                raw,
                now,
            )
            &&& !anr && !late && !native && !(has(raw, "tombstone"@)) && java ==> just_opened(
                v,
                after,
                IncidentKind::Crash,
                raw,
                now,
            )
        }),
{
    lemma_triggers(raw);
}

/// Lines that may stand within a report too open a block where none of the kind is open, and else
/// add to the one that is: `Input dispatching timed out` for an app that does not answer,
/// `tombstone` for a native crash, and the last words of `AndroidRuntime:` for a crash.
pub proof fn lemma_further_lines_add_to_blocks(v: CollectorView, raw: Seq<char>, now: u64)
    requires
        v.total < u64::MAX - 1,
    ensures
        ({
            let after = fed(v, raw, now).1;
            let anr = has(raw, "ANR in "@) || has(raw, "am_anr"@);
            let late = has(raw, "Input dispatching timed out"@);
            let native = has(raw, "FATAL SIGNAL"@) || has(raw, "*** ***"@);
            let tomb = has(raw, "tombstone"@);
            let java = has(raw, "FATAL EXCEPTION"@) || has(raw, "am_crash"@);
            let last = has(raw, "AndroidRuntime:"@) && (has(raw, "Shutting down VM"@) || has(
                raw,
                "FATAL"@,
            ));
            let kind = if late {
                IncidentKind::Anr
            } else if tomb {
                IncidentKind::NativeCrash
            } else {
                IncidentKind::Crash
            };
            let open = match v.pending {
                Some(b) => b.kind == kind,
                None => false,
            };
            !anr && (late || (!native && (tomb || (!java && last)))) ==> {
                &&& !open ==> just_opened(v, after, kind, raw, now)
                &&& open && v.total + 1 - (v.pending->0).start <= 300 ==> after.pending == Some(
                    BlockView { since: now, hold: 800_000_000, ..v.pending->0 },
                )
            }
        }),
{
    lemma_triggers(raw);
}

/// A line with nothing of an incident in it opens none. A block that is open stays as it is as
/// long as its time lasts and it is not too long, and is complete then.
pub proof fn lemma_other_lines_open_nothing(v: CollectorView, raw: Seq<char>, now: u64)
    requires
        v.total < u64::MAX - 1,
        !(has(raw, "ANR in "@)),
        !(has(raw, "am_anr"@)),
        !(has(raw, "Input dispatching timed out"@)),
        !(has(raw, "FATAL SIGNAL"@)),
        !(has(raw, "*** ***"@)),
        !(has(raw, "tombstone"@)),
        !(has(raw, "FATAL EXCEPTION"@)),
        !(has(raw, "am_crash"@)),
        !(has(raw, "AndroidRuntime:"@) && (has(raw, "Shutting down VM"@) || has(raw, "FATAL"@))),
    ensures
        ({
            let after = fed(v, raw, now).1;
            match v.pending {
                None => after.pending is None && fed(v, raw, now).0 is None,
                Some(b) => {
                    let over = (now >= b.since && now - b.since >= b.hold) || (b.hold == 0) || (
                    v.total + 1 - b.start > 300);
                    &&& !over ==> after.pending == Some(b) && fed(v, raw, now).0 is None
                    &&& over ==> after.pending is None && fed(v, raw, now).0 is Some && (fed(
                        v,
                        raw,
                        now,
                    ).0->0).1 == b
                },
            }
        }),
{
    lemma_triggers(raw);
}

/// Every line is kept, in the order in which it came, without its line ends; only the first of
/// more than 800 is given up.
pub proof fn lemma_lines_are_kept(v: CollectorView, raw: Seq<char>, now: u64)
    requires
        v.total < u64::MAX - 1,
    ensures
        fed(v, raw, now).1.window == if v.window.len() < 800 {
            v.window.push(line_ends_off(raw))
        } else {
            v.window.push(line_ends_off(raw)).skip(1)
        },
        fed(v, raw, now).1.total == v.total + 1,
        fed(v, raw, now).1.package == v.package,
{
}

// ---------------------------------------------------------------- who crashed

/// A letter of the Latin alphabet without marks.
pub open spec fn plain_letter(c: char) -> bool {
    (65 <= c as int <= 90) || (97 <= c as int <= 122)
}

/// The name of an app: letters, digits, underscores and points, a letter first and a point among
/// them.
pub open spec fn app_name(p: Seq<char>) -> bool {
    &&& p.len() > 0
    &&& plain_letter(p[0])
    &&& p.contains('.')
    &&& forall|i: int|
        0 <= i < p.len() ==> plain_letter(#[trigger] p[i]) || 48 <= p[i] as int <= 57 || p[i] == '.'
            || p[i] == '_'
}

/// A text is trimmed where neither end is white space.
proof fn lemma_trimmed_already(p: Seq<char>)
    requires
        p.len() > 0,
        !space(p[0]),
        !space(p.last()),
    ensures
        trimmed(p) == p,
        trim_front(p) == p,
{
}

/// What looks like the name of an app is just that.
pub proof fn lemma_names_of_apps(p: Seq<char>)
    ensures
        app_name(p) ==> package_like(p) && trimmed(p) == p,
        package_like(p) ==> app_name(trimmed(p)),
{
    if app_name(p) {
        assert forall|i: int| 0 <= i < p.len() implies !space(#[trigger] p[i]) by {}
        lemma_trimmed_already(p);
        assert forall|i: int| 0 <= i < p.len() implies package_char(#[trigger] p[i]) by {
            assert(plain_letter(p[i]) || 48 <= p[i] as int <= 57 || p[i] == '.' || p[i] == '_');
        }
    }
    if package_like(p) {
        let t = trimmed(p);
        assert forall|i: int| 0 <= i < t.len() implies plain_letter(#[trigger] t[i]) || 48
            <= t[i] as int <= 57 || t[i] == '.' || t[i] == '_' by {
            assert(package_char(t[i]));
        }
    }
}

proof fn lemma_found_first(line: Seq<char>, pat: Seq<char>, at: int)
    requires
        occurs_at(line, pat, at),
        forall|i: int| 0 <= i < at ==> !occurs_at(line, pat, i),
    ensures
        find(line, pat) == Some(at),
{
    lemma_find_from(line, pat, 0);
}

proof fn lemma_item(p: Seq<char>, rest: Seq<char>)
    requires
        forall|i: int| 0 <= i < p.len() ==> #[trigger] p[i] != ',' && !space(p[i]),
        rest.len() == 0 || rest[0] == ',' || space(rest[0]),
    ensures
        item_len(p + rest) == p.len(),
    decreases p.len(),
{
    if p.len() == 0 {
        assert(p + rest =~= rest);
    } else {
        let q = p.skip(1);
        assert forall|i: int| 0 <= i < q.len() implies #[trigger] q[i] != ',' && !space(q[i]) by {
            assert(q[i] == p[i + 1]);
        }
        lemma_item(q, rest);
        assert((p + rest).skip(1) =~= q + rest);
        assert((p + rest)[0] == p[0]);
    }
}

/// `Process: ` in a line names the app behind it, up to a comma or white space.
pub proof fn lemma_process_names_app(pre: Seq<char>, p: Seq<char>, rest: Seq<char>)
    requires
        app_name(p),
        rest.len() == 0 || rest[0] == ',' || space(rest[0]),
        forall|i: int|
            0 <= i < pre.len() ==> !occurs_at(pre + "Process: "@ + p + rest, "Process:"@, i),
    ensures
        named_by(pre + "Process: "@ + p + rest, Source::Process) == Some(p),
{
    reveal_strlit("Process: ");
    reveal_strlit("Process:");
    let line = pre + "Process: "@ + p + rest;
    let n = pre.len() as int;
    assert(line.subrange(n, n + 8) =~= "Process:"@);
    lemma_found_first(line, "Process:"@, n);
    let tail = line.skip(n + 8);
    assert(tail =~= " "@ + p + rest) by {
        reveal_strlit(" ");
    }
    reveal_strlit(" ");
    lemma_names_of_apps(p);
    assert(!space(p[0]));
    assert(tail[0] == ' ' && tail[1] == p[0]);
    lemma_trim_front_at(tail, 1);
    assert(tail.skip(1) =~= p + rest);
    assert forall|i: int| 0 <= i < p.len() implies #[trigger] p[i] != ',' && !space(p[i]) by {}
    lemma_item(p, rest);
    assert((p + rest).take(p.len() as int) =~= p);
}

/// `ANR in ` in a line names the app behind it, up to white space.
pub proof fn lemma_anr_names_app(pre: Seq<char>, p: Seq<char>, rest: Seq<char>)
    requires
        app_name(p),
        rest.len() == 0 || space(rest[0]),
        forall|i: int|
            0 <= i < pre.len() ==> !occurs_at(pre + "ANR in "@ + p + rest, "ANR in "@, i),
    ensures
        named_by(pre + "ANR in "@ + p + rest, Source::Anr) == Some(p),
{
    reveal_strlit("ANR in ");
    let line = pre + "ANR in "@ + p + rest;
    let n = pre.len() as int;
    assert(line.subrange(n, n + 7) =~= "ANR in "@);
    lemma_found_first(line, "ANR in "@, n);
    assert(line.skip(n + 7) =~= p + rest);
    lemma_names_of_apps(p);
    let t = p + rest;
    assert(!space(t[0]));
    assert(trim_front(t) == t);
    lemma_word_len(t);
    let k = word_len(t);
    assert(k == p.len()) by {
        if k < p.len() {
            assert(t[k] == p[k]);
            assert(!space(p[k]));
        }
        if k > p.len() {
            assert(t[p.len() as int] == rest[0]);
        }
    }
    assert(t.take(k) =~= p);
    assert(words_of(t)[0] == p);
}

proof fn lemma_split_first(a: Seq<char>, rest: Seq<char>, c: char)
    requires
        !a.contains(c),
    ensures
        split_on(a + seq![c] + rest, c) == seq![a] + split_on(rest, c),
{
    let s = a + seq![c] + rest;
    let n = a.len() as int;
    lemma_char_from(s, c, 0);
    assert(s[n] == c);
    assert forall|i: int| 0 <= i < n implies s[i] != c by {
        assert(s[i] == a[i]);
        assert(a.contains(a[i]));
    }
    assert(char_from(s, c, 0) == Some(n));
    assert(s.take(n) =~= a);
    assert(s.skip(n + 1) =~= rest);
}

/// `am_crash` and `am_anr` name the app in the third place of the list in brackets.
pub proof fn lemma_event_names_app(
    pre: Seq<char>,
    a: Seq<char>,
    b: Seq<char>,
    p: Seq<char>,
    rest: Seq<char>,
    post: Seq<char>,
)
    requires
        app_name(p),
        has(pre, "am_crash"@) || has(pre, "am_anr"@),
        !pre.contains('['),
        !pre.contains(']'),
        !a.contains(']'),
        !b.contains(']'),
        !rest.contains(']'),
        !a.contains(','),
        !b.contains(','),
    ensures
        named_by(
            pre + seq!['['] + (a + seq![','] + (b + seq![','] + (p + seq![','] + rest))) + seq![']']
                + post,
            Source::Event,
        ) == Some(p),
{
    let inner = a + seq![','] + (b + seq![','] + (p + seq![','] + rest));
    let line = pre + seq!['['] + inner + seq![']'] + post;
    lemma_names_of_apps(p);
    assert(!p.contains(',')) by {
        if p.contains(',') {
            let i = choose|i: int| 0 <= i < p.len() && p[i] == ',';
            assert(plain_letter(p[i]) || 48 <= p[i] as int <= 57 || p[i] == '.' || p[i] == '_');
        }
    }
    assert(!p.contains(']')) by {
        if p.contains(']') {
            let i = choose|i: int| 0 <= i < p.len() && p[i] == ']';
            assert(plain_letter(p[i]) || 48 <= p[i] as int <= 57 || p[i] == '.' || p[i] == '_');
        }
    }
    let n = pre.len() as int;
    let m = n + 1 + inner.len();
    lemma_char_from(line, '[', 0);
    lemma_char_from(line, ']', 0);
    assert(line[n] == '[' && line[m] == ']');
    assert forall|i: int| 0 <= i < n implies line[i] != '[' && line[i] != ']' by {
        assert(line[i] == pre[i]);
        assert(pre.contains(pre[i]));
    }
    assert forall|i: int| n < i < m implies line[i] != ']' by {
        let j = i - n - 1;
        assert(line[i] == inner[j]);
        let x = a.len() as int;
        let y = x + 1 + b.len();
        let z = y + 1 + p.len();
        if j < x {
            assert(inner[j] == a[j] && a.contains(a[j]));
        } else if x < j < y {
            assert(inner[j] == b[j - x - 1] && b.contains(b[j - x - 1]));
        } else if y < j < z {
            assert(inner[j] == p[j - y - 1] && p.contains(p[j - y - 1]));
        } else if j > z {
            assert(inner[j] == rest[j - z - 1] && rest.contains(rest[j - z - 1]));
        }
    }
    assert(char_from(line, '[', 0) == Some(n));
    assert(char_from(line, ']', 0) == Some(m));
    assert(line.subrange(n + 1, m) =~= inner);
    lemma_split_first(a, b + seq![','] + (p + seq![','] + rest), ',');
    lemma_split_first(b, p + seq![','] + rest, ',');
    lemma_split_first(p, rest, ',');
    let f = split_on(inner, ',');
    assert(f == seq![a] + (seq![b] + (seq![p] + split_on(rest, ','))));
    assert(f[2] == p);
    lemma_has_front(pre, seq!['['] + inner + seq![']'] + post, "am_crash"@);
    lemma_has_front(pre, seq!['['] + inner + seq![']'] + post, "am_anr"@);
    assert(line =~= pre + (seq!['['] + inner + seq![']'] + post));
}

proof fn lemma_has_front(a: Seq<char>, b: Seq<char>, x: Seq<char>)
    ensures
        has(a, x) ==> has(a + b, x),
{
    if has(a, x) {
        let i = choose|i: int| occurs_at(a, x, i);
        assert((a + b).subrange(i, i + x.len()) =~= a.subrange(i, i + x.len()));
        assert(occurs_at(a + b, x, i));
    }
}

proof fn lemma_first_named_is(lines: Seq<Seq<char>>, source: Source, i: int, p: Seq<char>)
    requires
        0 <= i < lines.len(),
        named_by(lines[i], source) == Some(p),
        forall|j: int| 0 <= j < i ==> named_by(#[trigger] lines[j], source) is None,
    ensures
        first_named(lines, source) == Some(p),
    decreases lines.len(),
{
    let d = lines.drop_last();
    if i < d.len() {
        assert(d[i] == lines[i]);
        assert forall|j: int| 0 <= j < i implies named_by(#[trigger] d[j], source) is None by {
            assert(d[j] == lines[j]);
        }
        lemma_first_named_is(d, source, i, p);
    } else {
        assert forall|j: int| 0 <= j < d.len() implies named_by(
            #[trigger] d[j],
            source,
        ) is None by {
            assert(d[j] == lines[j]);
        }
        lemma_none_named(d, source);
    }
}

proof fn lemma_none_named(lines: Seq<Seq<char>>, source: Source)
    requires
        forall|j: int| 0 <= j < lines.len() ==> named_by(#[trigger] lines[j], source) is None,
    ensures
        first_named(lines, source) is None,
    decreases lines.len(),
{
    if lines.len() > 0 {
        let d = lines.drop_last();
        assert forall|j: int| 0 <= j < d.len() implies named_by(
            #[trigger] d[j],
            source,
        ) is None by {
            assert(d[j] == lines[j]);
        }
        lemma_none_named(d, source);
        assert(named_by(lines[lines.len() - 1], source) is None);
    }
}

/// Who crashed is whom the first line with `Process:` names; where none does, the first with
/// `am_crash` or `am_anr`; where none does, the first with `ANR in`.
pub proof fn lemma_who_crashed(detail: Seq<char>, i: int, p: Seq<char>)
    requires
        0 <= i < lines_of(detail).len(),
    ensures
        ({
            let lines = lines_of(detail);
            let no_process = forall|j: int|
                0 <= j < lines.len() ==> named_by(#[trigger] lines[j], Source::Process) is None;
            let no_event = forall|j: int|
                0 <= j < lines.len() ==> named_by(#[trigger] lines[j], Source::Event) is None;
            &&& named_by(lines[i], Source::Process) == Some(p) && (forall|j: int|
                0 <= j < i ==> named_by(#[trigger] lines[j], Source::Process) is None)
                ==> crashed_package(detail) == Some(p)
            &&& no_process && named_by(lines[i], Source::Event) == Some(p) && (forall|j: int|
                0 <= j < i ==> named_by(#[trigger] lines[j], Source::Event) is None)
                ==> crashed_package(detail) == Some(p)
            &&& no_process && no_event && named_by(lines[i], Source::Anr) == Some(p) && (forall|
                j: int,
            |
                0 <= j < i ==> named_by(#[trigger] lines[j], Source::Anr) is None)
                ==> crashed_package(detail) == Some(p)
        }),
{
    let lines = lines_of(detail);
    if named_by(lines[i], Source::Process) == Some(p) && (forall|j: int|
        0 <= j < i ==> named_by(#[trigger] lines[j], Source::Process) is None) {
        lemma_first_named_is(lines, Source::Process, i, p);
    }
    if forall|j: int|
        0 <= j < lines.len() ==> named_by(#[trigger] lines[j], Source::Process) is None {
        lemma_none_named(lines, Source::Process);
        if named_by(lines[i], Source::Event) == Some(p) && (forall|j: int|
            0 <= j < i ==> named_by(#[trigger] lines[j], Source::Event) is None) {
            lemma_first_named_is(lines, Source::Event, i, p);
        }
        if forall|j: int|
            0 <= j < lines.len() ==> named_by(#[trigger] lines[j], Source::Event) is None {
            lemma_none_named(lines, Source::Event);
            if named_by(lines[i], Source::Anr) == Some(p) && (forall|j: int|
                0 <= j < i ==> named_by(#[trigger] lines[j], Source::Anr) is None) {
                lemma_first_named_is(lines, Source::Anr, i, p);
            }
        }
    }
}

/// Where no line names an app, a native crash names it between `>>> ` and ` <<<`.
pub proof fn lemma_native_crash_names_app(pre: Seq<char>, p: Seq<char>, post: Seq<char>)
    requires
        app_name(p),
        forall|i: int|
            0 <= i < pre.len() ==> !occurs_at(pre + ">>> "@ + p + " <<<"@ + post, ">>> "@, i),
        forall|j: int|
            0 <= j < lines_of(pre + ">>> "@ + p + " <<<"@ + post).len() ==> named_by(
                #[trigger] lines_of(pre + ">>> "@ + p + " <<<"@ + post)[j],
                Source::Process,
            ) is None && named_by(
                lines_of(pre + ">>> "@ + p + " <<<"@ + post)[j],
                Source::Event,
            ) is None && named_by(lines_of(pre + ">>> "@ + p + " <<<"@ + post)[j], Source::Anr)
                is None,
    ensures
        crashed_package(pre + ">>> "@ + p + " <<<"@ + post) == Some(p),
{
    reveal_strlit(">>> ");
    reveal_strlit(" <<<");
    let detail = pre + ">>> "@ + p + " <<<"@ + post;
    let lines = lines_of(detail);
    lemma_none_named(lines, Source::Process);
    lemma_none_named(lines, Source::Event);
    lemma_none_named(lines, Source::Anr);
    let n = pre.len() as int;
    assert(detail.subrange(n, n + 4) =~= ">>> "@);
    lemma_found_first(detail, ">>> "@, n);
    let rest = detail.skip(n + 4);
    assert(rest =~= p + " <<<"@ + post);
    let m = p.len() as int;
    assert(rest.subrange(m, m + 4) =~= " <<<"@);
    lemma_names_of_apps(p);
    assert forall|i: int| 0 <= i < m implies !occurs_at(rest, " <<<"@, i) by {
        if occurs_at(rest, " <<<"@, i) {
            assert(rest.subrange(i, i + 4)[0] == rest[i]);
            assert(rest[i] == p[i]);
            assert(!space(p[i]));
        }
    }
    lemma_found_first(rest, " <<<"@, m);
    assert(rest.take(m) =~= p);
}

// ---------------------------------------------------------------- which incident it is

proof fn lemma_digits(d: Seq<char>, rest: Seq<char>)
    requires
        forall|i: int| 0 <= i < d.len() ==> 48 <= #[trigger] d[i] as int <= 57,
        rest.len() == 0 || !(48 <= rest[0] as int <= 57),
    ensures
        digit_run(d + rest) == d.len(),
    decreases d.len(),
{
    if d.len() == 0 {
        assert(d + rest =~= rest);
    } else {
        let q = d.skip(1);
        assert forall|i: int| 0 <= i < q.len() implies 48 <= #[trigger] q[i] as int <= 57 by {
            assert(q[i] == d[i + 1]);
        }
        lemma_digits(q, rest);
        assert((d + rest).skip(1) =~= q + rest);
        assert((d + rest)[0] == d[0]);
    }
}

/// A signal is what tells a native crash: the digits behind `FATAL SIGNAL `.
pub proof fn lemma_signal_tells(pre: Seq<char>, d: Seq<char>, rest: Seq<char>)
    requires
        d.len() > 0,
        forall|i: int| 0 <= i < d.len() ==> 48 <= #[trigger] d[i] as int <= 57,
        rest.len() == 0 || !(48 <= rest[0] as int <= 57),
        forall|i: int|
            0 <= i < pre.len() ==> !occurs_at(
                pre + "FATAL SIGNAL "@ + d + rest,
                "FATAL SIGNAL"@,
                i,
            ),
    ensures
        line_mark(pre + "FATAL SIGNAL "@ + d + rest) == Some("signal-"@ + d),
{
    reveal_strlit("FATAL SIGNAL ");
    reveal_strlit("FATAL SIGNAL");
    let line = pre + "FATAL SIGNAL "@ + d + rest;
    let n = pre.len() as int;
    assert(line.subrange(n, n + 12) =~= "FATAL SIGNAL"@);
    lemma_found_first(line, "FATAL SIGNAL"@, n);
    let tail = line.skip(n + 12);
    assert(tail[0] == ' ' && tail[1] == d[0]);
    assert(!space(d[0]));
    lemma_trim_front_at(tail, 1);
    assert(tail.skip(1) =~= d + rest);
    lemma_digits(d, rest);
    assert((d + rest).take(d.len() as int) =~= d);
}

/// The name at the place is the longest that stands there.
pub open spec fn whole_name(s: Seq<char>, a: int, b: int) -> bool {
    &&& 0 <= a < b <= s.len()
    &&& forall|i: int| a <= i < b ==> name_char(#[trigger] s[i])
    &&& b < s.len() ==> !name_char(s[b])
    &&& a > 0 ==> !name_char(s[a - 1])
}

/// The name ends as names of exceptions do, and is longer than eight bytes.
pub open spec fn names_exception(s: Seq<char>) -> bool {
    byte_len(s) > 8 && (finishes(s, "Exception"@) || finishes(s, "Error"@))
}

proof fn lemma_name_end(s: Seq<char>, i: int)
    requires
        0 <= i <= s.len(),
    ensures
        i <= name_end(s, i) <= s.len(),
        forall|j: int| i <= j < name_end(s, i) ==> name_char(#[trigger] s[j]),
        name_end(s, i) < s.len() ==> !name_char(s[name_end(s, i)]),
    decreases s.len() - i,
{
    if i < s.len() && name_char(s[i]) {
        lemma_name_end(s, i + 1);
    }
}

proof fn lemma_exception_from(s: Seq<char>, i: int)
    requires
        0 <= i <= s.len(),
        i > 0 && i < s.len() && name_char(s[i]) ==> !name_char(s[i - 1]),
    ensures
        match exception_from(s, i) {
            Some(name) => exists|a: int, b: int|
                i <= a && #[trigger] whole_name(s, a, b) && name == s.subrange(a, b)
                    && names_exception(name) && forall|c: int, d: int|
                    i <= c < a && #[trigger] whole_name(s, c, d) ==> !names_exception(
                        s.subrange(c, d),
                    ),
            None => forall|c: int, d: int|
                i <= c && #[trigger] whole_name(s, c, d) ==> !names_exception(s.subrange(c, d)),
        },
    decreases s.len() - i,
{
    if i < s.len() {
        if !name_char(s[i]) {
            lemma_exception_from(s, i + 1);
        } else {
            lemma_name_end(s, i);
            let e = name_end(s, i);
            assert(whole_name(s, i, e));
            assert forall|c: int, d: int| i <= c < e && #[trigger] whole_name(s, c, d) implies c
                == i && d == e by {
                if c > i {
                    assert(name_char(s[c - 1]));
                }
                if d < e {
                    assert(name_char(s[d]));
                }
                if d > e {
                    assert(name_char(s[e]));
                }
            }
            if !exception_name(s.subrange(i, e)) {
                lemma_exception_from(s, e);
                if let Some(name) = exception_from(s, e) {
                    let (a, b) = choose|a: int, b: int|
                        e <= a && #[trigger] whole_name(s, a, b) && name == s.subrange(a, b)
                            && names_exception(name) && forall|c: int, d: int|
                            e <= c < a && #[trigger] whole_name(s, c, d) ==> !names_exception(
                                s.subrange(c, d),
                            );
                    assert(whole_name(s, a, b));
                }
            }
        }
    }
}

/// Else the first whole name in a line that ends in `Exception` or `Error` tells the incident.
pub proof fn lemma_exception_tells(line: Seq<char>)
    requires
        !(has(line, "FATAL SIGNAL"@)),
    ensures
        match line_mark(line) {
            Some(name) => exists|a: int, b: int|
                #[trigger] whole_name(line, a, b) && name == line.subrange(a, b) && names_exception(
                    name,
                ) && forall|c: int, d: int|
                    0 <= c < a && #[trigger] whole_name(line, c, d) ==> !names_exception(
                        line.subrange(c, d),
                    ),
            None => forall|c: int, d: int|
                #[trigger] whole_name(line, c, d) ==> !names_exception(line.subrange(c, d)),
        },
{
    lemma_has_find(line, "FATAL SIGNAL"@);
    lemma_exception_from(line, 0);
}

/// Two reports are of one incident if and only if they are of the same kind and tell the same: the
/// same signal, the same exception, or neither of them.
pub proof fn lemma_marks_tell(
    package: Seq<char>,
    a: BlockView,
    x: Seq<char>,
    b: BlockView,
    y: Seq<char>,
)
    requires
        fingerprint_of(x) != Some("unknown"@),
        fingerprint_of(y) != Some("unknown"@),
    ensures
        mark_of(package, a, x) == mark_of(package, b, y) <==> a.kind == b.kind && fingerprint_of(x)
            == fingerprint_of(y),
{
    reveal_strlit("Crash");
    reveal_strlit("Anr");
    reveal_strlit("NativeCrash");
    let p = mark_of(package, a, x);
    let q = mark_of(package, b, y);
    let f = match fingerprint_of(x) {
        Some(f) => f,
        None => "unknown"@,
    };
    let g = match fingerprint_of(y) {
        Some(f) => f,
        None => "unknown"@,
    };
    assert(p[0] == match a.kind {
        IncidentKind::Crash => 'C',
        IncidentKind::Anr => 'A',
        IncidentKind::NativeCrash => 'N',
    });
    assert(q[0] == match b.kind {
        IncidentKind::Crash => 'C',
        IncidentKind::Anr => 'A',
        IncidentKind::NativeCrash => 'N',
    });
    if a.kind == b.kind {
        let head = kind_name(a.kind) + "|"@ + package + "|"@;
        assert(p == head + f && q == head + g);
        if p == q {
            assert(p.skip(head.len() as int) =~= f);
            assert(q.skip(head.len() as int) =~= g);
        }
    }
}

// ---------------------------------------------------------------- what is reported

/// Something with the mark was reported less than five seconds ago, and nothing with it since.
pub open spec fn just_reported(recent: Seq<ReportView>, mark: Seq<char>, now: u64) -> bool {
    exists|i: int|
        0 <= i < recent.len() && (#[trigger] recent[i]).mark == mark && (now <= recent[i].at || now
            - recent[i].at < 5_000_000_000) && forall|j: int|
            i < j < recent.len() ==> (#[trigger] recent[j]).mark != mark
}

proof fn lemma_repeated(recent: Seq<ReportView>, mark: Seq<char>, now: u64)
    ensures
        repeated(recent, mark, now) <==> just_reported(recent, mark, now),
    decreases recent.len(),
{
    if recent.len() > 0 {
        let d = recent.drop_last();
        let last = recent.len() - 1;
        lemma_repeated(d, mark, now);
        if recent.last().mark == mark {
            if just_reported(recent, mark, now) {
                let i = choose|i: int|
                    0 <= i < recent.len() && (#[trigger] recent[i]).mark == mark && (now
                        <= recent[i].at || now - recent[i].at < 5_000_000_000) && forall|j: int|
                        i < j < recent.len() ==> (#[trigger] recent[j]).mark != mark;
                assert(i == last) by {
                    if i < last {
                        assert(recent[last].mark != mark);
                    }
                }
            }
            if repeated(recent, mark, now) {
                assert(recent[last].mark == mark);
            }
        } else {
            if just_reported(recent, mark, now) {
                let i = choose|i: int|
                    0 <= i < recent.len() && (#[trigger] recent[i]).mark == mark && (now
                        <= recent[i].at || now - recent[i].at < 5_000_000_000) && forall|j: int|
                        i < j < recent.len() ==> (#[trigger] recent[j]).mark != mark;
                assert(d[i] == recent[i]);
                assert forall|j: int| i < j < d.len() implies (#[trigger] d[j]).mark != mark by {
                    assert(d[j] == recent[j]);
                }
            }
            if just_reported(d, mark, now) {
                let i = choose|i: int|
                    0 <= i < d.len() && (#[trigger] d[i]).mark == mark && (now <= d[i].at || now
                        - d[i].at < 5_000_000_000) && forall|j: int|
                        i < j < d.len() ==> (#[trigger] d[j]).mark != mark;
                assert(recent[i] == d[i]);
                assert forall|j: int| i < j < recent.len() implies (#[trigger] recent[j]).mark
                    != mark by {
                    if j < d.len() {
                        assert(d[j] == recent[j]);
                    }
                }
            }
        }
    }
}

/// What is reported of a block that is complete. It is reported if and only if there is something in
/// it, it is of the app under test, and the same was not reported less than five seconds ago. It is
/// of the app under test where none is given; else where no line is of the stack of a command that a
/// test runs itself, and the app that the lines name is the one, or they name none and the app
/// occurs in them or in the first line. The report has the kind of the block and all its lines.
pub proof fn lemma_what_is_reported(
    v: CollectorView,
    b: BlockView,
    end: int,
    now: u64,
    r: Option<Incident>,
)
    requires
        reports(r, Some((v, b, end)), now),
        v.window.len() <= v.total,
        v.total - v.window.len() < b.start <= end <= v.total + 1,
    ensures
        ({
            let first = v.total - v.window.len() + 1;
            let d = joined(v.window.subrange(b.start - first, end - first), "\n"@);
            let some = exists|i: int| 0 <= i < d.len() && !space(#[trigger] d[i]);
            let tool = exists|i: int|
                0 <= i < lines_of(d).len() && (has(
                    #[trigger] lines_of(d)[i],
                    "at com.android.commands."@,
                ) || has(lines_of(d)[i], "at com.android.uiautomator."@));
            let own = v.package.len() == 0 || (!tool && match crashed_package(d) {
                Some(p) => p == v.package,
                None => has(d, v.package) || has(b.summary, v.package),
            });
            &&& r is Some <==> some && own && !just_reported(
                v.recent,
                mark_of(v.package, b, d),
                now,
            )
            &&& r is Some ==> r->0@.kind == b.kind && r->0@.detail == d && r->0@.package
                == v.package && r->0@.summary == truncated(trimmed(b.summary), 160)
                && r->0@.file is None && r->0@.step is None && r->0@.shot is None
        }),
{
    let first = v.total - v.window.len() + 1;
    let d = joined(v.window.subrange(b.start - first, end - first), "\n"@);
    assert(detail_of(v, b, end) == d);
    lemma_repeated(v.recent, mark_of(v.package, b, d), now);
    let lines = lines_of(d);
    if tool_crash(d) {
        let i = choose|i: int| 0 <= i < lines.len() && tool_line(#[trigger] lines[i]);
        assert(has(lines[i], "at com.android.commands."@) || has(
            lines[i],
            "at com.android.uiautomator."@,
        ));
    }
    if exists|i: int|
        0 <= i < lines.len() && (has(#[trigger] lines[i], "at com.android.commands."@) || has(
            lines[i],
            "at com.android.uiautomator."@,
        )) {
        let i = choose|i: int|
            0 <= i < lines.len() && (has(#[trigger] lines[i], "at com.android.commands."@) || has(
                lines[i],
                "at com.android.uiautomator."@,
            ));
        assert(tool_line(lines[i]));
    }
}

} // verus!
