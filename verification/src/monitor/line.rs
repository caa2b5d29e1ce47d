//! What single lines of a log say.

use vstd::prelude::*;

use crate::outside::alphanumeric;
use crate::text::basic::chars_of;
use crate::text::basic::slice_text;
use crate::text::basic::texts;
use crate::text::number::digit_of;
use crate::text::search::char_from;
use crate::text::search::contains;
use crate::text::search::ends_with;
use crate::text::search::find;
use crate::text::search::find_char;
use crate::text::search::find_chars;
use crate::text::search::finishes;
use crate::text::search::has;
use crate::text::search::is_space;
use crate::text::search::skip_space;
use crate::text::search::space;
use crate::text::search::trim;
use crate::text::search::trim_front;
use crate::text::search::trimmed;
use crate::text::split::lemma_trim_front_at;
use crate::text::split::lines_of;
use crate::text::split::split_char;
use crate::text::split::split_lines;
use crate::text::split::split_on;
use crate::text::split::split_words;
use crate::text::split::words_of;
use crate::text::utf8::byte_len;
use crate::text::utf8::longer_than;

verus! {

/// What went wrong.
#[derive(Debug, Clone, Copy, PartialEq, Eq, Structural)]
pub enum IncidentKind {
    Crash,
    Anr,
    NativeCrash,
}

pub open spec fn kind_text(k: IncidentKind) -> Seq<char> {
    match k {
        IncidentKind::Crash => "crash"@,
        IncidentKind::Anr => "anr"@,
        IncidentKind::NativeCrash => "native_crash"@,
    }
}

pub open spec fn kind_cn_text(k: IncidentKind) -> Seq<char> {
    match k {
        IncidentKind::Crash => "Java 崩溃"@,
        IncidentKind::Anr => "ANR"@,
        IncidentKind::NativeCrash => "Native 崩溃"@,
    }
}

impl IncidentKind {
    pub fn as_str(&self) -> (r: &'static str)
        ensures
            r@ == kind_text(*self),
    {
        match self {
            IncidentKind::Crash => "crash",
            IncidentKind::Anr => "anr",
            IncidentKind::NativeCrash => "native_crash",
        }
    }

    /// The Chinese name, for reports.
    pub fn cn(&self) -> (r: &'static str)
        ensures
            r@ == kind_cn_text(*self),
    {
        match self {
            IncidentKind::Crash => "Java 崩溃",
            IncidentKind::Anr => "ANR",
            IncidentKind::NativeCrash => "Native 崩溃",
        }
    }
}

/// What a line tells of an incident: its kind, and whether the line opens a new one. One that
/// does not adds to an incident that is under way.
pub open spec fn class_of(line: Seq<char>) -> Option<(IncidentKind, bool)> {
    if has(line, "ANR in "@) || has(line, "am_anr"@) {
        Some((IncidentKind::Anr, true))
    } else if has(line, "Input dispatching timed out"@) {
        Some((IncidentKind::Anr, false))
    } else if has(line, "FATAL SIGNAL"@) || has(line, "*** ***"@) {
        Some((IncidentKind::NativeCrash, true))
    } else if has(line, "tombstone"@) {
        Some((IncidentKind::NativeCrash, false))
    } else if has(line, "FATAL EXCEPTION"@) || has(line, "am_crash"@) {
        Some((IncidentKind::Crash, true))
    } else if has(line, "AndroidRuntime:"@) && (has(line, "Shutting down VM"@) || has(
        line,
        "FATAL"@,
    )) {
        Some((IncidentKind::Crash, false))
    } else {
        None
    }
}

/// What a line tells of an incident.
pub fn classify(line: &str) -> (r: Option<(IncidentKind, bool)>)
    ensures
        r == class_of(line@),
{
    if contains(line, "ANR in ") || contains(line, "am_anr") {
        return Some((IncidentKind::Anr, true));
    }
    if contains(line, "Input dispatching timed out") {
        return Some((IncidentKind::Anr, false));
    }
    if contains(line, "FATAL SIGNAL") || contains(line, "*** ***") {
        return Some((IncidentKind::NativeCrash, true));
    }
    if contains(line, "tombstone") {
        return Some((IncidentKind::NativeCrash, false));
    }
    if contains(line, "FATAL EXCEPTION") || contains(line, "am_crash") {
        return Some((IncidentKind::Crash, true));
    }
    if contains(line, "AndroidRuntime:") && (contains(line, "Shutting down VM") || contains(
        line,
        "FATAL",
    )) {
        return Some((IncidentKind::Crash, false));
    }
    None
}

pub open spec fn decimal(c: char) -> bool {
    digit_of(c, 10) is Some
}

fn is_decimal(c: char) -> (r: bool)
    ensures
        r == decimal(c),
{
    let n: u32 = c as u32;
    48 <= n && n <= 57
}

/// The line begins a record: `09-09 23:50:01.123  1234  1234 E tag:`.
pub open spec fn log_start(s: Seq<char>) -> bool {
    &&& byte_len(s) > 18
    &&& s.len() >= 9
    &&& decimal(s[0])
    &&& decimal(s[1])
    &&& s[2] == '-'
    &&& decimal(s[3])
    &&& decimal(s[4])
    &&& s[5] == ' '
    &&& decimal(s[6])
    &&& decimal(s[7])
    &&& s[8] == ':'
}

/// The line begins a record.
pub fn is_log_start(line: &str) -> (r: bool)
    ensures
        r == log_start(line@),
{
    let v = chars_of(line);
    assert(v@.subrange(0, v@.len() as int) =~= v@);
    longer_than(v.as_slice(), 0, v.len(), 18) && v.len() >= 9 && is_decimal(v[0]) && is_decimal(
        v[1],
    ) && v[2] == '-' && is_decimal(v[3]) && is_decimal(v[4]) && v[5] == ' ' && is_decimal(v[6])
        && is_decimal(v[7]) && v[8] == ':'
}

// ---------------------------------------------------------------- fingerprints

/// The number of digits at the front.
pub open spec fn digit_run(s: Seq<char>) -> int
    decreases s.len(),
{
    if s.len() == 0 || !decimal(s[0]) {
        0
    } else {
        1 + digit_run(s.skip(1))
    }
}

/// The number of the signal in `FATAL SIGNAL 11`.
pub open spec fn signal_of(line: Seq<char>) -> Option<Seq<char>> {
    match find(line, "FATAL SIGNAL"@) {
        Some(i) => {
            let rest = trim_front(line.skip(i + 12));
            let d = rest.take(digit_run(rest));
            if d.len() > 0 {
                Some("signal-"@ + d)
            } else {
                None
            }
        },
        None => None,
    }
}

/// A character of the name of a class.
pub open spec fn name_char(c: char) -> bool {
    alphanumeric(c) || c == '.' || c == '_' || c == '$'
}

/// The end of the name that goes on at `i`.
pub open spec fn name_end(s: Seq<char>, i: int) -> int
    decreases s.len() - i,
{
    if 0 <= i < s.len() && name_char(s[i]) {
        name_end(s, i + 1)
    } else {
        i
    }
}

/// A name of more than eight bytes that ends like the name of an exception.
pub open spec fn exception_name(s: Seq<char>) -> bool {
    byte_len(s) > 8 && (finishes(s, "Exception"@) || finishes(s, "Error"@))
}

/// The first name of an exception from `i` on.
pub open spec fn exception_from(s: Seq<char>, i: int) -> Option<Seq<char>>
    decreases s.len() - i,
{
    if i < 0 || i >= s.len() {
        None
    } else if !name_char(s[i]) {
        exception_from(s, i + 1)
    } else {
        let e = name_end(s, i);
        if i < e <= s.len() {
            if exception_name(s.subrange(i, e)) {
                Some(s.subrange(i, e))
            } else {
                exception_from(s, e)
            }
        } else {
            None
        }
    }
}

/// What a line tells of which incident it is.
pub open spec fn line_mark(line: Seq<char>) -> Option<Seq<char>> {
    match signal_of(line) {
        Some(m) => Some(m),
        None => exception_from(line, 0),
    }
}

/// The first mark in the lines.
pub open spec fn first_mark(lines: Seq<Seq<char>>) -> Option<Seq<char>>
    decreases lines.len(),
{
    if lines.len() == 0 {
        None
    } else {
        match first_mark(lines.drop_last()) {
            Some(m) => Some(m),
            None => line_mark(lines.last()),
        }
    }
}

/// What tells one incident from another: the number of a signal or the name of an exception.
/// Reports of one crash in several places all hold the same.
pub open spec fn fingerprint_of(detail: Seq<char>) -> Option<Seq<char>> {
    first_mark(lines_of(detail))
}

/// The view of a text that there may be.
pub open spec fn option_text(r: Option<String>) -> Option<Seq<char>> {
    match r {
        Some(s) => Some(s@),
        None => None,
    }
}

fn find_name_end(v: &[char], from: usize) -> (r: usize)
    requires
        from <= v@.len(),
    ensures
        from <= r <= v@.len(),
        r == name_end(v@, from as int),
        from < v@.len() ==> (r > from) == name_char(v@[from as int]),
{
    let mut i: usize = from;
    while i < v.len() && (v[i].is_alphanumeric() || v[i] == '.' || v[i] == '_' || v[i] == '$')
        invariant
            from <= i <= v@.len(),
            name_end(v@, i as int) == name_end(v@, from as int),
            i > from ==> name_char(v@[from as int]),
        decreases v@.len() - i,
    {
        i = i + 1;
    }
    i
}

fn find_exception(v: &[char]) -> (r: Option<String>)
    ensures
        option_text(r) == exception_from(v@, 0),
{
    let mut i: usize = 0;
    while i < v.len()
        invariant
            i <= v@.len(),
            exception_from(v@, i as int) == exception_from(v@, 0),
        decreases v@.len() - i,
    {
        let e = find_name_end(v, i);
        if e == i {
            assert(!name_char(v@[i as int]));
            i = i + 1;
        } else {
            assert(name_char(v@[i as int]));
            let name = slice_text(v, i, e);
            if longer_than(v, i, e, 8) && (ends_with(name.as_str(), "Exception") || ends_with(
                name.as_str(),
                "Error",
            )) {
                return Some(name);
            }
            i = e;
        }
    }
    None
}

fn find_signal(v: &[char]) -> (r: Option<String>)
    ensures
        option_text(r) == signal_of(v@),
{
    let pat = chars_of("FATAL SIGNAL");
    proof {
        reveal_strlit("FATAL SIGNAL");
    }
    let n: usize = v.len();
    match find_chars(v, pat.as_slice(), 0) {
        None => None,
        Some(i) => {
            assert(i + pat@.len() <= n);
            let from: usize = i + 12;
            let ghost tail = v@.skip(from as int);
            let a = skip_space(v, from);
            proof {
                assert forall|j: int| 0 <= j < a - from implies space(#[trigger] tail[j]) by {
                    assert(tail[j] == v@[from + j]);
                }
                assert(a < v@.len() ==> tail[a - from] == v@[a as int]);
                lemma_trim_front_at(tail, a - from);
                assert(tail.skip(a - from) =~= v@.skip(a as int));
            }
            let ghost rest = v@.skip(a as int);
            let mut e: usize = a;
            while e < v.len() && is_decimal(v[e])
                invariant
                    a <= e <= v@.len(),
                    e - a + digit_run(v@.skip(e as int)) == digit_run(v@.skip(a as int)),
                decreases v@.len() - e,
            {
                assert(v@.skip(e as int)[0] == v@[e as int]);
                assert(v@.skip(e as int).skip(1) =~= v@.skip(e + 1));
                e = e + 1;
            }
            assert(e < v@.len() ==> v@.skip(e as int)[0] == v@[e as int]);
            if e == a {
                assert(rest.take(digit_run(rest)).len() == 0);
                None
            } else {
                let mut out = "signal-".to_string();
                let digits = slice_text(v, a, e);
                assert(digits@ =~= rest.take(digit_run(rest)));
                out.append(digits.as_str());
                Some(out)
            }
        },
    }
}

/// What tells the incident from others.
pub fn incident_fingerprint(detail: &str) -> (r: Option<String>)
    ensures
        option_text(r) == fingerprint_of(detail@),
{
    let lines = split_lines(detail);
    let ghost all = texts(lines@);
    let mut i: usize = 0;
    assert(all.take(0) =~= seq![]);
    while i < lines.len()
        invariant
            i <= lines@.len(),
            all == texts(lines@),
            all == lines_of(detail@),
            first_mark(all.take(i as int)) is None,
        decreases lines@.len() - i,
    {
        let v = chars_of(lines[i].as_str());
        proof {
            assert(all.take(i + 1).drop_last() =~= all.take(i as int));
            assert(all.take(i + 1).last() == v@);
        }
        let signal = find_signal(v.as_slice());
        if signal.is_some() {
            proof {
                lemma_first_mark(all, i + 1);
            }
            return signal;
        }
        let name = find_exception(v.as_slice());
        if name.is_some() {
            proof {
                lemma_first_mark(all, i + 1);
            }
            return name;
        }
        i = i + 1;
    }
    assert(all.take(i as int) =~= all);
    None
}

proof fn lemma_first_mark(lines: Seq<Seq<char>>, k: int)
    requires
        0 <= k <= lines.len(),
        first_mark(lines.take(k)) is Some,
    ensures
        first_mark(lines) == first_mark(lines.take(k)),
    decreases lines.len() - k,
{
    if k < lines.len() {
        assert(lines.take(k + 1).drop_last() =~= lines.take(k));
        lemma_first_mark(lines, k + 1);
    } else {
        assert(lines.take(k) =~= lines);
    }
}

// ---------------------------------------------------------------- who crashed

pub open spec fn ascii_letter(c: char) -> bool {
    (65 <= c as int <= 90) || (97 <= c as int <= 122)
}

pub open spec fn package_char(c: char) -> bool {
    ascii_letter(c) || decimal(c) || c == '.' || c == '_'
}

/// A text that looks like the name of an app: it begins with a letter, has a point in it, and is
/// made of letters, digits, underscores and points.
pub open spec fn package_like(s: Seq<char>) -> bool {
    let t = trimmed(s);
    &&& t.len() > 0
    &&& t.contains('.')
    &&& ascii_letter(t[0])
    &&& forall|i: int| 0 <= i < t.len() ==> package_char(#[trigger] t[i])
}

fn is_ascii_letter(c: char) -> (r: bool)
    ensures
        r == ascii_letter(c),
{
    let n: u32 = c as u32;
    (65 <= n && n <= 90) || (97 <= n && n <= 122)
}

/// A text that looks like the name of an app.
pub fn is_pkg_like(s: &str) -> (r: bool)
    ensures
        r == package_like(s@),
{
    let t = trim(s);
    let v = chars_of(t.as_str());
    if v.len() == 0 || !is_ascii_letter(v[0]) {
        return false;
    }
    let mut dot = false;
    let mut i: usize = 0;
    while i < v.len()
        invariant
            i <= v@.len(),
            v@ == trimmed(s@),
            dot == v@.take(i as int).contains('.'),
            forall|j: int| 0 <= j < i ==> package_char(#[trigger] v@[j]),
        decreases v@.len() - i,
    {
        let c = v[i];
        if !(is_ascii_letter(c) || is_decimal(c) || c == '.' || c == '_') {
            return false;
        }
        proof {
            let a = v@.take(i as int);
            let b = v@.take(i + 1);
            if a.contains('.') {
                let k = choose|k: int| 0 <= k < a.len() && a[k] == '.';
                assert(b[k] == '.');
            }
            if b.contains('.') {
                let k = choose|k: int| 0 <= k < b.len() && b[k] == '.';
                if k < i {
                    assert(a[k] == '.');
                }
            }
            assert(b[i as int] == c);
        }
        if c == '.' {
            dot = true;
        }
        i = i + 1;
    }
    assert(v@.take(i as int) =~= v@);
    dot
}

/// How a line can name the app that crashed.
#[derive(Clone, Copy)]
pub enum Source {
    /// `Process: com.demo, PID: 1234`
    Process,
    /// `am_crash: [pid,userId,com.demo,...]`, and the same with `am_anr`
    Event,
    /// `ANR in com.demo`
    Anr,
}

/// The number of characters before the first comma or white space.
pub open spec fn item_len(s: Seq<char>) -> int
    decreases s.len(),
{
    if s.len() == 0 || s[0] == ',' || space(s[0]) {
        0
    } else {
        1 + item_len(s.skip(1))
    }
}

/// What stands where a line names an app.
pub open spec fn named_at(line: Seq<char>, source: Source) -> Option<Seq<char>> {
    match source {
        Source::Process => match find(line, "Process:"@) {
            Some(i) => {
                let rest = trim_front(line.skip(i + 8));
                Some(rest.take(item_len(rest)))
            },
            None => None,
        },
        Source::Event => if has(line, "am_crash"@) || has(line, "am_anr"@) {
            match (char_from(line, '[', 0), char_from(line, ']', 0)) {
                (Some(lb), Some(rb)) => {
                    let fields = split_on(line.subrange(lb + 1, rb), ',');
                    if rb > lb && fields.len() > 2 {
                        Some(trimmed(fields[2]))
                    } else {
                        None
                    }
                },
                _ => None,
            }
        } else {
            None
        },
        Source::Anr => match find(line, "ANR in "@) {
            Some(i) => {
                let w = words_of(line.skip(i + 7));
                if w.len() > 0 {
                    Some(w[0])
                } else {
                    None
                }
            },
            None => None,
        },
    }
}

/// The app that a line names.
pub open spec fn named_by(line: Seq<char>, source: Source) -> Option<Seq<char>> {
    match named_at(line, source) {
        Some(p) => if package_like(p) {
            Some(p)
        } else {
            None
        },
        None => None,
    }
}

/// The first app that the lines name.
pub open spec fn first_named(lines: Seq<Seq<char>>, source: Source) -> Option<Seq<char>>
    decreases lines.len(),
{
    if lines.len() == 0 {
        None
    } else {
        match first_named(lines.drop_last(), source) {
            Some(p) => Some(p),
            None => named_by(lines.last(), source),
        }
    }
}

/// The app between `>>> ` and ` <<<`.
pub open spec fn native_name(detail: Seq<char>) -> Option<Seq<char>> {
    match find(detail, ">>> "@) {
        Some(i) => {
            let rest = detail.skip(i + 4);
            match find(rest, " <<<"@) {
                Some(j) => {
                    let p = trimmed(rest.take(j));
                    if package_like(p) {
                        Some(p)
                    } else {
                        None
                    }
                },
                None => None,
            }
        },
        None => None,
    }
}

/// The app that crashed. It is read where the system names it; that some name occurs in the text
/// means nothing, for the app in the foreground occurs everywhere.
pub open spec fn crashed_package(detail: Seq<char>) -> Option<Seq<char>> {
    let lines = lines_of(detail);
    match first_named(lines, Source::Process) {
        Some(p) => Some(p),
        None => match first_named(lines, Source::Event) {
            Some(p) => Some(p),
            None => match first_named(lines, Source::Anr) {
                Some(p) => Some(p),
                None => native_name(detail),
            },
        },
    }
}

fn rest_of(v: &[char], from: usize) -> (r: String)
    requires
        from <= v@.len(),
    ensures
        r@ == v@.skip(from as int),
{
    let r = slice_text(v, from, v.len());
    assert(r@ =~= v@.skip(from as int));
    r
}

fn find_process(v: &[char]) -> (r: Option<String>)
    ensures
        option_text(r) == named_at(v@, Source::Process),
{
    let pat = chars_of("Process:");
    proof {
        reveal_strlit("Process:");
    }
    let n: usize = v.len();
    match find_chars(v, pat.as_slice(), 0) {
        None => None,
        Some(i) => {
            assert(i + pat@.len() <= n);
            let from: usize = i + 8;
            let ghost tail = v@.skip(from as int);
            let a = skip_space(v, from);
            proof {
                assert forall|j: int| 0 <= j < a - from implies space(#[trigger] tail[j]) by {
                    assert(tail[j] == v@[from + j]);
                }
                assert(a < v@.len() ==> tail[a - from] == v@[a as int]);
                lemma_trim_front_at(tail, a - from);
                assert(tail.skip(a - from) =~= v@.skip(a as int));
            }
            let ghost rest = v@.skip(a as int);
            let mut e: usize = a;
            while e < v.len() && v[e] != ',' && !is_space(v[e])
                invariant
                    a <= e <= v@.len(),
                    e - a + item_len(v@.skip(e as int)) == item_len(v@.skip(a as int)),
                decreases v@.len() - e,
            {
                assert(v@.skip(e as int)[0] == v@[e as int]);
                assert(v@.skip(e as int).skip(1) =~= v@.skip(e + 1));
                e = e + 1;
            }
            assert(e < v@.len() ==> v@.skip(e as int)[0] == v@[e as int]);
            let p = slice_text(v, a, e);
            assert(p@ =~= rest.take(item_len(rest)));
            Some(p)
        },
    }
}

fn find_event(line: &str) -> (r: Option<String>)
    ensures
        option_text(r) == named_at(line@, Source::Event),
{
    if !(contains(line, "am_crash") || contains(line, "am_anr")) {
        return None;
    }
    let v = chars_of(line);
    match (find_char(v.as_slice(), '[', 0), find_char(v.as_slice(), ']', 0)) {
        (Some(lb), Some(rb)) => {
            if rb > lb {
                let inner = slice_text(v.as_slice(), lb + 1, rb);
                let fields = split_char(inner.as_str(), ',');
                assert(texts(fields@).len() == fields@.len());
                if fields.len() > 2 {
                    assert(texts(fields@)[2] == fields@[2]@);
                    Some(trim(fields[2].as_str()))
                } else {
                    None
                }
            } else {
                None
            }
        },
        _ => None,
    }
}

fn find_anr(v: &[char]) -> (r: Option<String>)
    ensures
        option_text(r) == named_at(v@, Source::Anr),
{
    let pat = chars_of("ANR in ");
    proof {
        reveal_strlit("ANR in ");
    }
    let n: usize = v.len();
    match find_chars(v, pat.as_slice(), 0) {
        None => None,
        Some(i) => {
            assert(i + pat@.len() <= n);
            let rest = rest_of(v, i + 7);
            let words = split_words(rest.as_str());
            assert(texts(words@).len() == words@.len());
            if words.len() > 0 {
                assert(texts(words@)[0] == words@[0]@);
                Some(words[0].clone())
            } else {
                None
            }
        },
    }
}

fn find_named(lines: &Vec<String>, source: Source) -> (r: Option<String>)
    ensures
        option_text(r) == first_named(texts(lines@), source),
{
    let ghost all = texts(lines@);
    let mut i: usize = 0;
    assert(all.take(0) =~= seq![]);
    while i < lines.len()
        invariant
            i <= lines@.len(),
            all == texts(lines@),
            first_named(all.take(i as int), source) is None,
        decreases lines@.len() - i,
    {
        let line = lines[i].as_str();
        proof {
            assert(all.take(i + 1).drop_last() =~= all.take(i as int));
            assert(all.take(i + 1).last() == line@);
        }
        let v = chars_of(line);
        let found = match source {
            Source::Process => find_process(v.as_slice()),
            Source::Event => find_event(line),
            Source::Anr => find_anr(v.as_slice()),
        };
        if let Some(p) = found {
            if is_pkg_like(p.as_str()) {
                proof {
                    lemma_first_named(all, source, i + 1);
                }
                return Some(p);
            }
        }
        i = i + 1;
    }
    assert(all.take(i as int) =~= all);
    None
}

proof fn lemma_first_named(lines: Seq<Seq<char>>, source: Source, k: int)
    requires
        0 <= k <= lines.len(),
        first_named(lines.take(k), source) is Some,
    ensures
        first_named(lines, source) == first_named(lines.take(k), source),
    decreases lines.len() - k,
{
    if k < lines.len() {
        assert(lines.take(k + 1).drop_last() =~= lines.take(k));
        lemma_first_named(lines, source, k + 1);
    } else {
        assert(lines.take(k) =~= lines);
    }
}

fn find_native(detail: &str) -> (r: Option<String>)
    ensures
        option_text(r) == native_name(detail@),
{
    let v = chars_of(detail);
    let open = chars_of(">>> ");
    let close = chars_of(" <<<");
    proof {
        reveal_strlit(">>> ");
    }
    let n: usize = v.len();
    match find_chars(v.as_slice(), open.as_slice(), 0) {
        None => None,
        Some(i) => {
            assert(i + open@.len() <= n);
            let rest = rest_of(v.as_slice(), i + 4);
            let w = chars_of(rest.as_str());
            match find_chars(w.as_slice(), close.as_slice(), 0) {
                None => None,
                Some(j) => {
                    let part = slice_text(w.as_slice(), 0, j);
                    assert(part@ =~= rest@.take(j as int));
                    let p = trim(part.as_str());
                    if is_pkg_like(p.as_str()) {
                        Some(p)
                    } else {
                        None
                    }
                },
            }
        },
    }
}

/// The app that crashed, where the text says so.
pub fn attribute_package(detail: &str) -> (r: Option<String>)
    ensures
        option_text(r) == crashed_package(detail@),
{
    let lines = split_lines(detail);
    let by_process = find_named(&lines, Source::Process);
    if by_process.is_some() {
        return by_process;
    }
    let by_event = find_named(&lines, Source::Event);
    if by_event.is_some() {
        return by_event;
    }
    let by_anr = find_named(&lines, Source::Anr);
    if by_anr.is_some() {
        return by_anr;
    }
    find_native(detail)
}

/// A line of the stack of one of the commands that a test itself runs on the device.
pub open spec fn tool_line(line: Seq<char>) -> bool {
    has(line, "at com.android.commands."@) || has(line, "at com.android.uiautomator."@)
}

/// One of the commands that a test itself runs has crashed. These are no apps, so that no
/// process is named, but they leave a `FATAL EXCEPTION` all the same.
pub open spec fn tool_crash(detail: Seq<char>) -> bool {
    exists|i: int| 0 <= i < lines_of(detail).len() && tool_line(#[trigger] lines_of(detail)[i])
}

/// One of the commands that a test itself runs has crashed.
pub fn is_tool_crash(detail: &str) -> (r: bool)
    ensures
        r == tool_crash(detail@),
{
    let lines = split_lines(detail);
    let ghost all = texts(lines@);
    let mut i: usize = 0;
    while i < lines.len()
        invariant
            i <= lines@.len(),
            all == texts(lines@),
            all == lines_of(detail@),
            forall|j: int| 0 <= j < i ==> !tool_line(#[trigger] all[j]),
        decreases lines@.len() - i,
    {
        let line = lines[i].as_str();
        assert(all[i as int] == line@);
        if contains(line, "at com.android.commands.") || contains(
            line,
            "at com.android.uiautomator.",
        ) {
            assert(tool_line(all[i as int]));
            return true;
        }
        i = i + 1;
    }
    false
}

} // verus!
