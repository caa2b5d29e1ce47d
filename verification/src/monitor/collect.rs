//! Collecting incidents from the lines of a log.

use vstd::prelude::*;

use crate::model::node::is_empty;
use crate::monitor::line::attribute_package;
use crate::monitor::line::class_of;
use crate::monitor::line::classify;
use crate::monitor::line::crashed_package;
use crate::monitor::line::fingerprint_of;
use crate::monitor::line::incident_fingerprint;
use crate::monitor::line::is_tool_crash;
use crate::monitor::line::option_text;
use crate::monitor::line::tool_crash;
use crate::text::basic::chars_of;
use crate::text::basic::same;
use crate::text::basic::slice_text;
use crate::text::basic::texts;
use crate::text::search::blank;
use crate::text::search::contains;
use crate::text::search::has;
use crate::text::search::is_blank;
use crate::text::search::trim;
use crate::text::search::trimmed;
use crate::text::split::join;
use crate::text::split::joined;
use crate::util::now_str;
use crate::util::truncate;
use crate::util::truncated;

pub use crate::monitor::line::IncidentKind;

verus! {

/// How many lines are kept.
pub const WINDOW: usize = 800;

/// A block that has grown by more lines than this is complete.
pub const BLOCK_LINES: u64 = 300;

/// How long a new block stays open, in nanoseconds.
pub const OPEN_NS: u64 = 2_500_000_000;

/// How long a block stays open behind a line that adds to it, in nanoseconds.
pub const MORE_NS: u64 = 800_000_000;

/// Reports of the same incident within this time are one, in nanoseconds. The same crash shows
/// in several places of the log.
pub const DEDUP_NS: u64 = 5_000_000_000;

/// Something that went wrong in the app under test.
#[derive(Debug)]
pub struct Incident {
    pub kind: IncidentKind,
    pub time: String,
    pub package: String,
    pub summary: String,
    pub detail: String,
    /// The file it is kept in, seen from the directory of the session.
    pub file: Option<String>,
    /// The step in which it happened.
    pub step: Option<usize>,
    /// A picture of the screen at that time.
    pub shot: Option<String>,
    /// The same picture, small.
    pub shot_thumb: Option<String>,
}

/// An incident as a mathematical value.
pub struct IncidentView {
    pub kind: IncidentKind,
    pub time: Seq<char>,
    pub package: Seq<char>,
    pub summary: Seq<char>,
    pub detail: Seq<char>,
    pub file: Option<Seq<char>>,
    pub step: Option<usize>,
    pub shot: Option<Seq<char>>,
    pub shot_thumb: Option<Seq<char>>,
}

impl View for Incident {
    type V = IncidentView;

    open spec fn view(&self) -> IncidentView {
        IncidentView {
            kind: self.kind,
            time: self.time@,
            package: self.package@,
            summary: self.summary@,
            detail: self.detail@,
            file: option_text(self.file),
            step: self.step,
            shot: option_text(self.shot),
            shot_thumb: option_text(self.shot_thumb),
        }
    }
}

pub open spec fn incident_views(s: Seq<Incident>) -> Seq<IncidentView> {
    Seq::new(s.len(), |i: int| s[i]@)
}

impl Incident {
    /// The Chinese name of the kind, for reports.
    pub fn kind_cn(&self) -> (r: String)
        ensures
            r@ == crate::monitor::line::kind_cn_text(self.kind),
    {
        self.kind.cn().to_string()
    }
}

/// An incident whose lines are still being collected.
pub struct Block {
    pub kind: IncidentKind,
    /// The number of its first line.
    pub start: u64,
    /// When it was opened or added to last.
    pub since: u64,
    /// How long it stays open from then on.
    pub hold: u64,
    pub summary: String,
}

/// A block as a mathematical value.
pub struct BlockView {
    pub kind: IncidentKind,
    pub start: u64,
    pub since: u64,
    pub hold: u64,
    pub summary: Seq<char>,
}

impl View for Block {
    type V = BlockView;

    open spec fn view(&self) -> BlockView {
        BlockView {
            kind: self.kind,
            start: self.start,
            since: self.since,
            hold: self.hold,
            summary: self.summary@,
        }
    }
}

/// When an incident was reported.
pub struct Report {
    pub mark: String,
    pub at: u64,
}

/// When an incident was reported, as a mathematical value.
pub struct ReportView {
    pub mark: Seq<char>,
    pub at: u64,
}

impl View for Report {
    type V = ReportView;

    open spec fn view(&self) -> ReportView {
        ReportView { mark: self.mark@, at: self.at }
    }
}

pub open spec fn report_views(s: Seq<Report>) -> Seq<ReportView> {
    Seq::new(s.len(), |i: int| s[i]@)
}

/// What is kept of a log while it is read.
pub struct Collector {
    package: String,
    window: Vec<String>,
    total: u64,
    pending: Option<Block>,
    recent: Vec<Report>,
}

/// What is kept of a log, as a mathematical value: the app under test, the last lines, the
/// number of all lines, the block that is open, and what was reported.
#[verifier::ext_equal]
pub struct CollectorView {
    pub package: Seq<char>,
    pub window: Seq<Seq<char>>,
    pub total: u64,
    pub pending: Option<BlockView>,
    pub recent: Seq<ReportView>,
}

pub open spec fn option_block(b: Option<Block>) -> Option<BlockView> {
    match b {
        Some(x) => Some(x@),
        None => None,
    }
}

impl View for Collector {
    type V = CollectorView;

    closed spec fn view(&self) -> CollectorView {
        CollectorView {
            package: self.package@,
            window: texts(self.window@),
            total: self.total,
            pending: option_block(self.pending),
            recent: report_views(self.recent@),
        }
    }
}

/// No more lines are kept than were read.
pub open spec fn well_formed(v: CollectorView) -> bool {
    v.window.len() <= v.total
}

/// The time from `t` to `now`; none where `t` is later.
pub open spec fn elapsed(now: u64, t: u64) -> int {
    if now > t {
        now - t
    } else {
        0
    }
}

/// The lines with the numbers from `start` up to but not with `end`, as far as they are kept.
pub open spec fn kept_lines(v: CollectorView, start: int, end: int) -> Seq<Seq<char>> {
    let first = v.total - v.window.len() + 1;
    let n = v.window.len() as int;
    let lo = if start < first {
        0
    } else if start - first > n {
        n
    } else {
        start - first
    };
    let hi = if end < first {
        0
    } else if end - first > n {
        n
    } else {
        end - first
    };
    if lo <= hi {
        v.window.subrange(lo, hi)
    } else {
        seq![]
    }
}

/// The text of a block that ends before the line with the number `end`.
pub open spec fn detail_of(v: CollectorView, b: BlockView, end: int) -> Seq<char> {
    joined(kept_lines(v, b.start as int, end), "\n"@)
}

/// The incident is one of the app under test: no command of the test itself, and the app that
/// the text names; where it names none, the text has to hold the name of the app. Any app is
/// meant where none is given.
pub open spec fn concerns(package: Seq<char>, b: BlockView, detail: Seq<char>) -> bool {
    package.len() == 0 || (!tool_crash(detail) && match crashed_package(detail) {
        Some(p) => p == package,
        None => has(detail, package) || has(b.summary, package),
    })
}

pub open spec fn kind_name(k: IncidentKind) -> Seq<char> {
    match k {
        IncidentKind::Crash => "Crash"@,
        IncidentKind::Anr => "Anr"@,
        IncidentKind::NativeCrash => "NativeCrash"@,
    }
}

/// What reports of one incident have in common.
pub open spec fn mark_of(package: Seq<char>, b: BlockView, detail: Seq<char>) -> Seq<char> {
    kind_name(b.kind) + "|"@ + package + "|"@ + (match fingerprint_of(detail) {
        Some(f) => f,
        None => "unknown"@,
    })
}

/// When something with the mark was reported last.
pub open spec fn reported_at(recent: Seq<ReportView>, mark: Seq<char>) -> Option<u64>
    decreases recent.len(),
{
    if recent.len() == 0 {
        None
    } else if recent.last().mark == mark {
        Some(recent.last().at)
    } else {
        reported_at(recent.drop_last(), mark)
    }
}

/// The same incident was reported a short time ago.
pub open spec fn repeated(recent: Seq<ReportView>, mark: Seq<char>, now: u64) -> bool {
    match reported_at(recent, mark) {
        Some(t) => elapsed(now, t) < DEDUP_NS,
        None => false,
    }
}

/// A block that is complete is reported: it is not blank, concerns the app under test, and was
/// not reported a short time ago.
pub open spec fn worth_reporting(v: CollectorView, b: BlockView, end: int, now: u64) -> bool {
    let d = detail_of(v, b, end);
    !blank(d) && concerns(v.package, b, d) && !repeated(v.recent, mark_of(v.package, b, d), now)
}

/// The incident that a block is reported as, at the given time of day.
pub open spec fn incident_of(
    v: CollectorView,
    b: BlockView,
    end: int,
    time: Seq<char>,
) -> IncidentView {
    IncidentView {
        kind: b.kind,
        time,
        package: v.package,
        summary: truncated(trimmed(b.summary), 160),
        detail: detail_of(v, b, end),
        file: None,
        step: None,
        shot: None,
        shot_thumb: None,
    }
}

/// The collector once a block was reported, or was not worth it.
pub open spec fn settled(v: CollectorView, b: BlockView, end: int, now: u64) -> CollectorView {
    if worth_reporting(v, b, end, now) {
        CollectorView {
            pending: None,
            recent: v.recent.push(
                ReportView { mark: mark_of(v.package, b, detail_of(v, b, end)), at: now },
            ),
            ..v
        }
    } else {
        CollectorView { pending: None, ..v }
    }
}

/// `s` without line ends at its end.
pub open spec fn line_ends_off(s: Seq<char>) -> Seq<char>
    decreases s.len(),
{
    if s.len() > 0 && (s.last() == '\n' || s.last() == '\r') {
        line_ends_off(s.drop_last())
    } else {
        s
    }
}

/// A line without the line ends at its end.
pub fn strip_line(line: &str) -> (r: String)
    ensures
        r@ == line_ends_off(line@),
{
    let v = chars_of(line);
    let mut n: usize = v.len();
    assert(v@.take(n as int) =~= v@);
    while n > 0 && (v[n - 1] == '\n' || v[n - 1] == '\r')
        invariant
            n <= v@.len(),
            line_ends_off(v@.take(n as int)) == line_ends_off(line@),
        decreases n,
    {
        assert(v@.take(n as int).last() == v@[n - 1]);
        assert(v@.take(n as int).drop_last() =~= v@.take(n - 1));
        n = n - 1;
    }
    let r = slice_text(v.as_slice(), 0, n);
    assert(r@ =~= v@.take(n as int));
    assert(n > 0 ==> v@.take(n as int).last() == v@[n - 1]);
    r
}

/// The collector with one more line in its window.
pub open spec fn with_line(v: CollectorView, line: Seq<char>) -> CollectorView {
    let w = v.window.push(line);
    CollectorView {
        total: (v.total + 1) as u64,
        window: if w.len() > WINDOW {
            w.skip(1)
        } else {
            w
        },
        ..v
    }
}

/// A line opens a new incident: it is of another kind than the one that is open, or it is one
/// that only the start of an incident has.
pub open spec fn opens(v: CollectorView, line: Seq<char>) -> bool {
    match class_of(line) {
        Some((kind, strong)) => match v.pending {
            Some(b) => b.kind != kind || strong,
            None => true,
        },
        None => false,
    }
}

/// The block that a line opens.
pub open spec fn opened(v: CollectorView, line: Seq<char>, now: u64) -> BlockView {
    BlockView {
        kind: (class_of(line)->0).0,
        start: v.total,
        since: now,
        hold: OPEN_NS,
        summary: line,
    }
}

/// The block that is open stays so a while longer behind a line that adds to it.
pub open spec fn extended(v: CollectorView, line: Seq<char>, now: u64) -> CollectorView {
    match (v.pending, class_of(line)) {
        (Some(b), Some(_)) => CollectorView {
            pending: Some(BlockView { since: now, hold: MORE_NS, ..b }),
            ..v
        },
        _ => v,
    }
}

/// The block that is open is complete.
pub open spec fn complete(v: CollectorView, now: u64) -> bool {
    match v.pending {
        Some(b) => elapsed(now, b.since) >= b.hold || v.total - b.start > BLOCK_LINES,
        None => false,
    }
}

/// What one more line does: the block that is complete by it, with the number that ends it, as
/// seen by the collector at that time; and the collector afterwards.
pub open spec fn fed(v: CollectorView, raw: Seq<char>, now: u64) -> (
    Option<(CollectorView, BlockView, int)>,
    CollectorView,
) {
    let line = line_ends_off(raw);
    let w = with_line(v, line);
    if opens(w, line) {
        let b = opened(w, line, now);
        match w.pending {
            Some(p) => {
                let s = settled(w, p, w.total as int, now);
                (Some((w, p, w.total as int)), CollectorView { pending: Some(b), ..s })
            },
            None => (None, CollectorView { pending: Some(b), ..w }),
        }
    } else {
        let x = extended(w, line, now);
        if complete(x, now) {
            let b = x.pending->0;
            (Some((x, b, x.total + 1)), settled(x, b, x.total + 1, now))
        } else {
            (None, x)
        }
    }
}

/// What is reported of a block, whatever the time of day is.
pub open spec fn reports(
    r: Option<Incident>,
    done: Option<(CollectorView, BlockView, int)>,
    now: u64,
) -> bool {
    match done {
        Some((v, b, end)) => if worth_reporting(v, b, end, now) {
            r is Some && r->0@ == incident_of(v, b, end, r->0.time@)
        } else {
            r is None
        },
        None => r is None,
    }
}

fn passed(now: u64, t: u64) -> (r: u64)
    ensures
        r == elapsed(now, t),
{
    if now > t {
        now - t
    } else {
        0
    }
}

fn kind_str(k: IncidentKind) -> (r: &'static str)
    ensures
        r@ == kind_name(k),
{
    match k {
        IncidentKind::Crash => "Crash",
        IncidentKind::Anr => "Anr",
        IncidentKind::NativeCrash => "NativeCrash",
    }
}

fn concerns_app(package: &String, b: &Block, detail: &str) -> (r: bool)
    ensures
        r == concerns(package@, b@, detail@),
{
    if is_empty(package) {
        return true;
    }
    if is_tool_crash(detail) {
        return false;
    }
    match attribute_package(detail) {
        Some(p) => same(p.as_str(), package.as_str()),
        None => contains(detail, package.as_str()) || contains(
            b.summary.as_str(),
            package.as_str(),
        ),
    }
}

fn is_repeated(recent: &Vec<Report>, mark: &str, now: u64) -> (r: bool)
    ensures
        r == repeated(report_views(recent@), mark@, now),
{
    let ghost all = report_views(recent@);
    let mut i: usize = recent.len();
    assert(all.take(i as int) =~= all);
    while i > 0
        invariant
            i <= recent@.len(),
            all == report_views(recent@),
            reported_at(all.take(i as int), mark@) == reported_at(all, mark@),
        decreases i,
    {
        assert(all.take(i as int).drop_last() =~= all.take(i - 1));
        assert(all.take(i as int).last() == recent@[i - 1]@);
        if same(recent[i - 1].mark.as_str(), mark) {
            return passed(now, recent[i - 1].at) < DEDUP_NS;
        }
        i = i - 1;
    }
    false
}

impl Collector {
    /// A collector for incidents of an app; of any app where the name is empty.
    pub fn new(package: &str) -> (r: Self)
        ensures
            r@ == (CollectorView {
                package: package@,
                window: seq![],
                total: 0,
                pending: None,
                recent: seq![],
            }),
            well_formed(r@),
    {
        let r = Collector {
            package: package.to_string(),
            window: Vec::new(),
            total: 0,
            pending: None,
            recent: Vec::new(),
        };
        assert(r@.window =~= seq![]);
        assert(r@.recent =~= seq![]);
        r
    }

    /// The number of lines that were read.
    pub fn lines_read(&self) -> (r: u64)
        ensures
            r == self@.total,
    {
        self.total
    }

    fn block_text(&self, start: u64, end: u64) -> (r: String)
        requires
            well_formed(self@),
            self@.total < u64::MAX,
            end <= self@.total + 1,
        ensures
            r@ == joined(kept_lines(self@, start as int, end as int), "\n"@),
    {
        let n: usize = self.window.len();
        let first: u64 = self.total - n as u64 + 1;
        let mut lines: Vec<String> = Vec::new();
        let mut i: usize = 0;
        let ghost w = self@.window;
        let lo: usize = if start < first {
            0
        } else if start - first > n as u64 {
            n
        } else {
            (start - first) as usize
        };
        let hi: usize = if end < first {
            0
        } else if end - first > n as u64 {
            n
        } else {
            (end - first) as usize
        };
        i = lo;
        assert(texts(lines@) =~= seq![]);
        if lo <= hi {
            assert(w.subrange(lo as int, lo as int) =~= seq![]);
            while i < hi
                invariant
                    lo <= i <= hi <= n,
                    n == self.window@.len(),
                    w == texts(self.window@),
                    texts(lines@) == w.subrange(lo as int, i as int),
                decreases hi - i,
            {
                let ghost before = texts(lines@);
                lines.push(self.window[i].clone());
                assert(texts(lines@) =~= before.push(w[i as int]));
                assert(w.subrange(lo as int, i + 1) =~= w.subrange(lo as int, i as int).push(
                    w[i as int],
                ));
                i = i + 1;
            }
        }
        assert(texts(lines@) == kept_lines(self@, start as int, end as int));
        join(&lines, "\n")
    }

    /// Reports a block that is complete, if it is worth it.
    fn flush(&mut self, b: Block, end: u64, now: u64) -> (r: Option<Incident>)
        requires
            well_formed(old(self)@),
            old(self)@.total < u64::MAX,
            end <= old(self)@.total + 1,
        ensures
            final(self)@ == settled(old(self)@, b@, end as int, now),
            reports(r, Some((old(self)@, b@, end as int)), now),
    {
        self.pending = None;
        let detail = self.block_text(b.start, end);
        assert(kept_lines(self@, b.start as int, end as int) == kept_lines(
            old(self)@,
            b.start as int,
            end as int,
        ));
        let ghost d = detail_of(old(self)@, b@, end as int);
        assert(detail@ == d);
        if is_blank(detail.as_str()) {
            return None;
        }
        if !concerns_app(&self.package, &b, detail.as_str()) {
            return None;
        }
        let fp = match incident_fingerprint(detail.as_str()) {
            Some(f) => f,
            None => "unknown".to_string(),
        };
        let mut mark = kind_str(b.kind).to_string();
        mark.append("|");
        mark.append(self.package.as_str());
        mark.append("|");
        mark.append(fp.as_str());
        assert(mark@ == mark_of(old(self)@.package, b@, d));
        if is_repeated(&self.recent, mark.as_str(), now) {
            return None;
        }
        let ghost was = report_views(self.recent@);
        let report = Report { mark, at: now };
        let ghost rv = report@;
        self.recent.push(report);
        assert(report_views(self.recent@) =~= was.push(rv));
        Some(
            Incident {
                kind: b.kind,
                time: now_str(),
                package: self.package.clone(),
                summary: truncate(trim(b.summary.as_str()).as_str(), 160),
                detail,
                file: None,
                step: None,
                shot: None,
                shot_thumb: None,
            },
        )
    }

    /// Reads one more line. `now` is the time in nanoseconds, on a clock that never goes back.
    pub fn feed(&mut self, raw: &str, now: u64) -> (r: Option<Incident>)
        requires
            well_formed(old(self)@),
            old(self)@.total < u64::MAX - 1,
        ensures
            final(self)@ == fed(old(self)@, raw@, now).1,
            reports(r, fed(old(self)@, raw@, now).0, now),
            well_formed(final(self)@),
    {
        let line = strip_line(raw);
        let ghost before = texts(self.window@);
        self.total = self.total + 1;
        self.window.push(line.clone());
        assert(texts(self.window@) =~= before.push(line@));
        if self.window.len() > WINDOW {
            self.window.remove(0);
            assert(texts(self.window@) =~= before.push(line@).skip(1));
        }
        let ghost w = self@;
        assert(w == with_line(old(self)@, line@));
        let class = classify(line.as_str());
        if let Some((kind, strong)) = class {
            let start_new = match &self.pending {
                None => true,
                Some(b) => b.kind != kind || strong,
            };
            if start_new {
                let fresh = Block {
                    kind,
                    start: self.total,
                    since: now,
                    hold: OPEN_NS,
                    summary: line.clone(),
                };
                let ghost fv = fresh@;
                assert(fv == opened(w, line@, now));
                match self.pending.take() {
                    Some(b) => {
                        let end: u64 = self.total;
                        let ghost mid = self@;
                        assert(mid == (CollectorView { pending: None, ..w }));
                        proof {
                            lemma_settled_ignores_pending(w, b@, end as int, now);
                        }
                        let r = self.flush(b, end, now);
                        self.pending = Some(fresh);
                        return r;
                    },
                    None => {
                        self.pending = Some(fresh);
                        return None;
                    },
                }
            }
            match self.pending.take() {
                Some(mut b) => {
                    b.since = now;
                    b.hold = MORE_NS;
                    self.pending = Some(b);
                },
                None => {},
            }
        }
        let ghost x = self@;
        assert(x == extended(w, line@, now));
        let due = match &self.pending {
            Some(b) => passed(now, b.since) >= b.hold || (self.total > b.start && self.total
                - b.start > BLOCK_LINES),
            None => false,
        };
        assert(due == complete(x, now));
        if due {
            if let Some(b) = self.pending.take() {
                let end: u64 = self.total + 1;
                proof {
                    lemma_settled_ignores_pending(x, b@, end as int, now);
                }
                return self.flush(b, end, now);
            }
        }
        None
    }

    /// The log has ended: what is still open is complete.
    pub fn finish(&mut self, now: u64) -> (r: Option<Incident>)
        requires
            well_formed(old(self)@),
            old(self)@.total < u64::MAX,
        ensures
            match old(self)@.pending {
                Some(b) => final(self)@ == settled(old(self)@, b, old(self)@.total + 1, now)
                    && reports(r, Some((old(self)@, b, old(self)@.total + 1)), now),
                None => final(self)@ == old(self)@ && r is None,
            },
    {
        let ghost v = self@;
        match self.pending.take() {
            Some(b) => {
                let end: u64 = self.total + 1;
                proof {
                    lemma_settled_ignores_pending(v, b@, end as int, now);
                }
                self.flush(b, end, now)
            },
            None => None,
        }
    }
}

proof fn lemma_settled_ignores_pending(v: CollectorView, b: BlockView, end: int, now: u64)
    ensures
        ({
            let w = CollectorView { pending: None, ..v };
            &&& settled(w, b, end, now) == settled(v, b, end, now)
            &&& worth_reporting(w, b, end, now) == worth_reporting(v, b, end, now)
            &&& forall|t: Seq<char>| #[trigger]
                incident_of(w, b, end, t) == incident_of(v, b, end, t)
        }),
{
    let w = CollectorView { pending: None, ..v };
    assert(kept_lines(w, b.start as int, end) == kept_lines(v, b.start as int, end));
}

// ---------------------------------------------------------------- laws

/// Every incident that is reported concerns the app under test: none comes from a command that
/// the test itself runs, and none from another app that the log names.
pub proof fn lemma_only_own_incidents(
    r: Option<Incident>,
    done: Option<(CollectorView, BlockView, int)>,
    now: u64,
)
    requires
        reports(r, done, now),
        r is Some,
        (done->0).0.package.len() > 0,
    ensures
        !tool_crash(r->0@.detail),
        crashed_package(r->0@.detail) is Some ==> crashed_package(r->0@.detail)
            == Some((done->0).0.package),
        r->0@.package == (done->0).0.package,
{
}

/// The same incident is reported once within the time in which reports are one: right after a
/// report, another block with the same mark is dropped as long as that time lasts.
pub proof fn lemma_reported_once(
    v: CollectorView,
    b: BlockView,
    end: int,
    now: u64,
    w: CollectorView,
    c: BlockView,
    later_end: int,
    later: u64,
)
    requires
        worth_reporting(v, b, end, now),
        w.package == v.package,
        w.recent == settled(v, b, end, now).recent,
        mark_of(w.package, c, detail_of(w, c, later_end)) == mark_of(
            v.package,
            b,
            detail_of(v, b, end),
        ),
        elapsed(later, now) < DEDUP_NS,
    ensures
        !worth_reporting(w, c, later_end, later),
{
}

/// An incident with another mark than all that were reported is not dropped for the sake of
/// those: it is reported if it is not blank and concerns the app.
pub proof fn lemma_distinct_is_reported(v: CollectorView, b: BlockView, end: int, now: u64)
    requires
        !blank(detail_of(v, b, end)),
        concerns(v.package, b, detail_of(v, b, end)),
        forall|i: int|
            0 <= i < v.recent.len() ==> (#[trigger] v.recent[i]).mark != mark_of(
                v.package,
                b,
                detail_of(v, b, end),
            ),
    ensures
        worth_reporting(v, b, end, now),
{
    lemma_never_reported(v.recent, mark_of(v.package, b, detail_of(v, b, end)));
}

proof fn lemma_never_reported(recent: Seq<ReportView>, mark: Seq<char>)
    requires
        forall|i: int| 0 <= i < recent.len() ==> (#[trigger] recent[i]).mark != mark,
    ensures
        reported_at(recent, mark) is None,
    decreases recent.len(),
{
    if recent.len() > 0 {
        let d = recent.drop_last();
        assert forall|i: int| 0 <= i < d.len() implies (#[trigger] d[i]).mark != mark by {
            assert(d[i] == recent[i]);
        }
        lemma_never_reported(d, mark);
        assert(recent[recent.len() - 1].mark != mark);
    }
}

/// What a collector keeps: as many lines as it may, or all of them, and no block that is longer
/// than what it keeps.
pub open spec fn steady(v: CollectorView) -> bool {
    &&& v.window.len() == if v.total < WINDOW {
        v.total as int
    } else {
        WINDOW as int
    }
    &&& match v.pending {
        Some(b) => 1 <= b.start <= v.total && v.total - b.start <= BLOCK_LINES
            && v.window[b.start - (v.total - v.window.len() + 1)] == b.summary,
        None => true,
    }
}

/// A fresh collector is steady, and each line keeps it so.
pub proof fn lemma_fed_steady(v: CollectorView, raw: Seq<char>, now: u64)
    requires
        steady(v),
        v.total < u64::MAX - 1,
    ensures
        steady(fed(v, raw, now).1),
{
    let line = line_ends_off(raw);
    let w = with_line(v, line);
    assert(w.window.len() == if w.total < WINDOW {
        w.total as int
    } else {
        WINDOW as int
    });
    assert(w.window[w.window.len() - 1] == line);
    match w.pending {
        Some(b) => {
            let i = b.start - (v.total - v.window.len() + 1);
            assert(w.window[b.start - (w.total - w.window.len() + 1)] == v.window[i]);
        },
        None => {},
    }
}

/// No line of a block is lost: what is reported of a block begins with the line that opened it,
/// and holds every line from there to its end.
pub proof fn lemma_block_is_whole(v: CollectorView, b: BlockView, end: int)
    requires
        v.window.len() == if v.total < WINDOW {
            v.total as int
        } else {
            WINDOW as int
        },
        1 <= b.start,
        b.start < end <= v.total + 1,
        v.total - b.start <= BLOCK_LINES + 1,
    ensures
        kept_lines(v, b.start as int, end).len() == end - b.start,
        kept_lines(v, b.start as int, end)[0] == v.window[b.start - (v.total - v.window.len()
            + 1)],
{
}

} // verus!
