//! Running many cases: which of them run, and what they come to together.

use vstd::prelude::*;

use crate::script::case::blank_result;
use crate::script::case::CaseResult;
use crate::script::case::CaseResultView;
use crate::script::check::AssertResult;
use crate::script::check::AssertResultView;
use crate::script::check::AssertStatus;
use crate::script::check::assert_views;
use crate::script::gate::case_issues;
use crate::script::gate::countable;
use crate::script::gate::gate_case;
use crate::script::gate::glue;
use crate::script::gate::issue_views;
use crate::script::gate::GateIssue;
use crate::script::gate::IssueView;
use crate::script::ir::Case;
use crate::script::ir::Registry;
use crate::script::ir::Trace;
use crate::script::ir::TraceView;
use crate::text::basic::chars_of;
use crate::text::basic::same;
use crate::text::basic::texts;
use crate::text::order::put_text;
use crate::text::order::lemma_sorted_set;
use crate::text::order::lemma_sorted_set_same;
use crate::text::order::rising;
use crate::text::order::same_members;
use crate::text::order::sorted_set;
use crate::text::search::contains;
use crate::text::search::ends_with;
use crate::text::search::finishes;
use crate::text::search::has;

verus! {

// ---------------------------------------------------------------- files

/// The name of a file in YAML: a name, a dot, and `yaml` or `yml`.
pub open spec fn yaml_name(s: Seq<char>) -> bool {
    (s.len() > 5 && finishes(s, ".yaml"@)) || (s.len() > 4 && finishes(s, ".yml"@))
}

fn is_yaml(s: &str) -> (r: bool)
    ensures
        r == yaml_name(s@),
{
    proof {
        reveal_strlit(".yaml");
        reveal_strlit(".yml");
    }
    let n: usize = chars_of(s).len();
    (n > 5 && ends_with(s, ".yaml")) || (n > 4 && ends_with(s, ".yml"))
}

/// The files to read of those in a directory: the ones in YAML, in the order of their names.
pub open spec fn yaml_files_of(names: Seq<Seq<char>>) -> Seq<Seq<char>> {
    sorted_set(names.filter(|s: Seq<char>| yaml_name(s)))
}

/// The files to read of those in a directory.
pub fn yaml_files(names: &Vec<String>) -> (r: Vec<String>)
    ensures
        texts(r@) == yaml_files_of(texts(names@)),
{
    let ghost all = texts(names@);
    let ghost keep = |s: Seq<char>| yaml_name(s);
    let mut out: Vec<String> = Vec::new();
    let mut i: usize = 0;
    proof {
        reveal(Seq::filter);
        assert(all.take(0).filter(keep) =~= seq![]);
        assert(texts(out@) =~= sorted_set(seq![]));
    }
    while i < names.len()
        invariant
            i <= names@.len(),
            all == texts(names@),
            keep == (|s: Seq<char>| yaml_name(s)),
            texts(out@) == sorted_set(all.take(i as int).filter(keep)),
        decreases names@.len() - i,
    {
        proof {
            reveal(Seq::filter);
            assert(all.take(i + 1).drop_last() =~= all.take(i as int));
            assert(all.take(i + 1).last() == names@[i as int]@);
        }
        if is_yaml(names[i].as_str()) {
            put_text(&mut out, names[i].clone());
            assert(all.take(i as int).filter(keep).push(names@[i as int]@).drop_last()
                =~= all.take(i as int).filter(keep));
        }
        i = i + 1;
    }
    assert(all.take(i as int) =~= all);
    out
}

/// The files are read in the order of their names, in whatever order the directory lists them.
pub proof fn lemma_order_of_listing_is_irrelevant(a: Seq<Seq<char>>, b: Seq<Seq<char>>)
    requires
        same_members(a, b),
    ensures
        yaml_files_of(a) == yaml_files_of(b),
        rising(yaml_files_of(a)),
{
    let keep = |s: Seq<char>| yaml_name(s);
    assert forall|y: Seq<char>|
        #![trigger a.filter(keep).contains(y)]
        #![trigger b.filter(keep).contains(y)]
        a.filter(keep).contains(y) <==> b.filter(keep).contains(y) by {
        lemma_filter_members(a, y);
        lemma_filter_members(b, y);
        assert(a.contains(y) <==> b.contains(y));
    }
    lemma_sorted_set_same(a.filter(keep), b.filter(keep));
    lemma_sorted_set(a.filter(keep));
}

proof fn lemma_filter_members(s: Seq<Seq<char>>, y: Seq<char>)
    ensures
        s.filter(|x: Seq<char>| yaml_name(x)).contains(y) <==> s.contains(y) && yaml_name(y),
    decreases s.len(),
{
    let keep = |x: Seq<char>| yaml_name(x);
    reveal(Seq::filter);
    if s.len() > 0 {
        let d = s.drop_last();
        lemma_filter_members(d, y);
        let f = d.filter(keep);
        if s.contains(y) && y != s.last() {
            let k = choose|k: int| 0 <= k < s.len() && s[k] == y;
            assert(d[k] == y);
        }
        if d.contains(y) {
            let k = choose|k: int| 0 <= k < d.len() && d[k] == y;
            assert(s[k] == y);
        }
        if yaml_name(s.last()) {
            assert(s.filter(keep) == f.push(s.last()));
            if f.contains(y) {
                let k = choose|k: int| 0 <= k < f.len() && f[k] == y;
                assert(f.push(s.last())[k] == y);
            }
            if y == s.last() {
                assert(f.push(s.last())[f.len() as int] == y);
                assert(s[s.len() - 1] == y);
            }
            if f.push(s.last()).contains(y) && y != s.last() {
                let k = choose|k: int|
                    0 <= k < f.push(s.last()).len() && f.push(s.last())[k] == y;
                assert(f[k] == y);
            }
        }
    }
}

// ---------------------------------------------------------------- which cases run

/// The case is one that was asked for: the text is part of its id or of its title.
pub open spec fn selected(case: Case, filter: Option<Seq<char>>) -> bool {
    match filter {
        None => true,
        Some(f) => has(case.id@, f) || has(case.title@, f),
    }
}

/// What is done with a case.
pub enum Plan {
    /// Nothing: it was not asked for.
    PassOver,
    /// It does not run; this is its result.
    Report(CaseResult),
    /// It runs.
    Execute,
}

/// What is done with a case, as a mathematical value.
pub enum PlanView {
    PassOver,
    Report(CaseResultView),
    Execute,
}

impl View for Plan {
    type V = PlanView;

    open spec fn view(&self) -> PlanView {
        match self {
            Plan::PassOver => PlanView::PassOver,
            Plan::Report(r) => PlanView::Report(r@),
            Plan::Execute => PlanView::Execute,
        }
    }
}

/// What is done with a case: it runs only if it was asked for, if nothing is wrong with it, and
/// if this is not a dry run.
pub open spec fn plan_of(
    case: Case,
    reg: Registry,
    filter: Option<Seq<char>>,
    dry_run: bool,
) -> PlanView {
    let issues = case_issues(case, reg);
    if !selected(case, filter) {
        PlanView::PassOver
    } else if issues.len() > 0 {
        PlanView::Report(
            CaseResultView { gate: issues, ..blank_result(case, "blocked"@) },
        )
    } else if dry_run {
        PlanView::Report(blank_result(case, "verified"@))
    } else {
        PlanView::Execute
    }
}

/// Decides what is done with a case.
pub fn plan_case(case: &Case, reg: &Registry, filter: Option<&str>, dry_run: bool) -> (r: Plan)
    requires
        countable(*case),
    ensures
        r@ == plan_of(
            *case,
            *reg,
            match filter {
                Some(f) => Some(f@),
                None => None,
            },
            dry_run,
        ),
{
    if let Some(f) = filter {
        if !contains(case.id.as_str(), f) && !contains(case.title.as_str(), f) {
            return Plan::PassOver;
        }
    }
    let gate = gate_case(case, reg);
    assert(issue_views(gate@).len() == gate@.len());
    if gate.len() > 0 {
        let mut r = CaseResult::blank(case, "blocked");
        r.gate = gate;
        return Plan::Report(r);
    }
    if dry_run {
        return Plan::Report(CaseResult::blank(case, "verified"));
    }
    Plan::Execute
}

/// The result of a case that could not be read.
pub open spec fn unread_result(stem: Seq<char>, reason: Seq<char>) -> CaseResultView {
    CaseResultView {
        id: stem,
        title: seq![],
        priority: seq![],
        tags: seq![],
        trace: TraceView {
            requirement: seq![],
            pattern: seq![],
            dimension: seq![],
        },
        status: "blocked"@,
        duration_ms: 0,
        gate: seq![IssueView { location: "load"@, element: seq![], reason }],
        steps: seq![],
        assertions: seq![],
        incidents: seq![],
    }
}

/// The result of a case that could not be read. It is called by the name of its file.
pub fn unread_case(stem: &str, reason: &str) -> (r: CaseResult)
    ensures
        r@ == unread_result(stem@, reason@),
{
    let mut gate: Vec<GateIssue> = Vec::new();
    gate.push(
        GateIssue {
            location: "load".to_string(),
            element: String::new(),
            reason: reason.to_string(),
        },
    );
    let r = CaseResult {
        id: stem.to_string(),
        title: String::new(),
        priority: String::new(),
        tags: Vec::new(),
        trace: Trace {
            requirement: String::new(),
            pattern: String::new(),
            dimension: String::new(),
        },
        status: "blocked".to_string(),
        duration_ms: 0,
        gate,
        steps: Vec::new(),
        assertions: Vec::new(),
        incidents: Vec::new(),
    };
    proof {
        let goal = unread_result(stem@, reason@);
        assert(r@.title =~= seq![]);
        assert(r@.priority =~= seq![]);
        assert(r@.tags =~= seq![]);
        assert(r@.trace.requirement =~= seq![]);
        assert(r@.trace.pattern =~= seq![]);
        assert(r@.trace.dimension =~= seq![]);
        assert(gate@[0]@.element =~= seq![]);
        assert(gate@[0]@ == goal.gate[0]);
        assert(r@.gate =~= goal.gate);
        assert(r@ =~= goal);
    }
    r
}

// ---------------------------------------------------------------- what it comes to

/// How many cases came to what.
#[derive(Debug, Clone, Copy, PartialEq, Eq, Structural)]
pub struct Summary {
    /// All cases that there are, those passed over among them.
    pub total: usize,
    pub pass: usize,
    pub fail: usize,
    pub blocked: usize,
    /// Cases whose assertions were all skipped: neither passed nor failed.
    pub skip: usize,
    pub skipped_assertions: usize,
    pub duration_ms: u64,
}

impl Default for Summary {
    fn default() -> (r: Self)
        ensures
            r == (Summary {
                total: 0,
                pass: 0,
                fail: 0,
                blocked: 0,
                skip: 0,
                skipped_assertions: 0,
                duration_ms: 0,
            }),
    {
        Summary {
            total: 0,
            pass: 0,
            fail: 0,
            blocked: 0,
            skip: 0,
            skipped_assertions: 0,
            duration_ms: 0,
        }
    }
}

/// What the status of a case counts as.
#[derive(Debug, Clone, Copy, PartialEq, Eq, Structural)]
pub enum Outcome {
    Pass,
    Fail,
    Skip,
    Blocked,
}

/// What the status of a case counts as. In a dry run a case that may run counts as a pass.
pub open spec fn counts_as(status: Seq<char>) -> Outcome {
    if status == "pass"@ || status == "verified"@ {
        Outcome::Pass
    } else if status == "skip"@ {
        Outcome::Skip
    } else if status == "fail"@ {
        Outcome::Fail
    } else {
        Outcome::Blocked
    }
}

/// What the status of a case counts as.
pub fn outcome(status: &str) -> (r: Outcome)
    ensures
        r == counts_as(status@),
{
    if same(status, "pass") || same(status, "verified") {
        Outcome::Pass
    } else if same(status, "skip") {
        Outcome::Skip
    } else if same(status, "fail") {
        Outcome::Fail
    } else {
        Outcome::Blocked
    }
}

/// How many of the cases count as the given outcome.
pub open spec fn how_many(cases: Seq<CaseResultView>, o: Outcome) -> int
    decreases cases.len(),
{
    if cases.len() == 0 {
        0
    } else {
        how_many(cases.drop_last(), o) + if counts_as(cases.last().status) == o {
            1int
        } else {
            0int
        }
    }
}

/// How many of the assertions were skipped.
pub open spec fn skips(s: Seq<AssertResultView>) -> int
    decreases s.len(),
{
    if s.len() == 0 {
        0
    } else {
        skips(s.drop_last()) + if s.last().status == AssertStatus::Skip {
            1int
        } else {
            0int
        }
    }
}

/// How many of the assertions of all cases were skipped.
pub open spec fn all_skips(cases: Seq<CaseResultView>) -> int
    decreases cases.len(),
{
    if cases.len() == 0 {
        0
    } else {
        all_skips(cases.drop_last()) + skips(cases.last().assertions)
    }
}

pub open spec fn case_views(s: Seq<CaseResult>) -> Seq<CaseResultView> {
    Seq::new(s.len(), |i: int| s[i]@)
}

/// What the cases come to together.
pub open spec fn summary_of(total: usize, cases: Seq<CaseResultView>, duration_ms: u64) -> Summary {
    Summary {
        total,
        pass: how_many(cases, Outcome::Pass) as usize,
        fail: how_many(cases, Outcome::Fail) as usize,
        blocked: how_many(cases, Outcome::Blocked) as usize,
        skip: how_many(cases, Outcome::Skip) as usize,
        skipped_assertions: all_skips(cases) as usize,
        duration_ms,
    }
}

proof fn lemma_how_many(cases: Seq<CaseResultView>)
    ensures
        how_many(cases, Outcome::Pass) >= 0,
        how_many(cases, Outcome::Fail) >= 0,
        how_many(cases, Outcome::Skip) >= 0,
        how_many(cases, Outcome::Blocked) >= 0,
        how_many(cases, Outcome::Pass) + how_many(cases, Outcome::Fail) + how_many(
            cases,
            Outcome::Skip,
        ) + how_many(cases, Outcome::Blocked) == cases.len(),
    decreases cases.len(),
{
    if cases.len() > 0 {
        lemma_how_many(cases.drop_last());
    }
}

proof fn lemma_skips(s: Seq<AssertResultView>)
    ensures
        0 <= skips(s) <= s.len(),
    decreases s.len(),
{
    if s.len() > 0 {
        lemma_skips(s.drop_last());
    }
}

proof fn lemma_all_skips_grow(cases: Seq<CaseResultView>, k: int)
    requires
        0 <= k <= cases.len(),
    ensures
        0 <= all_skips(cases.take(k)) <= all_skips(cases),
    decreases cases.len(),
{
    if k == cases.len() {
        assert(cases.take(k) =~= cases);
        if k > 0 {
            lemma_skips(cases.last().assertions);
            lemma_all_skips_grow(cases.drop_last(), k - 1);
            assert(cases.drop_last().take(k - 1) =~= cases.drop_last());
        }
    } else {
        assert(cases.take(k) =~= cases.drop_last().take(k));
        lemma_all_skips_grow(cases.drop_last(), k);
        lemma_skips(cases.last().assertions);
    }
}

fn count_skips(s: &Vec<AssertResult>) -> (r: usize)
    ensures
        r == skips(assert_views(s@)),
{
    let ghost all = assert_views(s@);
    let mut n: usize = 0;
    let mut i: usize = 0;
    while i < s.len()
        invariant
            i <= s@.len(),
            all == assert_views(s@),
            n <= i,
            n == skips(all.take(i as int)),
        decreases s@.len() - i,
    {
        assert(all.take(i + 1).drop_last() =~= all.take(i as int));
        assert(all.take(i + 1).last() == s@[i as int]@);
        if s[i].status == AssertStatus::Skip {
            n = n + 1;
        }
        i = i + 1;
    }
    assert(all.take(i as int) =~= all);
    n
}

impl Summary {
    /// What the cases come to together. `total` is the number of all cases that there are.
    pub fn of(total: usize, cases: &Vec<CaseResult>, duration_ms: u64) -> (r: Self)
        requires
            all_skips(case_views(cases@)) <= usize::MAX,
        ensures
            r == summary_of(total, case_views(cases@), duration_ms),
    {
        let ghost all = case_views(cases@);
        let mut r = Summary::default();
        r.total = total;
        r.duration_ms = duration_ms;
        let mut i: usize = 0;
        while i < cases.len()
            invariant
                i <= cases@.len(),
                all == case_views(cases@),
                all_skips(all) <= usize::MAX,
                r.total == total,
                r.duration_ms == duration_ms,
                r.pass == how_many(all.take(i as int), Outcome::Pass),
                r.fail == how_many(all.take(i as int), Outcome::Fail),
                r.skip == how_many(all.take(i as int), Outcome::Skip),
                r.blocked == how_many(all.take(i as int), Outcome::Blocked),
                r.skipped_assertions == all_skips(all.take(i as int)),
            decreases cases@.len() - i,
        {
            proof {
                assert(all.take(i + 1).drop_last() =~= all.take(i as int));
                assert(all.take(i + 1).last() == cases@[i as int]@);
                lemma_how_many(all.take(i as int));
                lemma_all_skips_grow(all, i + 1);
            }
            r.skipped_assertions = r.skipped_assertions + count_skips(&cases[i].assertions);
            match outcome(cases[i].status.as_str()) {
                Outcome::Pass => {
                    r.pass = r.pass + 1;
                },
                Outcome::Fail => {
                    r.fail = r.fail + 1;
                },
                Outcome::Skip => {
                    r.skip = r.skip + 1;
                },
                Outcome::Blocked => {
                    r.blocked = r.blocked + 1;
                },
            }
            i = i + 1;
        }
        assert(all.take(i as int) =~= all);
        r
    }
}

/// Every result counts as exactly one outcome.
pub proof fn lemma_every_case_counts_once(
    total: usize,
    cases: Seq<CaseResultView>,
    duration_ms: u64,
)
    requires
        cases.len() <= usize::MAX,
    ensures
        ({
            let s = summary_of(total, cases, duration_ms);
            s.pass + s.fail + s.skip + s.blocked == cases.len()
        }),
{
    lemma_how_many(cases);
}

/// One run of a suite of cases.
#[derive(Debug)]
pub struct ScriptRun {
    /// When the report was made.
    pub generated: String,
    pub kb: String,
    pub package: String,
    pub mode: String,
    pub summary: Summary,
    pub cases: Vec<CaseResult>,
}

/// One run of a suite of cases, as a mathematical value.
pub struct ScriptRunView {
    pub generated: Seq<char>,
    pub kb: Seq<char>,
    pub package: Seq<char>,
    pub mode: Seq<char>,
    pub summary: Summary,
    pub cases: Seq<CaseResultView>,
}

impl View for ScriptRun {
    type V = ScriptRunView;

    open spec fn view(&self) -> ScriptRunView {
        ScriptRunView {
            generated: self.generated@,
            kb: self.kb@,
            package: self.package@,
            mode: self.mode@,
            summary: self.summary,
            cases: case_views(self.cases@),
        }
    }
}

impl ScriptRun {
    /// A case has failed, or was blocked.
    pub fn has_problem(&self) -> (r: bool)
        ensures
            r == (self.summary.fail > 0 || self.summary.blocked > 0),
    {
        self.summary.fail > 0 || self.summary.blocked > 0
    }
}

/// How a suite was run, by the kind of the device. A run on a made-up device is not passed off
/// as one on a real device.
pub open spec fn mode_of(dry_run: bool, kind: Seq<char>) -> Seq<char> {
    if dry_run {
        "dry-run"@
    } else if kind == "mock"@ {
        "mock"@
    } else {
        "execute:"@ + kind
    }
}

/// How a suite was run, by the kind of the device.
pub fn run_mode(dry_run: bool, kind: &str) -> (r: String)
    ensures
        r@ == mode_of(dry_run, kind@),
{
    if dry_run {
        "dry-run".to_string()
    } else if same(kind, "mock") {
        "mock".to_string()
    } else {
        glue("execute:", kind)
    }
}

// ---------------------------------------------------------------- laws

/// In a dry run no case is run, and none is reported as one that was.
pub proof fn lemma_dry_run_runs_nothing(case: Case, reg: Registry, filter: Option<Seq<char>>)
    ensures
        match plan_of(case, reg, filter, true) {
            PlanView::Execute => false,
            PlanView::PassOver => true,
            PlanView::Report(r) => r.steps.len() == 0 && r.assertions.len() == 0
                && r.incidents.len() == 0 && (r.status == "verified"@ || r.status == "blocked"@),
        },
{
}

/// A case that something is wrong with never runs; what is wrong is reported, and the run has a
/// problem.
pub proof fn lemma_blocked_case_never_runs(
    case: Case,
    reg: Registry,
    filter: Option<Seq<char>>,
    dry_run: bool,
)
    requires
        case_issues(case, reg).len() > 0,
        selected(case, filter),
    ensures
        match plan_of(case, reg, filter, dry_run) {
            PlanView::Report(r) => r.gate == case_issues(case, reg) && r.steps.len() == 0
                && counts_as(r.status) == Outcome::Blocked,
            _ => false,
        },
{
    reveal_strlit("blocked");
    reveal_strlit("pass");
    reveal_strlit("verified");
    reveal_strlit("skip");
    reveal_strlit("fail");
    assert("blocked"@.len() == 7);
    assert("pass"@.len() == 4);
    assert("verified"@.len() == 8);
    assert("skip"@.len() == 4);
    assert("fail"@.len() == 4);
}

/// A run has a problem exactly where a case failed or was blocked.
pub proof fn lemma_problem_has_a_case(total: usize, cases: Seq<CaseResultView>, duration_ms: u64)
    requires
        cases.len() <= usize::MAX,
    ensures
        ({
            let s = summary_of(total, cases, duration_ms);
            (s.fail > 0 || s.blocked > 0) <==> exists|i: int|
                0 <= i < cases.len() && bad(#[trigger] cases[i])
        }),
{
    lemma_how_many(cases);
    lemma_bad_case(cases);
}

pub open spec fn bad(c: CaseResultView) -> bool {
    counts_as(c.status) == Outcome::Fail || counts_as(c.status) == Outcome::Blocked
}

proof fn lemma_bad_case(cases: Seq<CaseResultView>)
    ensures
        how_many(cases, Outcome::Fail) + how_many(cases, Outcome::Blocked) > 0 <==> exists|i: int|
            0 <= i < cases.len() && bad(#[trigger] cases[i]),
    decreases cases.len(),
{
    if cases.len() > 0 {
        let d = cases.drop_last();
        lemma_bad_case(d);
        lemma_how_many(d);
        if bad(cases.last()) {
            assert(bad(cases[cases.len() - 1]));
        }
        if exists|i: int| 0 <= i < d.len() && bad(#[trigger] d[i]) {
            let i = choose|i: int| 0 <= i < d.len() && bad(#[trigger] d[i]);
            assert(bad(cases[i]));
        }
        if exists|i: int| 0 <= i < cases.len() && bad(#[trigger] cases[i]) {
            let i = choose|i: int| 0 <= i < cases.len() && bad(#[trigger] cases[i]);
            if i < d.len() {
                assert(bad(d[i]));
            }
        }
    }
}

} // verus!
