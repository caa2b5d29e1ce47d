//! Running one case: warming up, the steps, the assertions, settling what crashed, cleaning up.

use vstd::prelude::*;

use crate::model::action::Action;
use crate::model::action::ActionView;
use crate::model::node::Hierarchy;
use crate::model::node::HierarchyView;
use crate::monitor::collect::incident_views;
use crate::monitor::collect::Incident;
use crate::monitor::collect::IncidentView;
use crate::monitor::line::option_text;
use crate::script::check::after_attempt;
use crate::script::check::assert_result;
use crate::script::check::assert_views;
use crate::script::check::no_crash_of;
use crate::script::check::no_crash_outcome;
use crate::script::check::outcome_status;
use crate::script::check::result_of;
use crate::script::check::settled_by;
use crate::script::check::status_of;
use crate::script::check::AssertResult;
use crate::script::check::AssertResultView;
use crate::script::check::AssertStatus;
use crate::script::check::AttemptOutcome;
use crate::script::check::OutcomeView;
use crate::script::check::Retry;
use crate::script::gate::countable;
use crate::script::gate::issue_views;
use crate::script::gate::GateIssue;
use crate::script::gate::IssueView;
use crate::script::ir::copy_option;
use crate::script::ir::number_or_place;
use crate::script::ir::Assertion;
use crate::script::ir::Case;
use crate::script::ir::Registry;
use crate::script::ir::Step;
use crate::script::ir::TraceView;
use crate::script::ir::Trace;
use crate::script::steps::action_for;
use crate::script::steps::failed_result;
use crate::script::steps::step_views;
use crate::script::steps::task_of;
use crate::script::steps::wait_of;
use crate::script::steps::wait_result;
use crate::script::steps::StepResult;
use crate::script::steps::StepResultView;
use crate::script::steps::StepRun;
use crate::script::steps::StepTask;
use crate::single::Single;
use crate::strategy::record::copy_texts;
use crate::text::basic::same;
use crate::text::basic::texts;

verus! {

/// What became of a case.
#[derive(Debug)]
pub struct CaseResult {
    pub id: String,
    pub title: String,
    pub priority: String,
    pub tags: Vec<String>,
    pub trace: Trace,
    /// `pass`, `fail`, `skip`, `blocked` or `verified`.
    pub status: String,
    pub duration_ms: u64,
    pub gate: Vec<GateIssue>,
    pub steps: Vec<StepResult>,
    pub assertions: Vec<AssertResult>,
    pub incidents: Vec<Incident>,
}

/// What became of a case, as a mathematical value.
#[verifier::ext_equal]
pub struct CaseResultView {
    pub id: Seq<char>,
    pub title: Seq<char>,
    pub priority: Seq<char>,
    pub tags: Seq<Seq<char>>,
    pub trace: TraceView,
    pub status: Seq<char>,
    pub duration_ms: u64,
    pub gate: Seq<IssueView>,
    pub steps: Seq<StepResultView>,
    pub assertions: Seq<AssertResultView>,
    pub incidents: Seq<IncidentView>,
}

impl View for CaseResult {
    type V = CaseResultView;

    open spec fn view(&self) -> CaseResultView {
        CaseResultView {
            id: self.id@,
            title: self.title@,
            priority: self.priority@,
            tags: texts(self.tags@),
            trace: self.trace@,
            status: self.status@,
            duration_ms: self.duration_ms,
            gate: issue_views(self.gate@),
            steps: step_views(self.steps@),
            assertions: assert_views(self.assertions@),
            incidents: incident_views(self.incidents@),
        }
    }
}

/// A result of a case in which nothing has happened.
pub open spec fn blank_result(case: Case, status: Seq<char>) -> CaseResultView {
    CaseResultView {
        id: case.id@,
        title: case.title@,
        priority: case.priority@,
        tags: texts(case.tags@),
        trace: case.trace@,
        status,
        duration_ms: 0,
        gate: seq![],
        steps: seq![],
        assertions: seq![],
        incidents: seq![],
    }
}

impl CaseResult {
    /// A result of a case in which nothing has happened.
    pub fn blank(case: &Case, status: &str) -> (r: Self)
        ensures
            r@ == blank_result(*case, status@),
    {
        let r = CaseResult {
            id: case.id.clone(),
            title: case.title.clone(),
            priority: case.priority.clone(),
            tags: copy_texts(&case.tags),
            trace: case.trace.clone(),
            status: status.to_string(),
            duration_ms: 0,
            gate: Vec::new(),
            steps: Vec::new(),
            assertions: Vec::new(),
            incidents: Vec::new(),
        };
        assert(r@ =~= blank_result(*case, status@));
        r
    }
}

// ---------------------------------------------------------------- the verdict

pub open spec fn any_failed(s: Seq<AssertResultView>) -> bool {
    exists|i: int| 0 <= i < s.len() && (#[trigger] s[i]).status == AssertStatus::Fail
}

pub open spec fn all_skipped(s: Seq<AssertResultView>) -> bool {
    forall|i: int| 0 <= i < s.len() ==> (#[trigger] s[i]).status == AssertStatus::Skip
}

/// What a case comes to: it fails by a step or by an assertion that failed; it is skipped where
/// all its assertions were, since nothing was tested then.
pub open spec fn verdict_of(ok: bool, asserts: Seq<AssertResultView>) -> Seq<char> {
    if !ok || any_failed(asserts) {
        "fail"@
    } else if asserts.len() > 0 && all_skipped(asserts) {
        "skip"@
    } else {
        "pass"@
    }
}

/// What a case comes to.
pub fn verdict(ok: bool, asserts: &Vec<AssertResult>) -> (r: &'static str)
    ensures
        r@ == verdict_of(ok, assert_views(asserts@)),
{
    let ghost all = assert_views(asserts@);
    let mut skipped = true;
    let mut i: usize = 0;
    while i < asserts.len()
        invariant
            i <= asserts@.len(),
            all == assert_views(asserts@),
            forall|j: int| 0 <= j < i ==> (#[trigger] all[j]).status != AssertStatus::Fail,
            skipped == (forall|j: int|
                0 <= j < i ==> (#[trigger] all[j]).status == AssertStatus::Skip),
        decreases asserts@.len() - i,
    {
        assert(all[i as int].status == asserts@[i as int].status);
        if asserts[i].status == AssertStatus::Fail {
            assert(any_failed(all));
            return "fail";
        }
        if asserts[i].status != AssertStatus::Skip {
            skipped = false;
        }
        i = i + 1;
    }
    assert(all.len() == asserts@.len());
    if !ok {
        "fail"
    } else if asserts.len() > 0 && skipped {
        "skip"
    } else {
        "pass"
    }
}

// ---------------------------------------------------------------- the stages

/// How far a case has come.
#[derive(Debug, Clone, Copy, PartialEq, Eq, Structural)]
pub enum Stage {
    Setup,
    Steps,
    Assertions,
    /// What crashed while the case ran is to be settled.
    Settle,
    Teardown,
    Done,
}

/// A case that is being run.
#[derive(Debug)]
pub struct CaseRun {
    pub stage: Stage,
    /// How far the steps of the stage have come.
    pub run: StepRun,
    /// The place of the assertion to try.
    pub at: usize,
    /// How often it was tried.
    pub attempts: u32,
    /// No step has failed before the assertions.
    pub ok: bool,
    pub steps: Vec<StepResult>,
    pub assertions: Vec<AssertResult>,
    pub incidents: Vec<Incident>,
}

/// A case that is being run, as a mathematical value.
#[verifier::ext_equal]
pub struct CaseRunView {
    pub stage: Stage,
    pub run: StepRun,
    pub at: usize,
    pub attempts: u32,
    pub ok: bool,
    pub steps: Seq<StepResultView>,
    pub assertions: Seq<AssertResultView>,
    pub incidents: Seq<IncidentView>,
}

impl View for CaseRun {
    type V = CaseRunView;

    open spec fn view(&self) -> CaseRunView {
        CaseRunView {
            stage: self.stage,
            run: self.run,
            at: self.at,
            attempts: self.attempts,
            ok: self.ok,
            steps: step_views(self.steps@),
            assertions: assert_views(self.assertions@),
            incidents: incident_views(self.incidents@),
        }
    }
}

/// What is to be done next for a case.
#[derive(Debug, Clone, Copy, PartialEq, Eq, Structural)]
pub enum CaseTask {
    /// Nothing more.
    Finished,
    /// Wait so many milliseconds, for the step that says so.
    Sleep(u64),
    /// Look at the screen, so that the next step can be built.
    Look,
    /// Try the assertion at the place, by the activity in front.
    TryActivity(usize),
    /// Try the assertion at the place, by what the screen shows.
    TryPage(usize),
    /// Take the incidents noticed while the case ran.
    Poll,
}

/// The steps of a stage.
pub open spec fn steps_of(stage: Stage, case: Case) -> Seq<Step> {
    match stage {
        Stage::Setup => case.setup@,
        Stage::Teardown => case.teardown@,
        _ => case.steps@,
    }
}

/// What the steps of a stage are marked with.
pub open spec fn stage_text(stage: Stage) -> Seq<char> {
    match stage {
        Stage::Setup => "setup"@,
        Stage::Teardown => "teardown"@,
        _ => "step"@,
    }
}

/// The stage is one that runs steps.
pub open spec fn runs_steps(stage: Stage) -> bool {
    stage == Stage::Setup || stage == Stage::Steps || stage == Stage::Teardown
}

/// The steps of a stage are over.
pub open spec fn over(run: StepRun, steps: Seq<Step>) -> bool {
    run.failed || run.at >= steps.len()
}

/// Settled for the whole case, and not by looking at a screen.
pub open spec fn about_crashes(a: Assertion) -> bool {
    a.kind@ == "no_crash"@
}

/// The place of the first assertion from `i` on that is to be tried; the number of assertions
/// where there is none.
pub open spec fn next_check(s: Seq<Assertion>, i: int) -> int
    decreases s.len() - i,
{
    if i < 0 || i >= s.len() {
        s.len() as int
    } else if about_crashes(s[i]) {
        next_check(s, i + 1)
    } else {
        i
    }
}

pub open spec fn past_setup(c: CaseRunView, case: Case) -> CaseRunView {
    if c.stage == Stage::Setup && over(c.run, case.setup@) {
        CaseRunView {
            stage: if c.run.failed {
                Stage::Settle
            } else {
                Stage::Steps
            },
            run: StepRun { at: 0, failed: false },
            ok: !c.run.failed,
            ..c
        }
    } else {
        c
    }
}

pub open spec fn past_steps(c: CaseRunView, case: Case) -> CaseRunView {
    if c.stage == Stage::Steps && over(c.run, case.steps@) {
        CaseRunView {
            stage: if c.run.failed {
                Stage::Settle
            } else {
                Stage::Assertions
            },
            run: StepRun { at: 0, failed: false },
            ok: !c.run.failed,
            ..c
        }
    } else {
        c
    }
}

pub open spec fn past_assertions(c: CaseRunView, case: Case) -> CaseRunView {
    if c.stage == Stage::Assertions {
        let k = next_check(case.assertions@, c.at as int);
        CaseRunView {
            stage: if k >= case.assertions@.len() {
                Stage::Settle
            } else {
                Stage::Assertions
            },
            at: k as usize,
            ..c
        }
    } else {
        c
    }
}

pub open spec fn past_teardown(c: CaseRunView, case: Case) -> CaseRunView {
    if c.stage == Stage::Teardown && over(c.run, case.teardown@) {
        CaseRunView { stage: Stage::Done, ..c }
    } else {
        c
    }
}

/// Goes on to the stage in which there is something to do. The assertions are reached only where
/// all steps before them succeeded; cleaning up is reached in any case.
pub open spec fn moved(c: CaseRunView, case: Case) -> CaseRunView {
    past_teardown(past_assertions(past_steps(past_setup(c, case), case), case), case)
}

/// A case at its start.
pub open spec fn started(case: Case) -> CaseRunView {
    moved(
        CaseRunView {
            stage: Stage::Setup,
            run: StepRun { at: 0, failed: false },
            at: 0,
            attempts: 0,
            ok: true,
            steps: seq![],
            assertions: seq![],
            incidents: seq![],
        },
        case,
    )
}

/// What is to be done next.
pub open spec fn case_task(c: CaseRunView, case: Case, settle_ms: u64) -> CaseTask {
    match c.stage {
        Stage::Done => CaseTask::Finished,
        Stage::Settle => CaseTask::Poll,
        Stage::Assertions => if case.assertions@[c.at as int].kind@ == "activity_is"@ {
            CaseTask::TryActivity(c.at)
        } else {
            CaseTask::TryPage(c.at)
        },
        _ => match task_of(c.run, steps_of(c.stage, case), settle_ms) {
            StepTask::Finished => CaseTask::Finished,
            StepTask::Sleep(ms) => CaseTask::Sleep(ms),
            StepTask::Look => CaseTask::Look,
        },
    }
}

/// The step that waits is over.
pub open spec fn slept_in(c: CaseRunView, case: Case, settle_ms: u64) -> CaseRunView {
    let s = steps_of(c.stage, case)[c.run.at as int];
    moved(
        CaseRunView {
            run: StepRun { at: (c.run.at + 1) as usize, ..c.run },
            steps: c.steps.push(
                wait_result(s, c.run.at as int, stage_text(c.stage), wait_of(s, settle_ms)),
            ),
            ..c
        },
        case,
    )
}

/// A step could not be built.
pub open spec fn refused_in(c: CaseRunView, case: Case, why: Seq<char>) -> CaseRunView {
    let s = steps_of(c.stage, case)[c.run.at as int];
    moved(
        CaseRunView {
            run: StepRun { failed: true, ..c.run },
            steps: c.steps.push(failed_result(s, c.run.at as int, stage_text(c.stage), why)),
            ..c
        },
        case,
    )
}

/// The screen was looked at for a step, or could not be.
pub open spec fn looked_in(
    c: CaseRunView,
    case: Case,
    reg: Registry,
    page: Result<HierarchyView, Seq<char>>,
    places: Seq<Option<(Single, Single)>>,
) -> (Option<ActionView>, CaseRunView) {
    let s = steps_of(c.stage, case)[c.run.at as int];
    match page {
        Err(e) => (None, refused_in(c, case, "dump 失败: "@ + e)),
        Ok(h) => match action_for(s, reg, h, places) {
            Err(m) => (None, refused_in(c, case, m)),
            Ok((a, sr)) => (
                Some(a),
                CaseRunView {
                    steps: c.steps.push(StepResultView { stage: stage_text(c.stage), ..sr }),
                    ..c
                },
            ),
        },
    }
}

/// The action of a step was performed, or could not be.
pub open spec fn performed_in(c: CaseRunView, case: Case, error: Option<Seq<char>>) -> CaseRunView {
    match error {
        None => moved(
            CaseRunView { run: StepRun { at: (c.run.at + 1) as usize, ..c.run }, ..c },
            case,
        ),
        Some(e) => moved(
            CaseRunView {
                run: StepRun { failed: true, ..c.run },
                steps: c.steps.update(
                    c.steps.len() - 1,
                    StepResultView { ok: false, detail: "动作下发失败: "@ + e, ..c.steps.last() },
                ),
                ..c
            },
            case,
        ),
    }
}

/// The assertion was tried once more.
pub open spec fn tried_in_case(
    c: CaseRunView,
    case: Case,
    o: OutcomeView,
    expired: bool,
) -> CaseRunView {
    let a = case.assertions@[c.at as int];
    let n = (c.attempts + 1) as u32;
    match settled_by(n, o, expired) {
        None => CaseRunView { attempts: n, ..c },
        Some((status, msg)) => moved(
            CaseRunView {
                at: (c.at + 1) as usize,
                attempts: 0,
                assertions: c.assertions.push(
                    result_of(a, c.at as int, option_text(a.expect), status, msg, n),
                ),
                ..c
            },
            case,
        ),
    }
}

/// The results of the assertions about crashes, all by the same outcome.
pub open spec fn crash_results(s: Seq<Assertion>, o: OutcomeView) -> Seq<AssertResultView>
    decreases s.len(),
{
    if s.len() == 0 {
        seq![]
    } else {
        let before = crash_results(s.drop_last(), o);
        if about_crashes(s.last()) {
            before.push(result_of(s.last(), s.len() - 1, None, status_of(o), o.msg, 1))
        } else {
            before
        }
    }
}

/// The incidents noticed while the case ran are known.
pub open spec fn polled_in(
    c: CaseRunView,
    case: Case,
    monitored: bool,
    during: Seq<Incident>,
) -> CaseRunView {
    moved(
        CaseRunView {
            stage: Stage::Teardown,
            run: StepRun { at: 0, failed: false },
            assertions: c.assertions + crash_results(
                case.assertions@,
                no_crash_of(monitored, during),
            ),
            incidents: incident_views(during),
            ..c
        },
        case,
    )
}

/// The result of a case that is over.
pub open spec fn finished_case(c: CaseRunView, case: Case, duration_ms: u64) -> CaseResultView {
    CaseResultView {
        status: verdict_of(c.ok, c.assertions),
        duration_ms,
        steps: c.steps,
        assertions: c.assertions,
        incidents: c.incidents,
        ..blank_result(case, seq![])
    }
}

// ---------------------------------------------------------------- the invariant

/// How many assertions are tried one by one.
pub open spec fn checks(s: Seq<Assertion>) -> int
    decreases s.len(),
{
    if s.len() == 0 {
        0
    } else {
        checks(s.drop_last()) + if about_crashes(s.last()) {
            0int
        } else {
            1int
        }
    }
}

/// Every step that was recorded has succeeded, those of cleaning up aside.
pub open spec fn all_done(steps: Seq<StepResultView>) -> bool {
    forall|i: int|
        0 <= i < steps.len() && (#[trigger] steps[i]).stage != "teardown"@ ==> steps[i].ok
}

/// No step before the assertions has failed so far.
pub open spec fn unbroken(c: CaseRunView) -> bool {
    c.ok && !((c.stage == Stage::Setup || c.stage == Stage::Steps) && c.run.failed)
}

/// How many steps are planned before the assertions.
pub open spec fn planned(case: Case) -> int {
    (case.setup@.len() + case.steps@.len()) as int
}

/// The first `n` results are those of the first `n` planned steps, one for each.
pub open spec fn recorded(steps: Seq<StepResultView>, case: Case, n: int) -> bool {
    &&& n <= steps.len()
    &&& forall|i: int|
        0 <= i < n ==> (#[trigger] steps[i]).stage == if i < case.setup@.len() {
            "setup"@
        } else {
            "step"@
        }
}

/// A run of a case that can have come about: there is something to do in its stage, it is
/// unbroken exactly if every recorded step before the assertions has succeeded, every planned
/// step that is behind it has its result, and without a failed step every assertion has its
/// result by the time the case is cleaned up.
pub open spec fn fits(c: CaseRunView, case: Case) -> bool {
    let all = case.assertions@;
    let before = case.setup@.len() as int;
    &&& unbroken(c) <==> all_done(c.steps)
    &&& match c.stage {
        Stage::Setup => !over(c.run, case.setup@) && c.ok && c.assertions.len() == 0 && c.at == 0
            && c.steps.len() == c.run.at && recorded(c.steps, case, c.run.at as int),
        Stage::Steps => !over(c.run, case.steps@) && c.ok && c.assertions.len() == 0 && c.at == 0
            && c.steps.len() == before + c.run.at && recorded(c.steps, case, before + c.run.at),
        Stage::Assertions => c.at < all.len() && !about_crashes(all[c.at as int]) && c.ok
            && c.assertions.len() == checks(all.take(c.at as int)) && recorded(
            c.steps,
            case,
            planned(case),
        ),
        Stage::Settle => c.ok ==> c.assertions.len() == checks(all) && recorded(
            c.steps,
            case,
            planned(case),
        ),
        Stage::Teardown => !over(c.run, case.teardown@) && (c.ok ==> c.assertions.len()
            == all.len() && recorded(c.steps, case, planned(case))),
        Stage::Done => c.ok ==> c.assertions.len() == all.len() && recorded(
            c.steps,
            case,
            planned(case),
        ),
    }
}

/// A run in which a step has begun: its result stands there, and its action is not performed yet.
pub open spec fn awaits(c: CaseRunView, case: Case) -> bool {
    &&& runs_steps(c.stage)
    &&& c.steps.len() > 0
    &&& c.steps.last().stage == stage_text(c.stage)
    &&& c.steps.last().ok
    &&& fits(CaseRunView { steps: c.steps.drop_last(), ..c }, case)
}

/// A step further than a run that fits, before going on to the next stage.
pub open spec fn half_way(c: CaseRunView, case: Case) -> bool {
    let all = case.assertions@;
    let before = case.setup@.len() as int;
    &&& unbroken(c) <==> all_done(c.steps)
    &&& match c.stage {
        Stage::Setup => c.ok && c.assertions.len() == 0 && c.at == 0 && c.run.at <= before && (
        !c.run.failed ==> c.steps.len() == c.run.at && recorded(c.steps, case, c.run.at as int)),
        Stage::Steps => c.ok && c.assertions.len() == 0 && c.at == 0 && c.run.at
            <= case.steps@.len() && (!c.run.failed ==> c.steps.len() == before + c.run.at
            && recorded(c.steps, case, before + c.run.at)),
        Stage::Assertions => c.at <= all.len() && c.ok && c.assertions.len() == checks(
            all.take(c.at as int),
        ) && recorded(c.steps, case, planned(case)),
        Stage::Teardown => c.ok ==> c.assertions.len() == all.len() && recorded(
            c.steps,
            case,
            planned(case),
        ),
        _ => fits(c, case),
    }
}

/// The words for the stages before the assertions are not that for cleaning up.
proof fn lemma_stages_differ()
    ensures
        "setup"@ != "teardown"@,
        "step"@ != "teardown"@,
{
    reveal_strlit("setup");
    reveal_strlit("step");
    reveal_strlit("teardown");
    assert("setup"@.len() == 5);
    assert("step"@.len() == 4);
    assert("teardown"@.len() == 8);
}

/// One more result, or another one in place of the last: what that does to whether every step
/// before the assertions has succeeded.
proof fn lemma_all_done(steps: Seq<StepResultView>, r: StepResultView)
    ensures
        all_done(steps.push(r)) <==> all_done(steps) && (r.stage != "teardown"@ ==> r.ok),
        steps.len() > 0 && r.stage == steps.last().stage && !r.ok ==> (all_done(
            steps.update(steps.len() - 1, r),
        ) <==> r.stage == "teardown"@ && all_done(steps)),
{
    let more = steps.push(r);
    assert(more[steps.len() as int] == r);
    assert forall|i: int| 0 <= i < steps.len() implies #[trigger] steps[i] == more[i] by {}
    if steps.len() > 0 {
        let k = steps.len() - 1;
        let other = steps.update(k, r);
        assert(other[k] == r);
        assert forall|i: int| 0 <= i < k implies #[trigger] steps[i] == other[i] by {}
    }
}

proof fn lemma_next_check(s: Seq<Assertion>, i: int)
    requires
        0 <= i <= s.len(),
    ensures
        i <= next_check(s, i) <= s.len(),
        next_check(s, i) < s.len() ==> !about_crashes(s[next_check(s, i)]),
        checks(s.take(next_check(s, i))) == checks(s.take(i)),
    decreases s.len() - i,
{
    if i < s.len() && about_crashes(s[i]) {
        lemma_next_check(s, i + 1);
        assert(s.take(i + 1).drop_last() =~= s.take(i));
        assert(s.take(i + 1).last() == s[i]);
    }
}

/// Going on keeps a run one that can have come about.
pub proof fn lemma_moved_fits(c: CaseRunView, case: Case)
    requires
        half_way(c, case),
        countable(case),
    ensures
        fits(moved(c, case), case),
{
    let all = case.assertions@;
    let c2 = past_steps(past_setup(c, case), case);
    assert(all.take(0) =~= seq![]);
    assert(half_way(c2, case));
    assert(c2.stage != Stage::Setup || !over(c2.run, case.setup@));
    if c2.stage == Stage::Assertions {
        lemma_next_check(all, c2.at as int);
        let k = next_check(all, c2.at as int);
        assert(all.take(all.len() as int) =~= all);
    }
}

proof fn lemma_crash_results_len(s: Seq<Assertion>, o: OutcomeView)
    ensures
        crash_results(s, o).len() + checks(s) == s.len(),
        forall|i: int|
            0 <= i < crash_results(s, o).len() ==> (#[trigger] crash_results(s, o)[i]).status
                == status_of(o),
    decreases s.len(),
{
    if s.len() > 0 {
        lemma_crash_results_len(s.drop_last(), o);
    }
}

// ---------------------------------------------------------------- the code

fn is_over(run: &StepRun, steps: &Vec<Step>) -> (r: bool)
    ensures
        r == over(*run, steps@),
{
    run.failed || run.at >= steps.len()
}

fn find_check(s: &Vec<Assertion>, from: usize) -> (r: usize)
    requires
        from <= s@.len(),
    ensures
        r == next_check(s@, from as int),
        r <= s@.len(),
{
    let mut i: usize = from;
    while i < s.len() && same(s[i].kind.as_str(), "no_crash")
        invariant
            from <= i <= s@.len(),
            next_check(s@, from as int) == next_check(s@, i as int),
        decreases s@.len() - i,
    {
        i = i + 1;
    }
    i
}

/// The results of the assertions about crashes.
fn settle_crashes(asserts: &Vec<Assertion>, o: &AttemptOutcome, out: &mut Vec<AssertResult>)
    requires
        asserts@.len() < u32::MAX,
    ensures
        assert_views(final(out)@) == assert_views(old(out)@) + crash_results(asserts@, o@),
{
    let ghost before = assert_views(out@);
    let mut i: usize = 0;
    assert(assert_views(out@) =~= before + crash_results(asserts@.take(0), o@));
    while i < asserts.len()
        invariant
            i <= asserts@.len(),
            asserts@.len() < u32::MAX,
            assert_views(out@) == before + crash_results(asserts@.take(i as int), o@),
        decreases asserts@.len() - i,
    {
        let a = &asserts[i];
        let ghost now = assert_views(out@);
        proof {
            assert(asserts@.take(i + 1).drop_last() =~= asserts@.take(i as int));
            assert(asserts@.take(i + 1).last() == *a);
        }
        if same(a.kind.as_str(), "no_crash") {
            let res = AssertResult {
                n: number_or_place(a.n, i),
                kind: a.kind.clone(),
                expect: None,
                note: copy_option(&a.desc),
                status: outcome_status(o),
                msg: o.msg.clone(),
                attempts: 1,
            };
            let ghost v = res@;
            out.push(res);
            assert(assert_views(out@) =~= now.push(v));
        }
        assert(assert_views(out@) =~= before + crash_results(asserts@.take(i + 1), o@));
        i = i + 1;
    }
    assert(asserts@.take(i as int) =~= asserts@);
}

impl CaseRun {
    /// Starts a case.
    pub fn begin(case: &Case) -> (r: Self)
        requires
            countable(*case),
        ensures
            r@ == started(*case),
            fits(r@, *case),
    {
        let mut r = CaseRun {
            stage: Stage::Setup,
            run: StepRun::begin(),
            at: 0,
            attempts: 0,
            ok: true,
            steps: Vec::new(),
            assertions: Vec::new(),
            incidents: Vec::new(),
        };
        assert(r@.steps =~= seq![]);
        assert(r@.assertions =~= seq![]);
        assert(r@.incidents =~= seq![]);
        r.go_on(case);
        r
    }

    /// Goes on to the stage in which there is something to do.
    fn go_on(&mut self, case: &Case)
        requires
            countable(*case),
            half_way(old(self)@, *case),
        ensures
            final(self)@ == moved(old(self)@, *case),
            fits(final(self)@, *case),
    {
        proof {
            lemma_moved_fits(self@, *case);
        }
        if self.stage == Stage::Setup && is_over(&self.run, &case.setup) {
            self.ok = !self.run.failed;
            self.stage = if self.run.failed {
                Stage::Settle
            } else {
                Stage::Steps
            };
            self.run = StepRun::begin();
        }
        assert(self@ =~= past_setup(old(self)@, *case));
        if self.stage == Stage::Steps && is_over(&self.run, &case.steps) {
            self.ok = !self.run.failed;
            self.stage = if self.run.failed {
                Stage::Settle
            } else {
                Stage::Assertions
            };
            self.run = StepRun::begin();
        }
        assert(self@ =~= past_steps(past_setup(old(self)@, *case), *case));
        if self.stage == Stage::Assertions {
            self.at = find_check(&case.assertions, self.at);
            if self.at >= case.assertions.len() {
                self.stage = Stage::Settle;
            }
        }
        if self.stage == Stage::Teardown && is_over(&self.run, &case.teardown) {
            self.stage = Stage::Done;
        }
        assert(self@ =~= moved(old(self)@, *case));
    }

    fn list<'a>(&self, case: &'a Case) -> (r: &'a Vec<Step>)
        ensures
            r@ == steps_of(self.stage, *case),
    {
        match self.stage {
            Stage::Setup => &case.setup,
            Stage::Teardown => &case.teardown,
            _ => &case.steps,
        }
    }

    fn mark(&self) -> (r: &'static str)
        ensures
            r@ == stage_text(self.stage),
    {
        match self.stage {
            Stage::Setup => "setup",
            Stage::Teardown => "teardown",
            _ => "step",
        }
    }

    /// The step that is run now; none where none is.
    pub fn step<'a>(&self, case: &'a Case) -> (r: Option<&'a Step>)
        ensures
            r == if runs_steps(self@.stage) && self@.run.at < steps_of(self@.stage, *case).len() {
                Some(&steps_of(self@.stage, *case)[self@.run.at as int])
            } else {
                None
            },
    {
        let steps = self.list(case);
        match self.stage {
            Stage::Setup | Stage::Steps | Stage::Teardown => if self.run.at < steps.len() {
                Some(&steps[self.run.at])
            } else {
                None
            },
            _ => None,
        }
    }

    /// What is to be done next.
    pub fn task(&self, case: &Case, settle_ms: u64) -> (r: CaseTask)
        requires
            fits(self@, *case),
        ensures
            r == case_task(self@, *case, settle_ms),
    {
        match self.stage {
            Stage::Done => CaseTask::Finished,
            Stage::Settle => CaseTask::Poll,
            Stage::Assertions => {
                if same(case.assertions[self.at].kind.as_str(), "activity_is") {
                    CaseTask::TryActivity(self.at)
                } else {
                    CaseTask::TryPage(self.at)
                }
            },
            _ => match self.run.task(self.list(case), settle_ms) {
                StepTask::Finished => CaseTask::Finished,
                StepTask::Sleep(ms) => CaseTask::Sleep(ms),
                StepTask::Look => CaseTask::Look,
            },
        }
    }

    /// The step that waits is over.
    pub fn slept(&mut self, case: &Case, settle_ms: u64)
        requires
            countable(*case),
            fits(old(self)@, *case),
            runs_steps(old(self)@.stage),
        ensures
            final(self)@ == slept_in(old(self)@, *case, settle_ms),
            fits(final(self)@, *case),
    {
        let steps = self.list(case);
        let mark = self.mark();
        let mut run = self.run;
        proof {
            let s = steps@[run.at as int];
            lemma_all_done(
                self@.steps,
                wait_result(s, run.at as int, mark@, wait_of(s, settle_ms)),
            );
        }
        run.slept(steps, mark, settle_ms, &mut self.steps);
        self.run = run;
        self.go_on(case);
    }

    /// The screen was looked at for a step, or could not be, with the reason. Gives the action to
    /// perform; none where the step has failed.
    pub fn looked(
        &mut self,
        case: &Case,
        reg: &Registry,
        page: &Result<Hierarchy, String>,
        places: &Vec<Option<(Single, Single)>>,
    ) -> (r: Option<Action>)
        requires
            countable(*case),
            fits(old(self)@, *case),
            runs_steps(old(self)@.stage),
        ensures
            ({
                let seen = match *page {
                    Ok(h) => Ok(h@),
                    Err(e) => Err(e@),
                };
                let (action, after) = looked_in(old(self)@, *case, *reg, seen, places@);
                &&& (match r {
                    Some(a) => action == Some(a@),
                    None => action is None,
                })
                &&& final(self)@ == after
            }),
            r is None ==> fits(final(self)@, *case),
            r is Some ==> awaits(final(self)@, *case),
    {
        let steps = self.list(case);
        let mark = self.mark();
        let mut run = self.run;
        let ghost before = self@.steps;
        let r = run.looked(steps, mark, reg, page, places, &mut self.steps);
        self.run = run;
        proof {
            let last = self@.steps.last();
            assert(self@.steps == before.push(last));
            lemma_stages_differ();
            lemma_all_done(before, last);
            assert(before.push(last).drop_last() =~= before);
        }
        if r.is_none() {
            self.go_on(case);
        }
        r
    }

    /// The action of a step was performed, or could not be, with the reason.
    pub fn performed(&mut self, case: &Case, error: Option<&str>)
        requires
            countable(*case),
            awaits(old(self)@, *case),
        ensures
            final(self)@ == performed_in(
                old(self)@,
                *case,
                match error {
                    Some(e) => Some(e@),
                    None => None,
                },
            ),
            fits(final(self)@, *case),
    {
        let mut run = self.run;
        let ghost before = self@.steps;
        assert(self.steps@.last()@ == before.last());
        run.performed(error, &mut self.steps);
        self.run = run;
        proof {
            lemma_stages_differ();
            lemma_all_done(before, self@.steps.last());
            assert(before.drop_last().push(before.last()) =~= before);
            lemma_all_done(before.drop_last(), before.last());
        }
        self.go_on(case);
    }

    /// The assertion was tried once more; `expired` says that its time is up.
    pub fn tried(&mut self, case: &Case, out: AttemptOutcome, expired: bool)
        requires
            countable(*case),
            fits(old(self)@, *case),
            old(self)@.stage == Stage::Assertions,
            old(self)@.attempts < u32::MAX,
        ensures
            final(self)@ == tried_in_case(old(self)@, *case, out@, expired),
            fits(final(self)@, *case),
    {
        let n: u32 = self.attempts + 1;
        let ghost was = self@;
        match after_attempt(n, out, expired) {
            Retry::Again => {
                self.attempts = n;
                assert(self@ =~= tried_in_case(was, *case, out@, expired));
            },
            Retry::Settled { status, msg } => {
                let res = assert_result(&case.assertions[self.at], self.at, status, msg, n);
                let ghost v = res@;
                let ghost all = case.assertions@;
                self.assertions.push(res);
                assert(assert_views(self.assertions@) =~= was.assertions.push(v));
                proof {
                    assert(all.take(self.at + 1).drop_last() =~= all.take(self.at as int));
                    assert(all.take(self.at + 1).last() == all[self.at as int]);
                }
                self.at = self.at + 1;
                self.attempts = 0;
                self.go_on(case);
            },
        }
    }

    /// The incidents noticed while the case ran are known, or there is no monitor.
    pub fn polled(&mut self, case: &Case, monitored: bool, during: Vec<Incident>)
        requires
            countable(*case),
            fits(old(self)@, *case),
            old(self)@.stage == Stage::Settle,
        ensures
            final(self)@ == polled_in(old(self)@, *case, monitored, during@),
            fits(final(self)@, *case),
    {
        let out = no_crash_outcome(monitored, during.as_slice());
        proof {
            lemma_crash_results_len(case.assertions@, out@);
        }
        settle_crashes(&case.assertions, &out, &mut self.assertions);
        self.incidents = during;
        self.stage = Stage::Teardown;
        self.run = StepRun::begin();
        self.go_on(case);
    }

    /// The result of the case, once it is over.
    pub fn finish(self, case: &Case, duration_ms: u64) -> (r: CaseResult)
        ensures
            r@ == finished_case(self@, *case, duration_ms),
    {
        let mut r = CaseResult::blank(case, verdict(self.ok, &self.assertions));
        r.duration_ms = duration_ms;
        r.steps = self.steps;
        r.assertions = self.assertions;
        r.incidents = self.incidents;
        assert(r@ =~= finished_case(self@, *case, duration_ms));
        r
    }
}

// ---------------------------------------------------------------- laws

/// The words for what a case comes to differ from one another.
proof fn lemma_verdicts_differ()
    ensures
        "pass"@ != "fail"@,
        "pass"@ != "skip"@,
        "fail"@ != "skip"@,
{
    reveal_strlit("pass");
    reveal_strlit("fail");
    reveal_strlit("skip");
    assert("pass"@[0] == 'p');
    assert("fail"@[0] == 'f');
    assert("skip"@[0] == 's');
}

/// A pass is earned: where a case that has assertions is over and passes, every planned step
/// before the assertions has its result and has succeeded, no assertion has failed, every assertion
/// has a result, and at least one of them was tried and held.
pub proof fn lemma_pass_is_earned(c: CaseRunView, case: Case, duration_ms: u64)
    requires
        fits(c, case),
        c.stage == Stage::Done,
        case.assertions@.len() > 0,
        finished_case(c, case, duration_ms).status == "pass"@,
    ensures
        c.ok,
        all_done(finished_case(c, case, duration_ms).steps),
        recorded(finished_case(c, case, duration_ms).steps, case, planned(case)),
        forall|i: int|
            0 <= i < planned(case) ==> (#[trigger] finished_case(c, case, duration_ms).steps[i]).ok,
        c.assertions.len() == case.assertions@.len(),
        forall|i: int|
            0 <= i < c.assertions.len() ==> (#[trigger] c.assertions[i]).status
                != AssertStatus::Fail,
        exists|i: int|
            0 <= i < c.assertions.len() && (#[trigger] c.assertions[i]).status
                == AssertStatus::Pass,
{
    lemma_verdicts_differ();
    lemma_stages_differ();
    let k = choose|i: int|
        0 <= i < c.assertions.len() && (#[trigger] c.assertions[i]).status != AssertStatus::Skip;
    assert(c.assertions[k].status == AssertStatus::Pass);
}

/// A case that is over fails if and only if a recorded step before the assertions has failed, or
/// an assertion has.
pub proof fn lemma_failure_is_recorded(c: CaseRunView, case: Case, duration_ms: u64)
    requires
        fits(c, case),
        c.stage == Stage::Done,
    ensures
        ({
            let r = finished_case(c, case, duration_ms);
            r.status == "fail"@ <==> !all_done(r.steps) || any_failed(r.assertions)
        }),
{
    lemma_verdicts_differ();
}

/// A case whose assertions were all skipped is neither a pass nor a failure.
pub proof fn lemma_all_skipped_is_no_pass(asserts: Seq<AssertResultView>)
    requires
        asserts.len() > 0,
        all_skipped(asserts),
    ensures
        verdict_of(true, asserts) == "skip"@,
        verdict_of(true, asserts) != "pass"@,
        verdict_of(true, asserts) != "fail"@,
{
    lemma_verdicts_differ();
}

/// Cleaning up never changes what a case comes to, whatever its steps do.
pub proof fn lemma_cleaning_up_keeps_verdict(
    c: CaseRunView,
    case: Case,
    settle_ms: u64,
    reg: Registry,
    page: Result<HierarchyView, Seq<char>>,
    places: Seq<Option<(Single, Single)>>,
    error: Option<Seq<char>>,
    duration_ms: u64,
)
    requires
        c.stage == Stage::Teardown,
    ensures
        ({
            let status = finished_case(c, case, duration_ms).status;
            let looked = looked_in(c, case, reg, page, places).1;
            &&& finished_case(slept_in(c, case, settle_ms), case, duration_ms).status == status
            &&& finished_case(looked, case, duration_ms).status == status
            &&& finished_case(performed_in(c, case, error), case, duration_ms).status == status
        }),
{
}

/// A step that fails before the assertions makes the case fail: the assertions are not tried, and
/// what crashed is settled next.
pub proof fn lemma_failed_step_ends_case(
    c: CaseRunView,
    case: Case,
    why: Seq<char>,
    duration_ms: u64,
)
    requires
        c.stage == Stage::Setup || c.stage == Stage::Steps,
    ensures
        ({
            let refused = refused_in(c, case, why);
            let broken = performed_in(c, case, Some(why));
            &&& refused.stage == Stage::Settle && refused.assertions == c.assertions
            &&& broken.stage == Stage::Settle && broken.assertions == c.assertions
            &&& finished_case(refused, case, duration_ms).status == "fail"@
            &&& finished_case(broken, case, duration_ms).status == "fail"@
        }),
{
}

/// Once a step has failed before the assertions, the case fails whatever happens behind it.
pub proof fn lemma_failure_sticks(
    c: CaseRunView,
    case: Case,
    settle_ms: u64,
    reg: Registry,
    page: Result<HierarchyView, Seq<char>>,
    places: Seq<Option<(Single, Single)>>,
    error: Option<Seq<char>>,
    monitored: bool,
    during: Seq<Incident>,
)
    requires
        fits(c, case),
        !c.ok,
    ensures
        c.stage == Stage::Teardown ==> !slept_in(c, case, settle_ms).ok && !looked_in(
            c,
            case,
            reg,
            page,
            places,
        ).1.ok && !performed_in(c, case, error).ok,
        c.stage == Stage::Settle ==> !polled_in(c, case, monitored, during).ok,
        c.stage == Stage::Settle || c.stage == Stage::Teardown || c.stage == Stage::Done,
        verdict_of(c.ok, c.assertions) == "fail"@,
{
}

/// A crash that was noticed while a case ran makes it fail, if the case asks that there is none.
pub proof fn lemma_crash_fails_case(
    c: CaseRunView,
    case: Case,
    during: Seq<Incident>,
    i: int,
    duration_ms: u64,
)
    requires
        during.len() > 0,
        0 <= i < case.assertions@.len(),
        about_crashes(case.assertions@[i]),
    ensures
        finished_case(polled_in(c, case, true, during), case, duration_ms).status == "fail"@,
{
    let all = case.assertions@;
    let o = no_crash_of(true, during);
    lemma_crash_results_len(all, o);
    lemma_crash_result_of(all, o, i);
    let after = polled_in(c, case, true, during).assertions;
    assert(after =~= c.assertions + crash_results(all, o));
    assert(after[c.assertions.len() as int].status == AssertStatus::Fail);
}

proof fn lemma_crash_result_of(s: Seq<Assertion>, o: OutcomeView, i: int)
    requires
        0 <= i < s.len(),
        about_crashes(s[i]),
    ensures
        crash_results(s, o).len() > 0,
    decreases s.len(),
{
    if i < s.len() - 1 {
        assert(s.drop_last()[i] == s[i]);
        lemma_crash_result_of(s.drop_last(), o, i);
    }
}

} // verus!
