//! What is kept of a run: its steps, its incidents, and all around them.

use vstd::prelude::*;

use crate::device::info::DeviceInfo;
use crate::device::info::InfoView;
use crate::model::action::action_key_of;
use crate::model::action::kind_cn_of;
use crate::model::action::kind_of;
use crate::model::action::label_of;
use crate::model::action::option_target;
use crate::model::action::Action;
use crate::model::action::ActionView;
use crate::model::action::TargetInfo;
use crate::model::action::TargetView;
use crate::monitor::collect::incident_views;
use crate::monitor::collect::Incident;
use crate::monitor::collect::IncidentView;
use crate::monitor::line::option_text;
use crate::monitor::line::IncidentKind;
use crate::strategy::coverage::CoverageReport;
use crate::strategy::coverage::CoverageView;
use crate::strategy::record::StateRecord;
use crate::strategy::record::Transition;
use crate::util::now_str;

verus! {

/// What is kept of a step.
#[derive(Debug)]
pub struct StepRecord {
    pub index: usize,
    pub time: String,
    /// How long the run had lasted, in milliseconds.
    pub elapsed_ms: u64,
    pub action_kind: String,
    pub action_kind_cn: String,
    pub action_label: String,
    pub action_key: String,
    pub target: Option<TargetInfo>,
    pub point: Option<(i32, i32)>,
    pub points: Option<[(i32, i32); 2]>,
    pub text: Option<String>,
    pub activity_before: String,
    pub activity_after: String,
    pub state_before: u64,
    pub state_after: u64,
    pub new_state: bool,
    pub screenshot: Option<String>,
    pub thumb: Option<String>,
    pub duration_ms: u64,
    pub error: Option<String>,
}

/// What is kept of a step, as a mathematical value.
pub struct StepRecordView {
    pub index: usize,
    pub time: Seq<char>,
    pub elapsed_ms: u64,
    pub action_kind: Seq<char>,
    pub action_kind_cn: Seq<char>,
    pub action_label: Seq<char>,
    pub action_key: Seq<char>,
    pub target: Option<TargetView>,
    pub point: Option<(i32, i32)>,
    pub points: Option<Seq<(i32, i32)>>,
    pub text: Option<Seq<char>>,
    pub activity_before: Seq<char>,
    pub activity_after: Seq<char>,
    pub state_before: u64,
    pub state_after: u64,
    pub new_state: bool,
    pub screenshot: Option<Seq<char>>,
    pub thumb: Option<Seq<char>>,
    pub duration_ms: u64,
    pub error: Option<Seq<char>>,
}

pub open spec fn option_points(o: Option<[(i32, i32); 2]>) -> Option<Seq<(i32, i32)>> {
    match o {
        Some(a) => Some(a@),
        None => None,
    }
}

impl View for StepRecord {
    type V = StepRecordView;

    open spec fn view(&self) -> StepRecordView {
        StepRecordView {
            index: self.index,
            time: self.time@,
            elapsed_ms: self.elapsed_ms,
            action_kind: self.action_kind@,
            action_kind_cn: self.action_kind_cn@,
            action_label: self.action_label@,
            action_key: self.action_key@,
            target: option_target(self.target),
            point: self.point,
            points: option_points(self.points),
            text: option_text(self.text),
            activity_before: self.activity_before@,
            activity_after: self.activity_after@,
            state_before: self.state_before,
            state_after: self.state_after,
            new_state: self.new_state,
            screenshot: option_text(self.screenshot),
            thumb: option_text(self.thumb),
            duration_ms: self.duration_ms,
            error: option_text(self.error),
        }
    }
}

/// The widget that an action is aimed at.
pub open spec fn aim_of(a: ActionView) -> Option<TargetView> {
    match a {
        ActionView::Click { target, .. } => Some(target),
        ActionView::LongClick { target, .. } => Some(target),
        ActionView::Input { target, .. } => Some(target),
        ActionView::Swipe { target, .. } => target,
        _ => None,
    }
}

/// The place that an action taps.
pub open spec fn point_of(a: ActionView) -> Option<(i32, i32)> {
    match a {
        ActionView::Click { point, .. } => Some(point),
        ActionView::LongClick { point, .. } => Some(point),
        ActionView::Input { point, .. } => Some(point),
        _ => None,
    }
}

/// Where a swipe starts and ends.
pub open spec fn ends_of(a: ActionView) -> Option<Seq<(i32, i32)>> {
    match a {
        ActionView::Swipe { from, to, .. } => Some(seq![from, to]),
        _ => None,
    }
}

/// The text that an action types.
pub open spec fn typed_by(a: ActionView) -> Option<Seq<char>> {
    match a {
        ActionView::Input { text, .. } => Some(text),
        _ => None,
    }
}

/// The record of a step that is about to be done.
pub open spec fn record_of(
    index: usize,
    a: ActionView,
    activity: Seq<char>,
    state: u64,
    elapsed_ms: u64,
    time: Seq<char>,
) -> StepRecordView {
    StepRecordView {
        index,
        time,
        elapsed_ms,
        action_kind: kind_of(a),
        action_kind_cn: kind_cn_of(a),
        action_label: label_of(a),
        action_key: action_key_of(a),
        target: aim_of(a),
        point: point_of(a),
        points: ends_of(a),
        text: typed_by(a),
        activity_before: activity,
        activity_after: seq![],
        state_before: state,
        state_after: state,
        new_state: false,
        screenshot: None,
        thumb: None,
        duration_ms: 0,
        error: None,
    }
}

fn target_in(a: &Action) -> (r: Option<TargetInfo>)
    ensures
        option_target(r) == aim_of(a@),
{
    match a {
        Action::Click { target, .. } => Some(target.clone()),
        Action::LongClick { target, .. } => Some(target.clone()),
        Action::Input { target, .. } => Some(target.clone()),
        Action::Swipe { target, .. } => match target {
            Some(t) => Some(t.clone()),
            None => None,
        },
        _ => None,
    }
}

fn point_in(a: &Action) -> (r: Option<(i32, i32)>)
    ensures
        r == point_of(a@),
{
    match a {
        Action::Click { point, .. } => Some(*point),
        Action::LongClick { point, .. } => Some(*point),
        Action::Input { point, .. } => Some(*point),
        _ => None,
    }
}

fn ends_in(a: &Action) -> (r: Option<[(i32, i32); 2]>)
    ensures
        option_points(r) == ends_of(a@),
{
    match a {
        Action::Swipe { from, to, .. } => {
            let ends = [*from, *to];
            assert(ends@ =~= seq![*from, *to]);
            Some(ends)
        },
        _ => None,
    }
}

fn text_in(a: &Action) -> (r: Option<String>)
    ensures
        option_text(r) == typed_by(a@),
{
    match a {
        Action::Input { text, .. } => Some(text.clone()),
        _ => None,
    }
}

impl StepRecord {
    /// The record of a step that is about to be done at the given time.
    pub fn from_action_at(
        index: usize,
        action: &Action,
        activity_before: &str,
        state_before: u64,
        elapsed_ms: u64,
        time: String,
    ) -> (r: Self)
        ensures
            r@ == record_of(index, action@, activity_before@, state_before, elapsed_ms, time@),
    {
        let r = StepRecord {
            index,
            time,
            elapsed_ms,
            action_kind: action.kind().to_string(),
            action_kind_cn: action.kind_cn().to_string(),
            action_label: action.label(),
            action_key: action.action_key(),
            target: target_in(action),
            point: point_in(action),
            points: ends_in(action),
            text: text_in(action),
            activity_before: activity_before.to_string(),
            activity_after: String::new(),
            state_before,
            state_after: state_before,
            new_state: false,
            screenshot: None,
            thumb: None,
            duration_ms: 0,
            error: None,
        };
        assert(r.activity_after@ =~= seq![]);
        r
    }

    /// The record of a step that is about to be done now.
    pub fn from_action(
        index: usize,
        action: &Action,
        activity_before: &str,
        state_before: u64,
        elapsed_ms: u64,
    ) -> (r: Self)
        ensures
            r@ == record_of(index, action@, activity_before@, state_before, elapsed_ms, r.time@),
    {
        StepRecord::from_action_at(
            index,
            action,
            activity_before,
            state_before,
            elapsed_ms,
            now_str(),
        )
    }
}

pub open spec fn record_views(s: Seq<StepRecord>) -> Seq<StepRecordView> {
    Seq::new(s.len(), |i: int| s[i]@)
}

/// What a run was asked to do.
#[derive(Debug)]
pub struct RunConfig {
    pub package: String,
    pub activity: Option<String>,
    pub duration_secs: u64,
    pub max_steps: usize,
    pub interval_ms: u64,
    pub seed: u64,
    pub screenshot: bool,
    pub annotate: bool,
    /// How states are told apart: `structural` or `exact`.
    pub state_mode: String,
}

/// How states are told apart where it is not said.
pub fn default_state_mode() -> (r: String)
    ensures
        r@ == "structural"@,
{
    "structural".to_string()
}

/// A run and all that came of it.
#[derive(Debug)]
pub struct Session {
    pub package: String,
    pub activity: String,
    pub device: DeviceInfo,
    pub config: RunConfig,
    pub started_at: String,
    pub finished_at: String,
    pub duration_ms: u64,
    pub steps: Vec<StepRecord>,
    pub incidents: Vec<Incident>,
    pub coverage: CoverageReport,
    /// Which action led from which state to which.
    pub transitions: Vec<Transition>,
    /// The states themselves. The keys of their widgets tell which of them are one page.
    pub states: Vec<StateRecord>,
    pub state_count: usize,
    pub version: String,
}

/// What a report shows of a run, as a mathematical value.
pub struct SessionView {
    pub package: Seq<char>,
    pub device: InfoView,
    pub started_at: Seq<char>,
    pub finished_at: Seq<char>,
    pub duration_ms: u64,
    pub steps: Seq<StepRecordView>,
    pub incidents: Seq<IncidentView>,
    pub coverage: CoverageView,
    pub state_count: usize,
    pub version: Seq<char>,
}

impl View for Session {
    type V = SessionView;

    open spec fn view(&self) -> SessionView {
        SessionView {
            package: self.package@,
            device: self.device@,
            started_at: self.started_at@,
            finished_at: self.finished_at@,
            duration_ms: self.duration_ms,
            steps: record_views(self.steps@),
            incidents: incident_views(self.incidents@),
            coverage: self.coverage@,
            state_count: self.state_count,
            version: self.version@,
        }
    }
}

/// How many of the incidents are crashes, of Java or native code.
pub open spec fn crashes_in(s: Seq<IncidentView>) -> int
    decreases s.len(),
{
    if s.len() == 0 {
        0
    } else {
        crashes_in(s.drop_last()) + if s.last().kind == IncidentKind::Anr {
            0int
        } else {
            1int
        }
    }
}

/// How many of the incidents are an app that did not respond.
pub open spec fn anrs_in(s: Seq<IncidentView>) -> int
    decreases s.len(),
{
    if s.len() == 0 {
        0
    } else {
        anrs_in(s.drop_last()) + if s.last().kind == IncidentKind::Anr {
            1int
        } else {
            0int
        }
    }
}

impl Session {
    /// How many of the incidents are crashes.
    pub fn crash_count(&self) -> (r: usize)
        ensures
            r == crashes_in(self@.incidents),
    {
        let ghost all = self@.incidents;
        let mut n: usize = 0;
        let mut i: usize = 0;
        while i < self.incidents.len()
            invariant
                i <= self.incidents@.len(),
                all == incident_views(self.incidents@),
                n <= i,
                n == crashes_in(all.take(i as int)),
            decreases self.incidents@.len() - i,
        {
            assert(all.take(i + 1).drop_last() =~= all.take(i as int));
            assert(all.take(i + 1).last() == self.incidents@[i as int]@);
            match self.incidents[i].kind {
                IncidentKind::Anr => {},
                _ => {
                    n = n + 1;
                },
            }
            i = i + 1;
        }
        assert(all.take(i as int) =~= all);
        n
    }

    /// How many of the incidents are an app that did not respond.
    pub fn anr_count(&self) -> (r: usize)
        ensures
            r == anrs_in(self@.incidents),
    {
        let ghost all = self@.incidents;
        let mut n: usize = 0;
        let mut i: usize = 0;
        while i < self.incidents.len()
            invariant
                i <= self.incidents@.len(),
                all == incident_views(self.incidents@),
                n <= i,
                n == anrs_in(all.take(i as int)),
            decreases self.incidents@.len() - i,
        {
            assert(all.take(i + 1).drop_last() =~= all.take(i as int));
            assert(all.take(i + 1).last() == self.incidents@[i as int]@);
            match self.incidents[i].kind {
                IncidentKind::Anr => {
                    n = n + 1;
                },
                _ => {},
            }
            i = i + 1;
        }
        assert(all.take(i as int) =~= all);
        n
    }
}

/// Every incident is counted once, as a crash or as an app that did not respond.
pub proof fn lemma_every_incident_is_counted(s: Seq<IncidentView>)
    ensures
        crashes_in(s) + anrs_in(s) == s.len(),
        crashes_in(s) >= 0,
        anrs_in(s) >= 0,
    decreases s.len(),
{
    if s.len() > 0 {
        lemma_every_incident_is_counted(s.drop_last());
    }
}

} // verus!
