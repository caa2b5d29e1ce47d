//! How far a run has come, and what it does next.

use vstd::prelude::*;

use crate::device::info::DeviceInfo;
use crate::model::action::action_key_of;
use crate::model::action::target_key_of;
use crate::model::action::Action;
use crate::model::action::ActionView;
use crate::model::node::is_empty;
use crate::model::node::visible_of;
use crate::model::node::Hierarchy;
use crate::model::node::HierarchyView;
use crate::monitor::collect::incident_views;
use crate::monitor::collect::Incident;
use crate::monitor::collect::IncidentView;
use crate::monitor::line::option_text;
use crate::runner::law::in_order;
use crate::runner::law::linked;
use crate::runner::law::steps_linked;
use crate::runner::law::transitions_linked;
use crate::runner::law::RunView;
use crate::runner::options::RunOptions;
use crate::session::record_of;
use crate::session::record_views;
use crate::session::Session;
use crate::session::StepRecord;
use crate::session::StepRecordView;
use crate::strategy::coverage::coverage_of;
use crate::strategy::explorer::has_room_for;
use crate::strategy::explorer::observed;
use crate::strategy::explorer::state_id;
use crate::strategy::explorer::touched_once;
use crate::strategy::explorer::Explorer;
use crate::strategy::explorer::ExplorerView;
use crate::strategy::record::state_at;
use crate::strategy::record::state_views;
use crate::strategy::record::touched_of;
use crate::strategy::record::transition_views;
use crate::strategy::record::TransitionView;
use crate::text::number::dec;
use crate::text::number::padded_dec;
use crate::text::number::zero_padded;
use crate::text::search::begins;
use crate::text::search::starts_with;

verus! {

/// So many looks outside the app in a row lead to a restart.
pub const AWAY_LIMIT: usize = 4;

/// So many looks outside the app at which nothing could be seen mean that the device is lost.
pub const BLIND_LIMIT: usize = 3;

/// So many looks at the app in a row at which nothing could be seen end the run.
pub const DUMP_LIMIT: usize = 5;

/// So many times without an action to take lead to a restart.
pub const BACK_LIMIT: usize = 8;

/// A step whose outcome is not known yet.
#[derive(Debug)]
pub struct Pending {
    pub from: u64,
    pub key: String,
    pub step: usize,
}

/// A step whose outcome is not known yet, as a mathematical value.
pub struct PendingView {
    pub from: u64,
    pub key: Seq<char>,
    pub step: usize,
}

pub open spec fn option_pending(o: Option<Pending>) -> Option<PendingView> {
    match o {
        Some(p) => Some(PendingView { from: p.from, key: p.key@, step: p.step }),
        None => None,
    }
}

/// How far a run has come.
#[derive(Debug)]
pub struct Traversal {
    /// How many steps were done.
    pub step_index: usize,
    /// How often the app was started again.
    pub relaunches: usize,
    /// How often in a row there was no action to take.
    pub back_streak: usize,
    /// How often in a row the app was not in front.
    pub away_count: usize,
    /// How often in a row the app could not be seen.
    pub dump_fails: usize,
    /// How often in a row nothing could be seen outside the app.
    pub dump_streak: usize,
    /// How many incidents there were.
    pub incident_seq: usize,
    pub pending: Option<Pending>,
    pub steps: Vec<StepRecord>,
    pub incidents: Vec<Incident>,
}

/// How far a run has come, as a mathematical value.
#[verifier::ext_equal]
pub struct TraversalView {
    pub step_index: int,
    pub relaunches: int,
    pub back_streak: int,
    pub away_count: int,
    pub dump_fails: int,
    pub dump_streak: int,
    pub incident_seq: int,
    pub pending: Option<PendingView>,
    pub steps: Seq<StepRecordView>,
    pub incidents: Seq<IncidentView>,
}

impl View for Traversal {
    type V = TraversalView;

    open spec fn view(&self) -> TraversalView {
        TraversalView {
            step_index: self.step_index as int,
            relaunches: self.relaunches as int,
            back_streak: self.back_streak as int,
            away_count: self.away_count as int,
            dump_fails: self.dump_fails as int,
            dump_streak: self.dump_streak as int,
            incident_seq: self.incident_seq as int,
            pending: option_pending(self.pending),
            steps: record_views(self.steps@),
            incidents: incident_views(self.incidents@),
        }
    }
}

/// A run at its start.
pub open spec fn begun() -> TraversalView {
    TraversalView {
        step_index: 0,
        relaunches: 0,
        back_streak: 0,
        away_count: 0,
        dump_fails: 0,
        dump_streak: 0,
        incident_seq: 0,
        pending: None,
        steps: seq![],
        incidents: seq![],
    }
}

/// A run that can have come about: no counter has reached its limit, and the records are those
/// of the steps, numbered from one.
pub open spec fn sound(v: TraversalView) -> bool {
    &&& 0 <= v.away_count < AWAY_LIMIT
    &&& 0 <= v.dump_streak < BLIND_LIMIT
    &&& 0 <= v.dump_fails < DUMP_LIMIT
    &&& 0 <= v.back_streak < BACK_LIMIT
    &&& v.steps.len() == v.step_index
    &&& forall|i: int| 0 <= i < v.steps.len() ==> (#[trigger] v.steps[i]).index == i + 1
}

// ---------------------------------------------------------------- when to stop

/// Why a run ends by itself.
#[derive(Debug, Clone, Copy, PartialEq, Eq, Structural)]
pub enum Stop {
    /// It was told to.
    Asked,
    /// There is a file that says so.
    File,
    /// Its time is up.
    Time,
    /// It has done all its steps.
    Steps,
}

/// Why a run ends now, if it does.
pub open spec fn stop_of(
    steps: int,
    asked: bool,
    file: bool,
    elapsed_secs: u64,
    duration_secs: u64,
    max_steps: usize,
) -> Option<Stop> {
    if asked {
        Some(Stop::Asked)
    } else if file {
        Some(Stop::File)
    } else if duration_secs > 0 && elapsed_secs >= duration_secs {
        Some(Stop::Time)
    } else if max_steps > 0 && steps >= max_steps {
        Some(Stop::Steps)
    } else {
        None
    }
}

// ---------------------------------------------------------------- outside the app

/// The app under test is not in front.
pub open spec fn away_from(activity: Seq<char>, package: Seq<char>) -> bool {
    activity.len() == 0 || !begins(activity, package)
}

/// The app under test is not in front.
pub fn is_away(activity: &String, package: &str) -> (r: bool)
    ensures
        r == away_from(activity@, package@),
{
    is_empty(activity) || !starts_with(activity.as_str(), package)
}

/// What a look outside the app has shown.
#[derive(Debug, Clone, Copy, PartialEq, Eq, Structural)]
pub enum Glance {
    /// The screen, and a dialog on it was closed.
    Dismissed,
    /// The screen, with nothing to close on it.
    Seen,
    /// Nothing.
    Blind,
}

/// What is done to get back into the app.
#[derive(Debug, Clone, Copy, PartialEq, Eq, Structural)]
pub enum Return {
    /// Nothing: the device is lost.
    Lost,
    /// Maybe go back, and go on.
    Wait { back: bool },
    /// Maybe go back, and start the app again for the given time.
    Restart { back: bool, nth: usize },
    /// Maybe go back, and end the run: the app was started often enough.
    End { back: bool },
}

/// What is done to get back into the app, and how far the run has come then.
pub open spec fn returning(v: TraversalView, glance: Glance, max_relaunch: usize) -> (
    Return,
    TraversalView,
) {
    let streak = if glance == Glance::Blind {
        v.dump_streak + 1
    } else {
        0
    };
    let back = glance != Glance::Dismissed;
    if streak >= BLIND_LIMIT {
        (Return::Lost, v)
    } else if v.away_count + 1 < AWAY_LIMIT {
        (
            Return::Wait { back },
            TraversalView { away_count: v.away_count + 1, dump_streak: streak, ..v },
        )
    } else if v.relaunches >= max_relaunch {
        (Return::End { back }, TraversalView { away_count: 0, dump_streak: streak, ..v })
    } else {
        (
            Return::Restart { back, nth: (v.relaunches + 1) as usize },
            TraversalView {
                away_count: 0,
                dump_streak: streak,
                relaunches: v.relaunches + 1,
                ..v
            },
        )
    }
}

// ---------------------------------------------------------------- inside the app

/// The last record with what came of the step.
pub open spec fn with_last(s: Seq<StepRecordView>, last: StepRecordView) -> Seq<StepRecordView> {
    s.update(s.len() - 1, last)
}

/// The records once it is known where the last step led.
pub open spec fn arrived_at(s: Seq<StepRecordView>, activity: Seq<char>) -> Seq<StepRecordView> {
    if s.len() == 0 {
        s
    } else {
        with_last(s, StepRecordView { activity_after: activity, ..s.last() })
    }
}

/// The records once it is known which state the last step led to.
pub open spec fn led_to(s: Seq<StepRecordView>, id: u64, is_new: bool) -> Seq<StepRecordView> {
    if s.len() == 0 {
        s
    } else {
        with_last(s, StepRecordView { state_after: id, new_state: is_new, ..s.last() })
    }
}

/// The explorer once a screen was looked at: the step before it is noted with where it led.
pub open spec fn explored(
    v: ExplorerView,
    h: HierarchyView,
    activity: Seq<char>,
    step: usize,
    pending: Option<PendingView>,
) -> ExplorerView {
    let seen = observed(v, h, activity, step);
    match pending {
        Some(p) => ExplorerView {
            transitions: seen.transitions.push(
                TransitionView {
                    from: p.from,
                    to: state_id(v.cfg.mode, h, activity),
                    action: p.key,
                    step: p.step,
                },
            ),
            ..seen
        },
        None => seen,
    }
}

/// What is done next inside the app.
#[derive(Debug)]
pub enum Decision {
    Act(Action),
    /// Start the app again, for the given time.
    Restart(usize),
    /// End the run.
    End,
}

/// What is done next inside the app, as a mathematical value.
pub enum DecisionView {
    Act(ActionView),
    Restart(usize),
    End,
}

impl View for Decision {
    type V = DecisionView;

    open spec fn view(&self) -> DecisionView {
        match self {
            Decision::Act(a) => DecisionView::Act(a@),
            Decision::Restart(n) => DecisionView::Restart(*n),
            Decision::End => DecisionView::End,
        }
    }
}

/// The chosen action is not taken since the run is stuck; it goes back in its place.
pub open spec fn forced_back(chosen: Option<ActionView>, stuck: bool) -> bool {
    stuck && chosen is Some && !(chosen->0 is Back)
}

/// What is done next, by the action that was chosen, if there is any.
pub open spec fn deciding(
    v: TraversalView,
    chosen: Option<ActionView>,
    stuck: bool,
    max_relaunch: usize,
) -> (DecisionView, TraversalView) {
    let streak = if chosen is Some {
        0
    } else {
        v.back_streak + 1
    };
    if streak >= BACK_LIMIT {
        if v.relaunches >= max_relaunch {
            (DecisionView::End, TraversalView { back_streak: 0, ..v })
        } else {
            (
                DecisionView::Restart((v.relaunches + 1) as usize),
                TraversalView { back_streak: 0, relaunches: v.relaunches + 1, ..v },
            )
        }
    } else {
        let action = if chosen is None || forced_back(chosen, stuck) {
            ActionView::Back
        } else {
            chosen->0
        };
        (DecisionView::Act(action), TraversalView { back_streak: streak, ..v })
    }
}

/// The run once a step is done.
pub open spec fn stepped(v: TraversalView, a: ActionView, state: u64, rec: StepRecordView)
    -> TraversalView {
    TraversalView {
        step_index: v.step_index + 1,
        pending: Some(
            PendingView { from: state, key: action_key_of(a), step: (v.step_index + 1) as usize },
        ),
        steps: v.steps.push(rec),
        ..v
    }
}

/// The explorer once a step is done: the widget that it was aimed at counts as used.
pub open spec fn used(v: ExplorerView, a: ActionView) -> ExplorerView {
    match target_key_of(a) {
        Some(k) => touched_once(v, k),
        None => v,
    }
}

/// The name of the picture of a step.
pub open spec fn shot_name_of(step: usize, kind: Seq<char>) -> Seq<char> {
    "step_"@ + zero_padded(dec(step as int), 4) + "_"@ + kind + ".png"@
}

/// The name of the picture of a step.
pub fn shot_name(step: usize, kind: &str) -> (r: String)
    ensures
        r@ == shot_name_of(step, kind@),
{
    let mut h = "step_".to_string();
    h.append(padded_dec(step as u64, 4).as_str());
    h.append("_");
    h.append(kind);
    h.append(".png");
    h
}

/// An incident with all that is known of it.
pub open spec fn kept_incident(
    i: IncidentView,
    step: usize,
    file: Seq<char>,
    shot: Option<(Seq<char>, Seq<char>)>,
) -> IncidentView {
    IncidentView {
        step: Some(step),
        file: Some(file),
        shot: match shot {
            Some((big, _)) => Some(big),
            None => i.shot,
        },
        shot_thumb: match shot {
            Some((_, thumb)) => if thumb.len() > 0 {
                Some(thumb)
            } else {
                i.shot_thumb
            },
            None => i.shot_thumb,
        },
        ..i
    }
}

impl Traversal {
    /// A run that has not begun.
    pub fn new() -> (r: Self)
        ensures
            r@ == begun(),
            sound(r@),
    {
        let r = Traversal {
            step_index: 0,
            relaunches: 0,
            back_streak: 0,
            away_count: 0,
            dump_fails: 0,
            dump_streak: 0,
            incident_seq: 0,
            pending: None,
            steps: Vec::new(),
            incidents: Vec::new(),
        };
        assert(r@.steps =~= seq![]);
        assert(r@.incidents =~= seq![]);
        r
    }

    /// Why the run ends now, if it does.
    pub fn stop_reason(&self, opts: &RunOptions, asked: bool, file: bool, elapsed_secs: u64) -> (r:
        Option<Stop>)
        ensures
            r == stop_of(
                self@.step_index,
                asked,
                file,
                elapsed_secs,
                opts.duration_secs,
                opts.max_steps,
            ),
    {
        if asked {
            Some(Stop::Asked)
        } else if file {
            Some(Stop::File)
        } else if opts.duration_secs > 0 && elapsed_secs >= opts.duration_secs {
            Some(Stop::Time)
        } else if opts.max_steps > 0 && self.step_index >= opts.max_steps {
            Some(Stop::Steps)
        } else {
            None
        }
    }

    /// The activity that the last step led to is known.
    pub fn arrived(&mut self, activity: &str)
        requires
            sound(old(self)@),
        ensures
            final(self)@ == (TraversalView {
                steps: arrived_at(old(self)@.steps, activity@),
                ..old(self)@
            }),
            sound(final(self)@),
    {
        let ghost was = self@.steps;
        if let Some(last) = self.steps.pop() {
            let mut rec = last;
            assert(rec@ == was.last());
            rec.activity_after = activity.to_string();
            let ghost view = rec@;
            self.steps.push(rec);
            assert(record_views(self.steps@) =~= with_last(was, view));
        } else {
            assert(was.len() == 0);
        }
        assert(self@.steps =~= arrived_at(was, activity@));
    }

    /// The app is not in front, and a look at the screen has shown what it has. Gives what is done
    /// to get back.
    pub fn away(&mut self, glance: Glance, max_relaunch: usize) -> (r: Return)
        requires
            sound(old(self)@),
        ensures
            (r, final(self)@) == returning(old(self)@, glance, max_relaunch),
            sound(final(self)@),
    {
        let streak: usize = if glance == Glance::Blind {
            self.dump_streak + 1
        } else {
            0
        };
        let back = glance != Glance::Dismissed;
        if streak >= BLIND_LIMIT {
            return Return::Lost;
        }
        self.dump_streak = streak;
        if self.away_count + 1 < AWAY_LIMIT {
            self.away_count = self.away_count + 1;
            return Return::Wait { back };
        }
        self.away_count = 0;
        if self.relaunches >= max_relaunch {
            return Return::End { back };
        }
        self.relaunches = self.relaunches + 1;
        Return::Restart { back, nth: self.relaunches }
    }

    /// The app is in front.
    pub fn inside(&mut self)
        requires
            sound(old(self)@),
        ensures
            final(self)@ == (TraversalView { away_count: 0, ..old(self)@ }),
            sound(final(self)@),
    {
        self.away_count = 0;
    }

    /// The app could not be seen. Gives how often in a row that was so, and whether the run fails
    /// for it.
    pub fn unseen(&mut self) -> (r: (usize, bool))
        requires
            sound(old(self)@),
        ensures
            r.0 == old(self)@.dump_fails + 1,
            r.1 == (r.0 >= DUMP_LIMIT),
            r.1 == (r.0 >= 5),
            final(self)@ == if r.1 {
                old(self)@
            } else {
                TraversalView { dump_fails: old(self)@.dump_fails + 1, ..old(self)@ }
            },
            sound(final(self)@),
    {
        let n: usize = self.dump_fails + 1;
        if n >= DUMP_LIMIT {
            return (n, true);
        }
        self.dump_fails = n;
        (n, false)
    }

    /// The app could be seen.
    pub fn seen(&mut self)
        requires
            sound(old(self)@),
        ensures
            final(self)@ == (TraversalView { dump_fails: 0, dump_streak: 0, ..old(self)@ }),
            sound(final(self)@),
    {
        self.dump_fails = 0;
        self.dump_streak = 0;
    }

    /// Looks at a screen of the app. Gives its state.
    pub fn meet(&mut self, ex: &mut Explorer, h: &Hierarchy, activity: &str) -> (r: u64)
        requires
            sound(old(self)@),
            has_room_for(old(ex)@, visible_of(h@).len() as int),
        ensures
            r == state_id(old(ex)@.cfg.mode, h@, activity@),
            final(ex)@ == explored(
                old(ex)@,
                h@,
                activity@,
                old(self).step_index,
                old(self)@.pending,
            ),
            final(ex).generator() == old(ex).generator(),
            final(self)@ == (TraversalView {
                pending: None,
                steps: led_to(
                    old(self)@.steps,
                    r,
                    state_at(old(ex)@.states, r) == old(ex)@.states.len(),
                ),
                ..old(self)@
            }),
            sound(final(self)@),
    {
        let (id, is_new) = ex.observe(h, activity, self.step_index);
        let ghost was = self@.steps;
        if let Some(last) = self.steps.pop() {
            let mut rec = last;
            assert(rec@ == was.last());
            rec.state_after = id;
            rec.new_state = is_new;
            let ghost view = rec@;
            self.steps.push(rec);
            assert(record_views(self.steps@) =~= with_last(was, view));
        } else {
            assert(was.len() == 0);
        }
        assert(self@.steps =~= led_to(was, id, is_new));
        let mut none: Option<Pending> = None;
        std::mem::swap(&mut none, &mut self.pending);
        if let Some(p) = none {
            ex.note_transition(p.from, p.key, id, p.step);
        }
        id
    }

    /// Decides what is done next, by the action that was chosen, if there is any.
    pub fn decide(&mut self, ex: &mut Explorer, chosen: Option<Action>, max_relaunch: usize) -> (r:
        Decision)
        requires
            sound(old(self)@),
        ensures
            ({
                let picked = match chosen {
                    Some(a) => Some(a@),
                    None => None,
                };
                let stuck = old(ex)@.same_streak >= old(ex)@.cfg.max_same_state;
                &&& (r@, final(self)@) == deciding(old(self)@, picked, stuck, max_relaunch)
                &&& final(ex)@ == if forced_back(picked, stuck) {
                    ExplorerView { same_streak: 0, ..old(ex)@ }
                } else {
                    old(ex)@
                }
            }),
            final(ex).generator() == old(ex).generator(),
            sound(final(self)@),
    {
        let streak: usize = if chosen.is_some() {
            0
        } else {
            self.back_streak + 1
        };
        let action = match chosen {
            Some(a) => {
                let is_back = match a {
                    Action::Back => true,
                    _ => false,
                };
                if !is_back && ex.is_stuck() {
                    ex.reset_streak();
                    Action::Back
                } else {
                    a
                }
            },
            None => Action::Back,
        };
        if streak >= BACK_LIMIT {
            self.back_streak = 0;
            if self.relaunches >= max_relaunch {
                return Decision::End;
            }
            self.relaunches = self.relaunches + 1;
            return Decision::Restart(self.relaunches);
        }
        self.back_streak = streak;
        Decision::Act(action)
    }

    /// The record of the step that is about to be done.
    pub fn start_step(
        &self,
        action: &Action,
        activity: &str,
        state: u64,
        elapsed_ms: u64,
        time: String,
    ) -> (r: StepRecord)
        requires
            self.step_index < usize::MAX,
        ensures
            r@ == record_of(
                (self.step_index + 1) as usize,
                action@,
                activity@,
                state,
                elapsed_ms,
                time@,
            ),
    {
        StepRecord::from_action_at(
            self.step_index + 1,
            action,
            activity,
            state,
            elapsed_ms,
            time,
        )
    }

    /// The step is done, and its record is complete.
    pub fn end_step(&mut self, ex: &mut Explorer, action: &Action, state: u64, rec: StepRecord)
        requires
            sound(old(self)@),
            old(self).step_index < usize::MAX,
            rec.index == old(self).step_index + 1,
            match target_key_of(action@) {
                Some(k) => touched_of(old(ex)@.nodes, k) < u32::MAX,
                None => true,
            },
        ensures
            final(self)@ == stepped(old(self)@, action@, state, rec@),
            final(ex)@ == used(old(ex)@, action@),
            final(ex).generator() == old(ex).generator(),
            sound(final(self)@),
    {
        let key = action.target_key();
        if let Some(k) = &key {
            ex.mark_touched(k.as_str());
        }
        self.step_index = self.step_index + 1;
        self.pending = Some(
            Pending { from: state, key: action.action_key(), step: self.step_index },
        );
        let ghost was = self@.steps;
        let ghost view = rec@;
        self.steps.push(rec);
        assert(record_views(self.steps@) =~= was.push(view));
    }

    /// The number of an incident that was just noticed.
    pub fn next_incident(&mut self) -> (r: usize)
        requires
            sound(old(self)@),
            old(self).incident_seq < usize::MAX,
        ensures
            r == old(self)@.incident_seq + 1,
            final(self)@ == (TraversalView {
                incident_seq: old(self)@.incident_seq + 1,
                ..old(self)@
            }),
            sound(final(self)@),
    {
        self.incident_seq = self.incident_seq + 1;
        self.incident_seq
    }

    /// Keeps an incident, with the file about it and the pictures of the scene, of which the small
    /// one may be missing.
    pub fn keep_incident(&mut self, inc: Incident, file: String, shot: Option<(String, String)>)
        requires
            sound(old(self)@),
        ensures
            final(self)@ == (TraversalView {
                incidents: old(self)@.incidents.push(
                    kept_incident(
                        inc@,
                        old(self).step_index,
                        file@,
                        match shot {
                            Some((big, thumb)) => Some((big@, thumb@)),
                            None => None,
                        },
                    ),
                ),
                ..old(self)@
            }),
            sound(final(self)@),
    {
        let ghost was = self@.incidents;
        let mut kept = inc;
        kept.step = Some(self.step_index);
        kept.file = Some(file);
        if let Some((big, thumb)) = shot {
            kept.shot = Some(big);
            if !is_empty(&thumb) {
                kept.shot_thumb = Some(thumb);
            }
        }
        let ghost view = kept@;
        self.incidents.push(kept);
        assert(incident_views(self.incidents@) =~= was.push(view));
    }

    /// After an incident: the app is started again where it does not run any more, for the given
    /// time; none where it runs or was started often enough.
    pub fn revive(&mut self, running: bool, max_relaunch: usize) -> (r: Option<usize>)
        requires
            sound(old(self)@),
        ensures
            !running && old(self)@.relaunches < max_relaunch ==> r == Some(
                (old(self)@.relaunches + 1) as usize,
            ) && final(self)@ == (TraversalView {
                relaunches: old(self)@.relaunches + 1,
                ..old(self)@
            }),
            running || old(self)@.relaunches >= max_relaunch ==> r is None && final(self)@ == old(
                self,
            )@,
            sound(final(self)@),
    {
        if running || self.relaunches >= max_relaunch {
            return None;
        }
        self.relaunches = self.relaunches + 1;
        Some(self.relaunches)
    }

    /// It is time to say how far the run has come: at every tenth step, or always.
    pub fn shows_progress(&self, verbose: bool) -> (r: bool)
        ensures
            r == (verbose || self@.step_index % 10 == 0),
    {
        verbose || self.step_index % 10 == 0
    }

    /// The run and all that came of it.
    pub fn into_session(
        self,
        ex: &mut Explorer,
        opts: &RunOptions,
        device: DeviceInfo,
        component: String,
        started_at: String,
        finished_at: String,
        duration_ms: u64,
        version: String,
    ) -> (r: Session)
        ensures
            r.package@ == opts.package@,
            r.activity@ == component@,
            r.device@ == device@,
            r.config.package@ == opts.package@,
            option_text(r.config.activity) == option_text(opts.activity),
            r.config.duration_secs == opts.duration_secs,
            r.config.max_steps == opts.max_steps,
            r.config.interval_ms == opts.interval_ms,
            r.config.seed == opts.seed,
            r.config.screenshot == opts.screenshot,
            r.config.annotate == opts.annotate,
            r.config.state_mode@ == crate::strategy::config::mode_text(opts.state_mode),
            r.started_at@ == started_at@,
            r.finished_at@ == finished_at@,
            r.duration_ms == duration_ms,
            r@.steps == self@.steps,
            r@.incidents == self@.incidents,
            r@.coverage == coverage_of(old(ex)@),
            transition_views(r.transitions@) == old(ex)@.transitions,
            state_views(r.states@) == old(ex)@.states,
            r.state_count == old(ex)@.states.len(),
            r.version@ == version@,
            linked((RunView { t: self@, ex: old(ex)@ })) ==> {
                let states = state_views(r.states@);
                &&& in_order(states, r@.steps.len() as int)
                &&& steps_linked(r@.steps, states)
                &&& transitions_linked(transition_views(r.transitions@), states)
            },
            final(ex)@ == (ExplorerView { transitions: seq![], ..old(ex)@ }),
    {
        let coverage = ex.coverage();
        let states = ex.states_in_order();
        let state_count = ex.state_count();
        let transitions = ex.take_transitions();
        Session {
            package: opts.package.clone(),
            activity: component,
            device,
            config: opts.run_config(),
            started_at,
            finished_at,
            duration_ms,
            steps: self.steps,
            incidents: self.incidents,
            coverage,
            transitions,
            states,
            state_count,
            version,
        }
    }
}

// ---------------------------------------------------------------- laws

/// The app is never started again more often than allowed.
pub proof fn lemma_restarts_are_bounded(
    v: TraversalView,
    glance: Glance,
    chosen: Option<ActionView>,
    stuck: bool,
    max_relaunch: usize,
)
    requires
        0 <= v.relaunches <= max_relaunch,
    ensures
        returning(v, glance, max_relaunch).1.relaunches <= max_relaunch,
        match returning(v, glance, max_relaunch).0 {
            Return::Restart { nth, .. } => nth == v.relaunches + 1 && nth <= max_relaunch,
            _ => returning(v, glance, max_relaunch).1.relaunches == v.relaunches,
        },
        deciding(v, chosen, stuck, max_relaunch).1.relaunches <= max_relaunch,
        match deciding(v, chosen, stuck, max_relaunch).0 {
            DecisionView::Restart(n) => n == v.relaunches + 1 && n <= max_relaunch,
            _ => deciding(v, chosen, stuck, max_relaunch).1.relaunches == v.relaunches,
        },
{
}

/// A run that goes on has not done all its steps yet, and not used up all its time.
pub proof fn lemma_limits_are_kept(
    v: TraversalView,
    asked: bool,
    file: bool,
    elapsed_secs: u64,
    duration_secs: u64,
    max_steps: usize,
)
    requires
        sound(v),
        stop_of(v.step_index, asked, file, elapsed_secs, duration_secs, max_steps) is None,
    ensures
        max_steps > 0 ==> v.steps.len() < max_steps,
        duration_secs > 0 ==> elapsed_secs < duration_secs,
        !asked && !file,
{
}

/// A run that is stuck goes back, is started again or ends; it never goes on in the same state.
pub proof fn lemma_stuck_run_goes_back(
    v: TraversalView,
    chosen: Option<ActionView>,
    max_relaunch: usize,
)
    ensures
        match deciding(v, chosen, true, max_relaunch).0 {
            DecisionView::Act(a) => a is Back,
            _ => true,
        },
{
}

/// Where there is an action to take and the run is not stuck, that action is taken.
pub proof fn lemma_chosen_action_is_taken(v: TraversalView, action: ActionView, max_relaunch: usize)
    ensures
        deciding(v, Some(action), false, max_relaunch).0 == DecisionView::Act(action),
{
}

/// Outside the app a run does not go on for ever: after so many looks it is lost, ends, or starts
/// the app again.
pub proof fn lemma_away_ends(v: TraversalView, glance: Glance, max_relaunch: usize)
    requires
        sound(v),
        v.away_count == AWAY_LIMIT - 1,
    ensures
        !(returning(v, glance, max_relaunch).0 is Wait),
{
}

/// Each step is recorded once, under its own number, in the order of the steps.
pub proof fn lemma_records_are_numbered(v: TraversalView, i: int, j: int)
    requires
        sound(v),
        0 <= i < j < v.steps.len(),
    ensures
        v.steps[i].index < v.steps[j].index,
        v.steps[i].index == i + 1,
        v.steps.len() == v.step_index,
{
}

} // verus!
