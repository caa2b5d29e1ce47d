//! What holds of every run as a whole, and so of the session that comes of it.

use vstd::prelude::*;

use crate::model::action::ActionView;
use crate::model::node::HierarchyView;
use crate::monitor::collect::IncidentView;
use crate::runner::travel::arrived_at;
use crate::runner::travel::begun;
use crate::runner::travel::deciding;
use crate::runner::travel::explored;
use crate::runner::travel::forced_back;
use crate::runner::travel::kept_incident;
use crate::runner::travel::led_to;
use crate::runner::travel::returning;
use crate::runner::travel::stepped;
use crate::runner::travel::used;
use crate::runner::travel::Glance;
use crate::runner::travel::TraversalView;
use crate::session::StepRecordView;
use crate::strategy::config::ConfigView;
use crate::strategy::explorer::state_id;
use crate::strategy::explorer::took;
use crate::strategy::explorer::unused;
use crate::strategy::explorer::ExplorerView;
use crate::strategy::record::lemma_state_at;
use crate::strategy::record::state_at;
use crate::strategy::record::StateView;
use crate::strategy::record::TransitionView;

verus! {

/// Something that happens in a run. Whatever else can happen leaves both views as they were.
pub enum Happening {
    /// The activity that the last step led to is known.
    Arrived { activity: Seq<char> },
    /// The app is not in front.
    Away { glance: Glance, max_relaunch: usize },
    /// The app is in front.
    Inside,
    /// The app could not be seen; the run fails for it where that was so too often.
    Unseen { fails: bool },
    /// The app could be seen.
    Seen,
    /// A screen of the app is looked at.
    Met { h: HierarchyView, activity: Seq<char> },
    /// An action is taken among those on offer.
    Taken { id: u64, action: ActionView },
    /// It is decided what is done next.
    Decided { chosen: Option<ActionView>, max_relaunch: usize },
    /// A step is done.
    Stepped { action: ActionView, id: u64, rec: StepRecordView },
    /// An incident gets its number.
    Numbered,
    /// An incident is kept.
    Kept { inc: IncidentView, file: Seq<char>, shot: Option<(Seq<char>, Seq<char>)> },
    /// The app is looked after behind an incident.
    Revived { running: bool, max_relaunch: usize },
}

/// How far a run has come, and what its explorer knows.
pub struct RunView {
    pub t: TraversalView,
    pub ex: ExplorerView,
}

/// The run once something has happened in it.
pub open spec fn after_happening(r: RunView, e: Happening) -> RunView {
    let t = r.t;
    let ex = r.ex;
    match e {
        Happening::Arrived { activity } => RunView {
            t: TraversalView { steps: arrived_at(t.steps, activity), ..t },
            ex,
        },
        Happening::Away { glance, max_relaunch } => RunView {
            t: returning(t, glance, max_relaunch).1,
            ex,
        },
        Happening::Inside => RunView { t: TraversalView { away_count: 0, ..t }, ex },
        Happening::Unseen { fails } => if fails {
            r
        } else {
            RunView { t: TraversalView { dump_fails: t.dump_fails + 1, ..t }, ex }
        },
        Happening::Seen => RunView {
            t: TraversalView { dump_fails: 0, dump_streak: 0, ..t },
            ex,
        },
        Happening::Met { h, activity } => {
            let id = state_id(ex.cfg.mode, h, activity);
            let is_new = state_at(ex.states, id) == ex.states.len();
            RunView {
                t: TraversalView { pending: None, steps: led_to(t.steps, id, is_new), ..t },
                ex: explored(ex, h, activity, t.step_index as usize, t.pending),
            }
        },
        Happening::Taken { id, action } => RunView { t, ex: took(ex, id, action) },
        Happening::Decided { chosen, max_relaunch } => {
            let stuck = ex.same_streak >= ex.cfg.max_same_state;
            RunView {
                t: deciding(t, chosen, stuck, max_relaunch).1,
                ex: if forced_back(chosen, stuck) {
                    ExplorerView { same_streak: 0, ..ex }
                } else {
                    ex
                },
            }
        },
        Happening::Stepped { action, id, rec } => RunView {
            t: stepped(t, action, id, rec),
            ex: used(ex, action),
        },
        Happening::Numbered => RunView {
            t: TraversalView { incident_seq: t.incident_seq + 1, ..t },
            ex,
        },
        Happening::Kept { inc, file, shot } => RunView {
            t: TraversalView {
                incidents: t.incidents.push(kept_incident(inc, t.step_index as usize, file, shot)),
                ..t
            },
            ex,
        },
        Happening::Revived { running, max_relaunch } => if running || t.relaunches
            >= max_relaunch {
            r
        } else {
            RunView { t: TraversalView { relaunches: t.relaunches + 1, ..t }, ex }
        },
    }
}

/// What can happen next: a step is done in the state that was met last, and its record begins
/// with that state; its number can be counted.
pub open spec fn can_happen(r: RunView, e: Happening) -> bool {
    match e {
        Happening::Stepped { id, rec, .. } => {
            &&& r.ex.last_state == Some(id)
            &&& rec.state_before == id
            &&& rec.state_after == id
            &&& r.t.step_index < usize::MAX
        },
        _ => true,
    }
}

/// A run at its start.
pub open spec fn run_begun(cfg: ConfigView) -> RunView {
    RunView { t: begun(), ex: unused(cfg) }
}

/// The run once several things have happened in it, one after the other.
pub open spec fn after_happenings(r: RunView, events: Seq<Happening>) -> RunView
    decreases events.len(),
{
    if events.len() == 0 {
        r
    } else {
        after_happening(after_happenings(r, events.drop_last()), events.last())
    }
}

/// Each thing can happen where it does.
pub open spec fn can_all_happen(r: RunView, events: Seq<Happening>) -> bool {
    forall|i: int|
        0 <= i < events.len() ==> can_happen(
            after_happenings(r, events.take(i)),
            #[trigger] events[i],
        )
}

/// The state is among the given ones.
pub open spec fn is_among(states: Seq<StateView>, id: u64) -> bool {
    exists|i: int| 0 <= i < states.len() && (#[trigger] states[i]).id == id
}

/// States stand in the order in which they were met first, none of them later than the given step.
pub open spec fn in_order(states: Seq<StateView>, step: int) -> bool {
    &&& forall|i: int, j: int|
        0 <= i <= j < states.len() ==> (#[trigger] states[i]).first_step <= (
        #[trigger] states[j]).first_step
    &&& forall|i: int| 0 <= i < states.len() ==> (#[trigger] states[i]).first_step <= step
}

/// Each step begins and ends in one of the states.
pub open spec fn steps_linked(steps: Seq<StepRecordView>, states: Seq<StateView>) -> bool {
    forall|i: int|
        0 <= i < steps.len() ==> is_among(states, (#[trigger] steps[i]).state_before) && is_among(
            states,
            steps[i].state_after,
        )
}

/// Each transition leads from one of the states to one of them.
pub open spec fn transitions_linked(
    transitions: Seq<TransitionView>,
    states: Seq<StateView>,
) -> bool {
    forall|i: int|
        0 <= i < transitions.len() ==> is_among(states, (#[trigger] transitions[i]).from)
            && is_among(states, transitions[i].to)
}

/// What was recorded of a run and what its explorer knows belong together.
pub open spec fn linked(r: RunView) -> bool {
    &&& 0 <= r.t.step_index <= usize::MAX
    &&& r.t.steps.len() == r.t.step_index
    &&& in_order(r.ex.states, r.t.step_index)
    &&& steps_linked(r.t.steps, r.ex.states)
    &&& transitions_linked(r.ex.transitions, r.ex.states)
    &&& match r.t.pending {
        Some(p) => is_among(r.ex.states, p.from),
        None => true,
    }
    &&& match r.ex.last_state {
        Some(id) => is_among(r.ex.states, id),
        None => true,
    }
}

/// Where states keep their numbers and places, what is among the first is among the second.
proof fn lemma_stays_among(a: Seq<StateView>, b: Seq<StateView>, id: u64)
    requires
        a.len() <= b.len(),
        forall|i: int| 0 <= i < a.len() ==> (#[trigger] b[i]).id == a[i].id,
        is_among(a, id),
    ensures
        is_among(b, id),
{
    let i = choose|i: int| 0 <= i < a.len() && (#[trigger] a[i]).id == id;
    assert(b[i].id == id);
}

/// Where states keep their numbers and places, what belonged to the first belongs to the second.
proof fn lemma_stays_linked(
    steps: Seq<StepRecordView>,
    transitions: Seq<TransitionView>,
    a: Seq<StateView>,
    b: Seq<StateView>,
)
    requires
        a.len() <= b.len(),
        forall|i: int| 0 <= i < a.len() ==> (#[trigger] b[i]).id == a[i].id,
        steps_linked(steps, a),
        transitions_linked(transitions, a),
    ensures
        steps_linked(steps, b),
        transitions_linked(transitions, b),
{
    assert forall|i: int| 0 <= i < steps.len() implies is_among(
        b,
        (#[trigger] steps[i]).state_before,
    ) && is_among(b, steps[i].state_after) by {
        lemma_stays_among(a, b, steps[i].state_before);
        lemma_stays_among(a, b, steps[i].state_after);
    }
    assert forall|i: int| 0 <= i < transitions.len() implies is_among(
        b,
        (#[trigger] transitions[i]).from,
    ) && is_among(b, transitions[i].to) by {
        lemma_stays_among(a, b, transitions[i].from);
        lemma_stays_among(a, b, transitions[i].to);
    }
}

proof fn lemma_met_linked(r: RunView, h: HierarchyView, activity: Seq<char>)
    requires
        linked(r),
    ensures
        linked(after_happening(r, Happening::Met { h, activity })),
{
    let after = after_happening(r, Happening::Met { h, activity });
    let id = state_id(r.ex.cfg.mode, h, activity);
    let a = r.ex.states;
    let b = after.ex.states;
    let k = state_at(a, id);
    lemma_state_at(a, id);
    assert(b[k].id == id);
    assert(is_among(b, id));
    lemma_stays_linked(r.t.steps, r.ex.transitions, a, b);
    if let Some(p) = r.t.pending {
        lemma_stays_among(a, b, p.from);
    }
    assert forall|i: int, j: int| 0 <= i <= j < b.len() implies (#[trigger] b[i]).first_step <= (
    #[trigger] b[j]).first_step by {
        if j < a.len() {
            assert(a[i].first_step <= a[j].first_step);
        } else if i < a.len() {
            assert(a[i].first_step <= r.t.step_index);
        }
    }
    assert forall|i: int| 0 <= i < b.len() implies (#[trigger] b[i]).first_step
        <= after.t.step_index by {
        if i < a.len() {
            assert(a[i].first_step <= r.t.step_index);
        }
    }
    assert forall|i: int| 0 <= i < after.t.steps.len() implies is_among(
        b,
        (#[trigger] after.t.steps[i]).state_before,
    ) && is_among(b, after.t.steps[i].state_after) by {
        assert(is_among(b, r.t.steps[i].state_before));
    }
}

proof fn lemma_taken_linked(r: RunView, id: u64, action: ActionView)
    requires
        linked(r),
    ensures
        linked(after_happening(r, Happening::Taken { id, action })),
{
    let a = r.ex.states;
    let b = after_happening(r, Happening::Taken { id, action }).ex.states;
    lemma_state_at(a, id);
    lemma_stays_linked(r.t.steps, r.ex.transitions, a, b);
    if let Some(p) = r.t.pending {
        lemma_stays_among(a, b, p.from);
    }
    if let Some(last) = r.ex.last_state {
        lemma_stays_among(a, b, last);
    }
    assert forall|i: int, j: int| 0 <= i <= j < b.len() implies (#[trigger] b[i]).first_step <= (
    #[trigger] b[j]).first_step by {
        assert(a[i].first_step <= a[j].first_step);
    }
}

/// Whatever happens in a run, what was recorded of it and what its explorer knows go on belonging
/// together.
pub proof fn lemma_stays_together(r: RunView, e: Happening)
    requires
        linked(r),
        can_happen(r, e),
    ensures
        linked(after_happening(r, e)),
{
    let after = after_happening(r, e);
    match e {
        Happening::Met { h, activity } => {
            lemma_met_linked(r, h, activity);
        },
        Happening::Taken { id, action } => {
            lemma_taken_linked(r, id, action);
        },
        Happening::Arrived { .. } => {
            assert forall|i: int| 0 <= i < after.t.steps.len() implies is_among(
                after.ex.states,
                (#[trigger] after.t.steps[i]).state_before,
            ) && is_among(after.ex.states, after.t.steps[i].state_after) by {
                assert(is_among(r.ex.states, r.t.steps[i].state_before));
            }
        },
        Happening::Stepped { .. } => {
            assert forall|i: int| 0 <= i < after.t.steps.len() implies is_among(
                after.ex.states,
                (#[trigger] after.t.steps[i]).state_before,
            ) && is_among(after.ex.states, after.t.steps[i].state_after) by {
                if i < r.t.steps.len() {
                    assert(is_among(r.ex.states, r.t.steps[i].state_before));
                }
            }
        },
        _ => {},
    }
}

/// A session is of one piece. Whatever happened in a run since it was begun: its states stand in
/// the order of the steps at which they were met first, none of which is later than the steps
/// done; every step begins and ends in one of the states; and every transition leads from one of
/// them to one of them. Steps, states and transitions are what the session is made of.
pub proof fn lemma_session_is_of_one_piece(cfg: ConfigView, events: Seq<Happening>)
    requires
        can_all_happen(run_begun(cfg), events),
    ensures
        ({
            let r = after_happenings(run_begun(cfg), events);
            &&& linked(r)
            &&& in_order(r.ex.states, r.t.steps.len() as int)
            &&& steps_linked(r.t.steps, r.ex.states)
            &&& transitions_linked(r.ex.transitions, r.ex.states)
        }),
    decreases events.len(),
{
    if events.len() > 0 {
        let before = events.drop_last();
        let start = run_begun(cfg);
        assert forall|i: int| 0 <= i < before.len() implies can_happen(
            after_happenings(start, before.take(i)),
            #[trigger] before[i],
        ) by {
            assert(before.take(i) =~= events.take(i));
            assert(before[i] == events[i]);
        }
        lemma_session_is_of_one_piece(cfg, before);
        let k = events.len() - 1;
        assert(events.take(k) =~= before);
        assert(can_happen(after_happenings(start, events.take(k)), events[k]));
        lemma_stays_together(after_happenings(start, before), events.last());
    }
}

} // verus!
