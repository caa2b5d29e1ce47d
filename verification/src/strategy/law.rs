//! Laws of exploring.

use vstd::prelude::*;

use crate::model::action::action_key_of;
use crate::model::action::ActionView;
use crate::model::node::key_of;
use crate::model::node::lemma_struct_sig_ignores_text;
use crate::model::node::same_structure;
use crate::model::node::screen_of;
use crate::model::node::visible_of;
use crate::model::node::HierarchyView;
use crate::model::node::NodeView;
use crate::model::rect::Rect;
use crate::strategy::candidate::foreign;
use crate::strategy::candidate::wants_text;
use crate::strategy::candidate::CandidateView;
use crate::strategy::config::ConfigView;
use crate::strategy::config::StateMode;
use crate::strategy::coverage::count_of;
use crate::strategy::coverage::coverage_of;
use crate::strategy::coverage::fits;
use crate::strategy::coverage::missed;
use crate::strategy::coverage::more_missed;
use crate::strategy::coverage::place_missed;
use crate::strategy::coverage::Which;
use crate::strategy::explorer::activity_place;
use crate::strategy::explorer::entered;
use crate::strategy::explorer::lemma_something_is_offered;
use crate::strategy::explorer::observed;
use crate::strategy::explorer::offered;
use crate::strategy::explorer::pool_of;
use crate::strategy::explorer::pool_weights;
use crate::strategy::explorer::registered_all;
use crate::strategy::explorer::state_id;
use crate::strategy::explorer::taken;
use crate::strategy::explorer::took;
use crate::strategy::explorer::touched_once;
use crate::strategy::explorer::tried_in;
use crate::strategy::explorer::unused;
use crate::strategy::explorer::visited;
use crate::strategy::explorer::widgets_offer;
use crate::strategy::explorer::with_keys;
use crate::strategy::explorer::with_tried;
use crate::strategy::explorer::with_tried_count;
use crate::strategy::explorer::ExplorerView;
use crate::strategy::record::lemma_stat_at;
use crate::strategy::record::lemma_state_at;
use crate::strategy::record::lemma_tried_at;
use crate::strategy::record::registered;
use crate::strategy::record::stat_at;
use crate::strategy::record::state_at;
use crate::strategy::record::tried_at;
use crate::strategy::record::ActivityView;
use crate::strategy::record::StatView;
use crate::strategy::record::StateView;
use crate::strategy::record::TransitionView;
use crate::strategy::record::TriedView;
use crate::strategy::weight::pick_from;
use crate::text::order::before;
use crate::text::order::lemma_before_total;
use crate::text::order::lemma_before_transitive;

verus! {

// ---------------------------------------------------------------- what every explorer keeps

pub open spec fn distinct_states(s: Seq<StateView>) -> bool {
    forall|i: int, j: int| 0 <= i < j < s.len() ==> (#[trigger] s[i]).id != (#[trigger] s[j]).id
}

pub open spec fn distinct_stats(s: Seq<StatView>) -> bool {
    forall|i: int, j: int| 0 <= i < j < s.len() ==> (#[trigger] s[i]).key != (#[trigger] s[j]).key
}

pub open spec fn distinct_tried(s: Seq<TriedView>) -> bool {
    forall|i: int, j: int| 0 <= i < j < s.len() ==> (#[trigger] s[i]).id != (#[trigger] s[j]).id
}

pub open spec fn by_name(s: Seq<ActivityView>) -> bool {
    forall|i: int, j: int|
        0 <= i < j < s.len() ==> before((#[trigger] s[i]).name, (#[trigger] s[j]).name)
}

/// No state, widget or activity is kept twice, and activities are in the order of their names.
pub open spec fn sound(v: ExplorerView) -> bool {
    &&& distinct_states(v.states)
    &&& distinct_stats(v.nodes)
    &&& distinct_tried(v.tried)
    &&& by_name(v.activities)
    &&& forall|i: int| 0 <= i < v.activities.len() ==> (#[trigger] v.activities[i]).nodes.no_duplicates()
}

proof fn lemma_registered_distinct(nodes: Seq<StatView>, n: NodeView, activity: Seq<char>)
    requires
        distinct_stats(nodes),
    ensures
        distinct_stats(registered(nodes, n, activity)),
{
    let k = key_of(n);
    lemma_stat_at(nodes, k);
    let r = registered(nodes, n, activity);
    assert forall|i: int, j: int| 0 <= i < j < r.len() implies (#[trigger] r[i]).key != (
    #[trigger] r[j]).key by {
        if j < nodes.len() {
            assert(nodes[i].key != nodes[j].key);
        } else {
            assert(nodes[i].key != k);
        }
    }
}

proof fn lemma_registered_all_distinct(
    nodes: Seq<StatView>,
    vis: Seq<NodeView>,
    package: Seq<char>,
    activity: Seq<char>,
)
    requires
        distinct_stats(nodes),
    ensures
        distinct_stats(registered_all(nodes, vis, package, activity)),
    decreases vis.len(),
{
    if vis.len() > 0 {
        lemma_registered_all_distinct(nodes, vis.drop_last(), package, activity);
        lemma_registered_distinct(
            registered_all(nodes, vis.drop_last(), package, activity),
            vis.last(),
            activity,
        );
    }
}

pub proof fn lemma_activity_place(acts: Seq<ActivityView>, name: Seq<char>, i: int)
    requires
        0 <= i <= acts.len(),
    ensures
        i <= activity_place(acts, name, i) <= acts.len(),
        forall|j: int|
            i <= j < activity_place(acts, name, i) ==> before((#[trigger] acts[j]).name, name),
        activity_place(acts, name, i) < acts.len() ==> !before(
            acts[activity_place(acts, name, i)].name,
            name,
        ),
    decreases acts.len() - i,
{
    if i < acts.len() && before(acts[i].name, name) {
        lemma_activity_place(acts, name, i + 1);
    }
}

proof fn lemma_with_keys(keys: Seq<Seq<char>>, vis: Seq<NodeView>, package: Seq<char>)
    requires
        keys.no_duplicates(),
    ensures
        with_keys(keys, vis, package).no_duplicates(),
    decreases vis.len(),
{
    if vis.len() > 0 {
        lemma_with_keys(keys, vis.drop_last(), package);
    }
}

proof fn lemma_entered_sound(
    acts: Seq<ActivityView>,
    h: HierarchyView,
    package: Seq<char>,
    activity: Seq<char>,
    step: usize,
)
    requires
        by_name(acts),
        forall|i: int| 0 <= i < acts.len() ==> (#[trigger] acts[i]).nodes.no_duplicates(),
    ensures
        by_name(entered(acts, h, package, activity, step)),
        forall|i: int|
            0 <= i < entered(acts, h, package, activity, step).len() ==> (#[trigger] entered(
                acts,
                h,
                package,
                activity,
                step,
            )[i]).nodes.no_duplicates(),
{
    let k = activity_place(acts, activity, 0);
    lemma_activity_place(acts, activity, 0);
    let known = k < acts.len() && acts[k].name == activity;
    let was = if known {
        acts[k].nodes
    } else {
        seq![]
    };
    assert(was.no_duplicates());
    lemma_with_keys(was, visible_of(h), package);
    let r = entered(acts, h, package, activity, step);
    assert forall|i: int, j: int| 0 <= i < j < r.len() implies before(
        (#[trigger] r[i]).name,
        (#[trigger] r[j]).name,
    ) by {
        if known {
            assert(r[i].name == acts[i].name);
            assert(r[j].name == acts[j].name);
        } else {
            if i < k {
                assert(r[i] == acts[i]);
                if j < k {
                    assert(r[j] == acts[j]);
                } else if j > k {
                    assert(r[j] == acts[j - 1]);
                }
            } else if i == k {
                assert(r[j] == acts[j - 1]);
                lemma_before_total(activity, acts[k].name);
                if j - 1 > k {
                    assert(before(acts[k].name, acts[j - 1].name));
                    lemma_before_transitive(activity, acts[k].name, acts[j - 1].name);
                }
            } else {
                assert(r[i] == acts[i - 1]);
                assert(r[j] == acts[j - 1]);
            }
        }
    }
    assert forall|i: int| 0 <= i < r.len() implies (#[trigger] r[i]).nodes.no_duplicates() by {
        if known {
            if i != k {
                assert(r[i] == acts[i]);
            }
        } else if i < k {
            assert(r[i] == acts[i]);
        } else if i > k {
            assert(r[i] == acts[i - 1]);
        }
    }
}

/// Looking at a screen keeps states, widgets and activities distinct.
pub proof fn lemma_observed_sound(
    v: ExplorerView,
    h: HierarchyView,
    activity: Seq<char>,
    step: usize,
)
    requires
        sound(v),
    ensures
        sound(observed(v, h, activity, step)),
{
    let id = state_id(v.cfg.mode, h, activity);
    lemma_registered_all_distinct(v.nodes, visible_of(h), v.cfg.package, activity);
    lemma_entered_sound(v.activities, h, v.cfg.package, activity, step);
    lemma_state_at(v.states, id);
    let s = v.states;
    let r = visited(s, id, h, activity, step);
    assert forall|i: int, j: int| 0 <= i < j < r.len() implies (#[trigger] r[i]).id != (
    #[trigger] r[j]).id by {
        if j < s.len() {
            assert(s[i].id != s[j].id);
        } else {
            assert(s[i].id != id);
        }
    }
}

/// Taking an action keeps states, widgets and activities distinct.
pub proof fn lemma_took_sound(v: ExplorerView, id: u64, c: CandidateView)
    requires
        sound(v),
    ensures
        sound(took(v, id, c.action)),
{
    lemma_tried_at(v.tried, id);
    lemma_state_at(v.states, id);
    let key = action_key_of(c.action);
    let t = with_tried(v.tried, id, key);
    assert forall|i: int, j: int| 0 <= i < j < t.len() implies (#[trigger] t[i]).id != (
    #[trigger] t[j]).id by {
        if j < v.tried.len() {
            assert(v.tried[i].id != v.tried[j].id);
        } else {
            assert(v.tried[i].id != id);
        }
    }
    let s = with_tried_count(v.states, id, tried_in(t, id).len() as int);
    assert forall|i: int, j: int| 0 <= i < j < s.len() implies (#[trigger] s[i]).id != (
    #[trigger] s[j]).id by {
        assert(v.states[i].id != v.states[j].id);
    }
}

/// Noting what was done with a widget keeps states, widgets and activities distinct.
pub proof fn lemma_touched_sound(v: ExplorerView, key: Seq<char>)
    requires
        sound(v),
    ensures
        sound(touched_once(v, key)),
{
    lemma_stat_at(v.nodes, key);
    let n = touched_once(v, key).nodes;
    assert forall|i: int, j: int| 0 <= i < j < n.len() implies (#[trigger] n[i]).key != (
    #[trigger] n[j]).key by {
        assert(v.nodes[i].key != v.nodes[j].key);
    }
}

// ---------------------------------------------------------------- states

/// Looking twice at the same screen of the same activity gives the same state; the second look
/// finds no new state and lengthens the run of equal states by one.
pub proof fn lemma_same_screen_same_state(
    v: ExplorerView,
    h: HierarchyView,
    activity: Seq<char>,
    step: usize,
    later: usize,
)
    ensures
        ({
            let once = observed(v, h, activity, step);
            let twice = observed(once, h, activity, later);
            &&& twice.last_state == once.last_state
            &&& twice.states.len() == once.states.len()
            &&& twice.same_streak == once.same_streak + 1
        }),
{
    let id = state_id(v.cfg.mode, h, activity);
    let once = observed(v, h, activity, step);
    lemma_state_at(v.states, id);
    lemma_state_at(once.states, id);
    if state_at(v.states, id) < v.states.len() {
        assert(once.states[state_at(v.states, id)].id == id);
    } else {
        assert(once.states[v.states.len() as int].id == id);
    }
}

/// Where states are told by structure, texts that change by themselves make no new state: a second
/// screen that differs from the first only in what its widgets show is the same state again, and
/// lengthens the run of equal states by one.
pub proof fn lemma_texts_make_no_new_state(
    v: ExplorerView,
    first: HierarchyView,
    second: HierarchyView,
    activity: Seq<char>,
    step: usize,
    later: usize,
)
    requires
        v.cfg.mode == StateMode::Structure,
        screen_of(first) == screen_of(second),
        visible_of(first).len() == visible_of(second).len(),
        forall|i: int|
            0 <= i < visible_of(first).len() ==> #[trigger] same_structure(
                visible_of(first)[i],
                visible_of(second)[i],
            ),
    ensures
        ({
            let once = observed(v, first, activity, step);
            let twice = observed(once, second, activity, later);
            &&& twice.last_state == once.last_state
            &&& twice.states.len() == once.states.len()
            &&& twice.same_streak == once.same_streak + 1
        }),
{
    lemma_struct_sig_ignores_text(
        activity,
        screen_of(first),
        visible_of(first),
        visible_of(second),
    );
    let id = state_id(v.cfg.mode, first, activity);
    let once = observed(v, first, activity, step);
    lemma_state_at(v.states, id);
    lemma_state_at(once.states, id);
    if state_at(v.states, id) < v.states.len() {
        assert(once.states[state_at(v.states, id)].id == id);
    } else {
        assert(once.states[v.states.len() as int].id == id);
    }
}

/// A look adds at most one state, and none that was met before is lost or moves.
pub proof fn lemma_states_stay(
    v: ExplorerView,
    h: HierarchyView,
    activity: Seq<char>,
    step: usize,
)
    ensures
        v.states.len() <= observed(v, h, activity, step).states.len() <= v.states.len() + 1,
        forall|i: int|
            0 <= i < v.states.len() ==> (#[trigger] observed(v, h, activity, step).states[i]).id
                == v.states[i].id,
{
    lemma_state_at(v.states, state_id(v.cfg.mode, h, activity));
}

/// Something that is done with an explorer. Whatever else can be done with one, such as to draw
/// texts, leaves its view as it was.
pub enum Deed {
    /// A screen is looked at.
    Look { h: HierarchyView, activity: Seq<char>, step: usize },
    /// An action is taken in a state.
    Take { id: u64, action: ActionView },
    /// Something was done with a widget.
    Touch { key: Seq<char> },
    /// A step from one state to another is noted.
    Note { transition: TransitionView },
    /// The steps that were noted are handed out.
    HandOut,
    /// The run of equal states is forgotten.
    Calm,
}

/// The explorer once something was done with it.
pub open spec fn after_deed(v: ExplorerView, d: Deed) -> ExplorerView {
    match d {
        Deed::Look { h, activity, step } => observed(v, h, activity, step),
        Deed::Take { id, action } => took(v, id, action),
        Deed::Touch { key } => touched_once(v, key),
        Deed::Note { transition } => ExplorerView {
            transitions: v.transitions.push(transition),
            ..v
        },
        Deed::HandOut => ExplorerView { transitions: seq![], ..v },
        Deed::Calm => ExplorerView { same_streak: 0, ..v },
    }
}

/// The explorer once several things were done with it, one after the other.
pub open spec fn after_deeds(v: ExplorerView, deeds: Seq<Deed>) -> ExplorerView
    decreases deeds.len(),
{
    if deeds.len() == 0 {
        v
    } else {
        after_deed(after_deeds(v, deeds.drop_last()), deeds.last())
    }
}

/// The state that is met, where a screen is looked at.
pub open spec fn met_by(mode: StateMode, d: Deed) -> Option<u64> {
    match d {
        Deed::Look { h, activity, .. } => Some(state_id(mode, h, activity)),
        _ => None,
    }
}

/// The state was met by one of the looks.
pub open spec fn was_met(mode: StateMode, deeds: Seq<Deed>, id: u64) -> bool {
    exists|i: int| 0 <= i < deeds.len() && met_by(mode, #[trigger] deeds[i]) == Some(id)
}

/// The state that the latest look has met.
pub open spec fn latest_met(mode: StateMode, deeds: Seq<Deed>) -> Option<u64>
    decreases deeds.len(),
{
    if deeds.len() == 0 {
        None
    } else {
        match met_by(mode, deeds.last()) {
            Some(id) => Some(id),
            None => latest_met(mode, deeds.drop_last()),
        }
    }
}

proof fn lemma_known_after_deed(v: ExplorerView, d: Deed, id: u64)
    ensures
        ({
            let w = after_deed(v, d);
            &&& w.cfg == v.cfg
            &&& state_at(w.states, id) < w.states.len() <==> (state_at(v.states, id)
                < v.states.len() || met_by(v.cfg.mode, d) == Some(id))
            &&& w.last_state == match met_by(v.cfg.mode, d) {
                Some(met) => Some(met),
                None => v.last_state,
            }
        }),
{
    let w = after_deed(v, d);
    lemma_state_at(v.states, id);
    lemma_state_at(w.states, id);
    match d {
        Deed::Look { h, activity, .. } => {
            let met = state_id(v.cfg.mode, h, activity);
            lemma_state_at(v.states, met);
            assert forall|i: int| 0 <= i < v.states.len() implies (#[trigger] w.states[i]).id
                == v.states[i].id by {}
            if met == id {
                assert(w.states[state_at(v.states, met)].id == id);
            }
        },
        Deed::Take { id: other, .. } => {
            lemma_state_at(v.states, other);
            assert forall|i: int| 0 <= i < v.states.len() implies (#[trigger] w.states[i]).id
                == v.states[i].id by {}
        },
        _ => {},
    }
    if state_at(v.states, id) < v.states.len() {
        assert(w.states[state_at(v.states, id)].id == id);
    }
    if state_at(w.states, id) < w.states.len() && state_at(w.states, id) < v.states.len() {
        assert(v.states[state_at(w.states, id)].id == id);
    }
}

proof fn lemma_known_after_deeds(cfg: ConfigView, deeds: Seq<Deed>, id: u64)
    ensures
        ({
            let v = after_deeds(unused(cfg), deeds);
            &&& v.cfg == cfg
            &&& state_at(v.states, id) < v.states.len() <==> was_met(cfg.mode, deeds, id)
            &&& v.last_state == latest_met(cfg.mode, deeds)
        }),
    decreases deeds.len(),
{
    if deeds.len() > 0 {
        let before = deeds.drop_last();
        lemma_known_after_deeds(cfg, before, id);
        lemma_known_after_deed(after_deeds(unused(cfg), before), deeds.last(), id);
        if was_met(cfg.mode, before, id) {
            let i = choose|i: int|
                0 <= i < before.len() && met_by(cfg.mode, #[trigger] before[i]) == Some(id);
            assert(met_by(cfg.mode, deeds[i]) == Some(id));
        }
        if met_by(cfg.mode, deeds.last()) == Some(id) {
            assert(met_by(cfg.mode, deeds[deeds.len() - 1]) == Some(id));
        }
        if was_met(cfg.mode, deeds, id) {
            let i = choose|i: int|
                0 <= i < deeds.len() && met_by(cfg.mode, #[trigger] deeds[i]) == Some(id);
            if i < before.len() {
                assert(met_by(cfg.mode, before[i]) == Some(id));
            }
        }
    }
}

/// A state is new exactly once. Whatever was done with an explorer since it was made: a look finds
/// a new state if and only if no look before has met it; there is then one state more, and else as
/// many as before; the run of equal states goes on exactly if the latest look has met the same
/// state, and begins again else. Which state is met depends on the mode, the screen and the activity
/// alone: a further look at the same screen meets the same state, which is not new any more.
pub proof fn lemma_state_is_new_once(
    cfg: ConfigView,
    deeds: Seq<Deed>,
    h: HierarchyView,
    activity: Seq<char>,
    step: usize,
)
    ensures
        ({
            let v = after_deeds(unused(cfg), deeds);
            let id = state_id(v.cfg.mode, h, activity);
            let is_new = state_at(v.states, id) == v.states.len();
            let w = observed(v, h, activity, step);
            &&& id == state_id(cfg.mode, h, activity)
            &&& is_new <==> !was_met(cfg.mode, deeds, id)
            &&& w.states.len() == v.states.len() + if is_new {
                1int
            } else {
                0int
            }
            &&& w.same_streak == if latest_met(cfg.mode, deeds) == Some(id) {
                v.same_streak + 1
            } else {
                0
            }
            &&& w.last_state == Some(id)
            &&& state_id(w.cfg.mode, h, activity) == id
            &&& state_at(w.states, id) < w.states.len()
        }),
{
    let v = after_deeds(unused(cfg), deeds);
    let id = state_id(v.cfg.mode, h, activity);
    lemma_known_after_deeds(cfg, deeds, id);
    lemma_known_after_deed(v, Deed::Look { h, activity, step }, id);
    lemma_state_at(v.states, id);
}

// ---------------------------------------------------------------- choosing

proof fn lemma_pick_range(ws: Seq<u64>, i: int, r: int)
    requires
        0 <= i < ws.len(),
    ensures
        i <= pick_from(ws, i, r) < ws.len(),
    decreases ws.len() - i,
{
    if i + 1 < ws.len() {
        lemma_pick_range(ws, i + 1, crate::single::round24_signed(r - ws[i]));
    }
}

/// While a state has an action that was not tried in it, such an action is taken, whatever was
/// drawn; it has then been tried, and one more action has been than before.
pub proof fn lemma_untried_comes_first(
    v: ExplorerView,
    id: u64,
    cands: Seq<CandidateView>,
    draw: int,
    some: int,
)
    requires
        cands.len() <= usize::MAX,
        0 <= some < cands.len(),
        !tried_in(v.tried, id).contains(action_key_of(cands[some].action)),
    ensures
        ({
            let tried = tried_in(v.tried, id);
            let k = taken(cands, tried, draw);
            let after = tried_in(took(v, id, cands[k].action).tried, id);
            &&& 0 <= k < cands.len()
            &&& !tried.contains(action_key_of(cands[k].action))
            &&& after.contains(action_key_of(cands[k].action))
            &&& after.len() == tried.len() + 1
        }),
{
    let tried = tried_in(v.tried, id);
    crate::strategy::explorer::lemma_fresh(cands, tried);
    let pool = pool_of(cands, tried);
    lemma_pick_range(pool_weights(cands, pool), 0, draw);
    let k = taken(cands, tried, draw);
    let key = action_key_of(cands[k].action);
    assert(!tried.contains(key));
    lemma_took_is_tried(v, id, key);
    let after = tried_in(with_tried(v.tried, id, key), id);
    assert(after == tried.push(key));
    assert(after[tried.len() as int] == key);
}

proof fn lemma_took_is_tried(v: ExplorerView, id: u64, key: Seq<char>)
    ensures
        tried_in(with_tried(v.tried, id, key), id) == if tried_in(v.tried, id).contains(key) {
            tried_in(v.tried, id)
        } else {
            tried_in(v.tried, id).push(key)
        },
{
    let after = with_tried(v.tried, id, key);
    lemma_tried_at(v.tried, id);
    lemma_tried_at(after, id);
    let i = tried_at(v.tried, id);
    if i < v.tried.len() {
        assert(after[i].id == id);
        if tried_at(after, id) < i {
            assert(v.tried[tried_at(after, id)].id != id);
        }
        assert(tried_at(after, id) == i);
    } else {
        assert(after[i].id == id);
        if tried_at(after, id) < i {
            assert(v.tried[tried_at(after, id)].id != id);
        }
        assert(tried_at(after, id) == i);
        assert(tried_in(v.tried, id) =~= seq![]);
        assert(Seq::<Seq<char>>::empty().push(key) =~= seq![key]);
    }
}

/// The keys of candidates.
pub open spec fn keys_of(cands: Seq<CandidateView>) -> Seq<Seq<char>> {
    Seq::new(cands.len(), |i: int| action_key_of(cands[i].action))
}

/// The key of the action that is chosen in a state among candidates.
pub open spec fn chosen_key(v: ExplorerView, id: u64, cands: Seq<CandidateView>, draw: int) -> Seq<
    char,
> {
    action_key_of(cands[taken(cands, tried_in(v.tried, id), draw)].action)
}

/// The explorer once an action was chosen in a state for each of the rounds, which are candidates
/// and a draw.
pub open spec fn after_rounds(
    v: ExplorerView,
    id: u64,
    rounds: Seq<(Seq<CandidateView>, int)>,
) -> ExplorerView
    decreases rounds.len(),
{
    if rounds.len() == 0 {
        v
    } else {
        let w = after_rounds(v, id, rounds.drop_last());
        let (cands, draw) = rounds.last();
        took(w, id, cands[taken(cands, tried_in(w.tried, id), draw)].action)
    }
}

/// The keys of the actions that are chosen in the rounds.
pub open spec fn chosen_keys(
    v: ExplorerView,
    id: u64,
    rounds: Seq<(Seq<CandidateView>, int)>,
) -> Seq<Seq<char>>
    decreases rounds.len(),
{
    if rounds.len() == 0 {
        seq![]
    } else {
        let before = rounds.drop_last();
        chosen_keys(v, id, before).push(
            chosen_key(after_rounds(v, id, before), id, rounds.last().0, rounds.last().1),
        )
    }
}

/// The candidates of every round have the given keys, in whatever order and with whatever weights.
pub open spec fn offers_keys(
    rounds: Seq<(Seq<CandidateView>, int)>,
    keys: Set<Seq<char>>,
) -> bool {
    forall|i: int|
        0 <= i < rounds.len() ==> 0 < (#[trigger] rounds[i]).0.len() <= usize::MAX && keys_of(
            rounds[i].0,
        ).to_set() == keys
}

/// Some key is not among fewer texts than there are keys.
proof fn lemma_some_key_is_left(keys: Set<Seq<char>>, texts: Seq<Seq<char>>) -> (key: Seq<char>)
    requires
        keys.finite(),
        texts.len() < keys.len(),
    ensures
        keys.contains(key),
        !texts.contains(key),
{
    broadcast use vstd::seq_lib::seq_to_set_is_finite;

    if forall|k: Seq<char>| keys.contains(k) ==> texts.contains(k) {
        assert(keys.subset_of(texts.to_set()));
        vstd::set_lib::lemma_len_subset(keys, texts.to_set());
        texts.lemma_cardinality_of_set();
    }
    choose|k: Seq<char>| keys.contains(k) && !texts.contains(k)
}

proof fn lemma_rounds_are_fresh(
    v: ExplorerView,
    id: u64,
    rounds: Seq<(Seq<CandidateView>, int)>,
    keys: Set<Seq<char>>,
)
    requires
        tried_in(v.tried, id).len() == 0,
        keys.finite(),
        offers_keys(rounds, keys),
        rounds.len() <= keys.len(),
    ensures
        chosen_keys(v, id, rounds).len() == rounds.len(),
        chosen_keys(v, id, rounds).no_duplicates(),
        forall|i: int|
            0 <= i < rounds.len() ==> keys.contains(#[trigger] chosen_keys(v, id, rounds)[i]),
        tried_in(after_rounds(v, id, rounds).tried, id) == chosen_keys(v, id, rounds),
    decreases rounds.len(),
{
    if rounds.len() == 0 {
        assert(tried_in(v.tried, id) =~= seq![]);
    } else {
        let before = rounds.drop_last();
        assert forall|i: int| 0 <= i < before.len() implies 0 < (#[trigger] before[i]).0.len()
            <= usize::MAX && keys_of(before[i].0).to_set() == keys by {
            assert(before[i] == rounds[i]);
        }
        lemma_rounds_are_fresh(v, id, before, keys);
        let w = after_rounds(v, id, before);
        let was = chosen_keys(v, id, before);
        let (cands, draw) = rounds[rounds.len() - 1];
        let left = lemma_some_key_is_left(keys, was);
        assert(keys_of(cands).to_set().contains(left));
        let some = choose|i: int| 0 <= i < keys_of(cands).len() && keys_of(cands)[i] == left;
        lemma_untried_comes_first(w, id, cands, draw, some);
        let k = taken(cands, was, draw);
        let key = action_key_of(cands[k].action);
        lemma_took_is_tried(w, id, key);
        assert(keys_of(cands)[k] == key);
        assert(keys_of(cands).to_set().contains(key));
        let now = chosen_keys(v, id, rounds);
        assert(now == was.push(key));
        assert forall|i: int| 0 <= i < rounds.len() implies keys.contains(#[trigger] now[i]) by {
            if i < was.len() {
                assert(now[i] == was[i]);
            }
        }
        assert forall|i: int, j: int| 0 <= i < now.len() && 0 <= j < now.len() && i != j implies
            now[i] != now[j] by {
            if i < was.len() && j < was.len() {
                assert(was[i] != was[j]);
            } else if i < was.len() {
                assert(was.contains(was[i]));
            } else {
                assert(was.contains(was[j]));
            }
        }
    }
}

/// Each action is used once before any is used again. In a state in which nothing was tried, with
/// the same `n` keys on offer each time, `n` choices take all `n` keys, each of them once, whatever
/// is drawn; the next choice takes one of them again.
pub proof fn lemma_all_are_used_before_any_again(
    v: ExplorerView,
    id: u64,
    rounds: Seq<(Seq<CandidateView>, int)>,
    next: (Seq<CandidateView>, int),
    keys: Set<Seq<char>>,
)
    requires
        tried_in(v.tried, id).len() == 0,
        keys.finite(),
        rounds.len() == keys.len(),
        offers_keys(rounds.push(next), keys),
    ensures
        chosen_keys(v, id, rounds).len() == keys.len(),
        chosen_keys(v, id, rounds).no_duplicates(),
        chosen_keys(v, id, rounds).to_set() == keys,
        chosen_keys(v, id, rounds).contains(
            chosen_key(after_rounds(v, id, rounds), id, next.0, next.1),
        ),
{
    broadcast use vstd::seq_lib::seq_to_set_is_finite;

    let all = rounds.push(next);
    assert forall|i: int| 0 <= i < rounds.len() implies 0 < (#[trigger] rounds[i]).0.len()
        <= usize::MAX && keys_of(rounds[i].0).to_set() == keys by {
        assert(all[i] == rounds[i]);
    }
    lemma_rounds_are_fresh(v, id, rounds, keys);
    let used = chosen_keys(v, id, rounds);
    used.unique_seq_to_set();
    assert forall|k: Seq<char>| used.to_set().contains(k) implies keys.contains(k) by {
        let i = choose|i: int| 0 <= i < used.len() && used[i] == k;
        assert(keys.contains(used[i]));
    }
    vstd::set_lib::lemma_subset_equality(used.to_set(), keys);
    let (cands, draw) = all[rounds.len() as int];
    assert(all[rounds.len() as int] == next);
    crate::strategy::explorer::lemma_fresh(cands, used);
    let pool = pool_of(cands, used);
    lemma_pick_range(pool_weights(cands, pool), 0, draw);
    let k = taken(cands, used, draw);
    assert(keys_of(cands)[k] == chosen_key(after_rounds(v, id, rounds), id, cands, draw));
    assert(keys_of(cands).to_set().contains(keys_of(cands)[k]));
    assert(used.to_set().contains(keys_of(cands)[k]));
}

/// What widgets offer does not depend on texts where none is typed.
proof fn lemma_offer_without_texts(
    v: ExplorerView,
    w: ExplorerView,
    vis: Seq<NodeView>,
    screen: Rect,
    a: Seq<Seq<char>>,
    b: Seq<Seq<char>>,
)
    requires
        v.cfg == w.cfg,
        v.nodes == w.nodes,
        forall|i: int| 0 <= i < vis.len() ==> !wants_text(v.cfg, #[trigger] vis[i], screen),
    ensures
        widgets_offer(v, vis, screen, a) == widgets_offer(w, vis, screen, b),
    decreases vis.len(),
{
    if vis.len() > 0 {
        let d = vis.drop_last();
        assert forall|i: int| 0 <= i < d.len() implies !wants_text(
            v.cfg,
            #[trigger] d[i],
            screen,
        ) by {
            assert(d[i] == vis[i]);
        }
        lemma_offer_without_texts(v, w, d, screen, a, b);
        assert(!wants_text(v.cfg, vis[vis.len() - 1], screen));
    }
}

/// The explorer once an action was chosen on a screen in a state for each of the rounds, which are
/// the texts drawn for the widgets and a draw.
pub open spec fn after_choices(
    v: ExplorerView,
    id: u64,
    h: HierarchyView,
    rounds: Seq<(Seq<Seq<char>>, int)>,
) -> ExplorerView
    decreases rounds.len(),
{
    if rounds.len() == 0 {
        v
    } else {
        let w = after_choices(v, id, h, rounds.drop_last());
        let cands = offered(w, h, rounds.last().0);
        took(w, id, cands[taken(cands, tried_in(w.tried, id), rounds.last().1)].action)
    }
}

/// The key of the action that is chosen on a screen in the `i`th of the rounds.
pub open spec fn choice_at(
    v: ExplorerView,
    id: u64,
    h: HierarchyView,
    rounds: Seq<(Seq<Seq<char>>, int)>,
    i: int,
) -> Seq<char> {
    let w = after_choices(v, id, h, rounds.take(i));
    chosen_key(w, id, offered(w, h, rounds[i].0), rounds[i].1)
}

proof fn lemma_choices_are_rounds(
    v: ExplorerView,
    id: u64,
    h: HierarchyView,
    rounds: Seq<(Seq<Seq<char>>, int)>,
    cands: Seq<CandidateView>,
)
    requires
        cands == offered(v, h, seq![]),
        forall|i: int|
            0 <= i < visible_of(h).len() ==> !wants_text(
                v.cfg,
                #[trigger] visible_of(h)[i],
                screen_of(h),
            ),
    ensures
        ({
            let same = Seq::new(rounds.len(), |i: int| (cands, rounds[i].1));
            &&& after_choices(v, id, h, rounds) == after_rounds(v, id, same)
            &&& after_choices(v, id, h, rounds).cfg == v.cfg
            &&& after_choices(v, id, h, rounds).nodes == v.nodes
            &&& forall|drawn: Seq<Seq<char>>| #[trigger]
                offered(after_choices(v, id, h, rounds), h, drawn) == cands
        }),
    decreases rounds.len(),
{
    let same = Seq::new(rounds.len(), |i: int| (cands, rounds[i].1));
    if rounds.len() > 0 {
        let before = rounds.drop_last();
        lemma_choices_are_rounds(v, id, h, before, cands);
        assert(same.drop_last() =~= Seq::new(before.len(), |i: int| (cands, before[i].1)));
        let w = after_choices(v, id, h, before);
        assert(offered(w, h, rounds.last().0) == cands);
    }
    let w = after_choices(v, id, h, rounds);
    assert forall|drawn: Seq<Seq<char>>| #[trigger] offered(w, h, drawn) == cands by {
        lemma_offer_without_texts(w, v, visible_of(h), screen_of(h), drawn, seq![]);
    }
}

proof fn lemma_choice_is_chosen(
    v: ExplorerView,
    id: u64,
    rounds: Seq<(Seq<CandidateView>, int)>,
    i: int,
)
    requires
        0 <= i < rounds.len(),
    ensures
        chosen_keys(v, id, rounds).len() == rounds.len(),
        chosen_keys(v, id, rounds)[i] == chosen_key(
            after_rounds(v, id, rounds.take(i)),
            id,
            rounds[i].0,
            rounds[i].1,
        ),
    decreases rounds.len(),
{
    let before = rounds.drop_last();
    if before.len() == 0 {
        assert(chosen_keys(v, id, before).len() == 0);
    } else {
        lemma_choice_is_chosen(v, id, before, if i < before.len() {
            i
        } else {
            0
        });
    }
    if i < before.len() {
        assert(before.take(i) =~= rounds.take(i));
    } else {
        assert(rounds.take(i) =~= before);
    }
}

/// A screen is used up before anything on it is repeated. On a screen on which nothing is typed,
/// and in a state in which nothing was tried, let the actions on offer have `n` different keys:
/// `n` choices take `n` different keys, and so each of them once, whatever is drawn; the next
/// choice still takes an action, with one of these keys.
pub proof fn lemma_screen_is_used_up_first(
    v: ExplorerView,
    id: u64,
    h: HierarchyView,
    rounds: Seq<(Seq<Seq<char>>, int)>,
)
    requires
        tried_in(v.tried, id).len() == 0,
        forall|i: int|
            0 <= i < visible_of(h).len() ==> !wants_text(
                v.cfg,
                #[trigger] visible_of(h)[i],
                screen_of(h),
            ),
        offered(v, h, seq![]).len() <= usize::MAX,
        rounds.len() == keys_of(offered(v, h, seq![])).to_set().len() + 1,
    ensures
        ({
            let keys = keys_of(offered(v, h, seq![])).to_set();
            let n = rounds.len() - 1;
            &&& n >= 1
            &&& forall|i: int|
                0 <= i <= n ==> keys.contains(#[trigger] choice_at(v, id, h, rounds, i))
            &&& forall|i: int, j: int|
                0 <= i < j < n ==> #[trigger] choice_at(v, id, h, rounds, i)
                    != #[trigger] choice_at(v, id, h, rounds, j)
            &&& forall|key: Seq<char>| #[trigger]
                keys.contains(key) ==> exists|i: int|
                    0 <= i < n && #[trigger] choice_at(v, id, h, rounds, i) == key
        }),
{
    broadcast use vstd::seq_lib::seq_to_set_is_finite;

    let cands = offered(v, h, seq![]);
    let keys = keys_of(cands).to_set();
    let n = rounds.len() - 1;
    lemma_something_is_offered(v, h, seq![]);
    assert(keys_of(cands).contains(keys_of(cands)[0]));
    assert(keys.contains(keys_of(cands)[0]));
    if keys.len() == 0 {
        assert(keys =~= Set::empty());
    }
    let same = Seq::new(rounds.len(), |i: int| (cands, rounds[i].1));
    let first = same.take(n);
    assert(first.push(same[n]) =~= same);
    assert(offers_keys(same, keys));
    lemma_all_are_used_before_any_again(v, id, first, same[n], keys);
    let used = chosen_keys(v, id, first);
    assert forall|i: int| 0 <= i <= n implies #[trigger] choice_at(v, id, h, rounds, i)
        == chosen_key(after_rounds(v, id, same.take(i)), id, cands, rounds[i].1) by {
        lemma_choices_are_rounds(v, id, h, rounds.take(i), cands);
        assert(same.take(i) =~= Seq::new(
            rounds.take(i).len(),
            |j: int| (cands, rounds.take(i)[j].1),
        ));
        assert(offered(after_choices(v, id, h, rounds.take(i)), h, rounds[i].0) == cands);
    }
    assert forall|i: int| 0 <= i < n implies #[trigger] choice_at(v, id, h, rounds, i)
        == used[i] by {
        lemma_choice_is_chosen(v, id, first, i);
        assert(first.take(i) =~= same.take(i));
    }
    assert forall|i: int| 0 <= i <= n implies keys.contains(
        #[trigger] choice_at(v, id, h, rounds, i),
    ) by {
        if i < n {
            assert(used.to_set().contains(used[i]));
        } else {
            assert(same.take(n) =~= first);
            assert(used.contains(choice_at(v, id, h, rounds, n)));
            assert(used.to_set().contains(choice_at(v, id, h, rounds, n)));
        }
    }
    assert forall|key: Seq<char>| #[trigger] keys.contains(key) implies exists|i: int|
        0 <= i < n && #[trigger] choice_at(v, id, h, rounds, i) == key by {
        assert(used.to_set().contains(key));
        let i = choose|i: int| 0 <= i < used.len() && used[i] == key;
        assert(choice_at(v, id, h, rounds, i) == key);
    }
}

/// What was tried in one state does not matter for another.
pub proof fn lemma_other_states_keep(v: ExplorerView, id: u64, other: u64, c: CandidateView)
    requires
        id != other,
    ensures
        tried_in(took(v, id, c.action).tried, other) == tried_in(v.tried, other),
{
    let key = action_key_of(c.action);
    let after = with_tried(v.tried, id, key);
    lemma_tried_at(v.tried, id);
    lemma_tried_at(v.tried, other);
    lemma_tried_at(after, other);
    let a = tried_at(v.tried, other);
    let b = tried_at(after, other);
    if a < v.tried.len() {
        assert(after[a].id == other);
        if b < a {
            assert(after[b].id == other);
            assert(v.tried[b].id != other);
        }
        assert(a == b);
    } else {
        if b < v.tried.len() {
            assert(v.tried[b].id == other);
        }
    }
}

// ---------------------------------------------------------------- coverage

proof fn lemma_counts_bounded(nodes: Seq<StatView>)
    ensures
        0 <= count_of(nodes, Which::Touched) <= nodes.len(),
        0 <= count_of(nodes, Which::Interactive) <= nodes.len(),
        0 <= count_of(nodes, Which::InteractiveTouched) <= count_of(nodes, Which::Interactive),
        count_of(nodes, Which::InteractiveTouched) <= count_of(nodes, Which::Touched),
        count_of(nodes, Which::InteractiveTouched) + count_of(nodes, Which::InteractiveUntouched)
            == count_of(nodes, Which::Interactive),
    decreases nodes.len(),
{
    if nodes.len() > 0 {
        lemma_counts_bounded(nodes.drop_last());
    }
}

/// No more is covered than there is: what was used is among what was seen, and what counts of
/// either is a part of it; what counts and is missing makes up the rest.
pub proof fn lemma_coverage_bounded(v: ExplorerView)
    ensures
        ({
            let c = coverage_of(v);
            &&& 0 <= c.touched_nodes <= c.total_nodes
            &&& 0 <= c.interactive_touched <= c.interactive_nodes <= c.total_nodes
            &&& c.interactive_touched <= c.touched_nodes
            &&& c.interactive_touched + c.untouched_interactive == c.interactive_nodes
        }),
{
    lemma_counts_bounded(v.nodes);
}

proof fn lemma_count_update(nodes: Seq<StatView>, i: int, x: StatView, w: Which)
    requires
        0 <= i < nodes.len(),
    ensures
        count_of(nodes.update(i, x), w) == count_of(nodes, w) - (if fits(w, nodes[i]) {
            1int
        } else {
            0
        }) + (if fits(w, x) {
            1int
        } else {
            0
        }),
    decreases nodes.len(),
{
    let u = nodes.update(i, x);
    if i == nodes.len() - 1 {
        assert(u.drop_last() =~= nodes.drop_last());
    } else {
        assert(u.drop_last() =~= nodes.drop_last().update(i, x));
        lemma_count_update(nodes.drop_last(), i, x, w);
    }
}

/// Doing something with a known widget for the first time raises the number of used widgets by
/// one; a further time, or a widget that is not known, leaves it. Nothing else is counted
/// differently.
pub proof fn lemma_touch_grows_coverage(v: ExplorerView, key: Seq<char>)
    requires
        crate::strategy::record::touched_of(v.nodes, key) < u32::MAX,
    ensures
        ({
            let before = coverage_of(v);
            let after = coverage_of(touched_once(v, key));
            let i = stat_at(v.nodes, key);
            let first = i < v.nodes.len() && v.nodes[i].touched == 0;
            &&& after.total_nodes == before.total_nodes
            &&& after.interactive_nodes == before.interactive_nodes
            &&& after.touched_nodes == before.touched_nodes + (if first {
                1int
            } else {
                0
            })
            &&& after.interactive_touched >= before.interactive_touched
        }),
{
    lemma_stat_at(v.nodes, key);
    let i = stat_at(v.nodes, key);
    if i < v.nodes.len() {
        let x = touched_once(v, key).nodes[i];
        lemma_count_update(v.nodes, i, x, Which::Touched);
        lemma_count_update(v.nodes, i, x, Which::Interactive);
        lemma_count_update(v.nodes, i, x, Which::InteractiveTouched);
    }
}

proof fn lemma_registered_counts(nodes: Seq<StatView>, n: NodeView, activity: Seq<char>)
    ensures
        nodes.len() <= registered(nodes, n, activity).len(),
        count_of(nodes, Which::Touched) == count_of(
            registered(nodes, n, activity),
            Which::Touched,
        ),
        count_of(nodes, Which::Interactive) <= count_of(
            registered(nodes, n, activity),
            Which::Interactive,
        ),
{
    let i = stat_at(nodes, key_of(n));
    lemma_stat_at(nodes, key_of(n));
    let r = registered(nodes, n, activity);
    if i < nodes.len() {
        lemma_count_update(nodes, i, r[i], Which::Touched);
        lemma_count_update(nodes, i, r[i], Which::Interactive);
    } else {
        assert(r.drop_last() =~= nodes);
    }
}

proof fn lemma_registered_all_counts(
    nodes: Seq<StatView>,
    vis: Seq<NodeView>,
    package: Seq<char>,
    activity: Seq<char>,
)
    ensures
        nodes.len() <= registered_all(nodes, vis, package, activity).len(),
        count_of(nodes, Which::Touched) == count_of(
            registered_all(nodes, vis, package, activity),
            Which::Touched,
        ),
        count_of(nodes, Which::Interactive) <= count_of(
            registered_all(nodes, vis, package, activity),
            Which::Interactive,
        ),
    decreases vis.len(),
{
    if vis.len() > 0 {
        lemma_registered_all_counts(nodes, vis.drop_last(), package, activity);
        lemma_registered_counts(
            registered_all(nodes, vis.drop_last(), package, activity),
            vis.last(),
            activity,
        );
    }
}

/// A look never takes away from what was seen, and does not change what was used.
pub proof fn lemma_look_keeps_coverage(
    v: ExplorerView,
    h: HierarchyView,
    activity: Seq<char>,
    step: usize,
)
    ensures
        ({
            let before = coverage_of(v);
            let after = coverage_of(observed(v, h, activity, step));
            &&& before.total_nodes <= after.total_nodes
            &&& before.interactive_nodes <= after.interactive_nodes
            &&& before.touched_nodes == after.touched_nodes
            &&& before.state_count <= after.state_count
        }),
{
    lemma_registered_all_counts(v.nodes, visible_of(h), v.cfg.package, activity);
    lemma_states_stay(v, h, activity, step);
}

/// Widgets of other apps are never counted: with a screen that holds nothing else, a look leaves
/// the widgets as they are.
pub proof fn lemma_foreign_not_counted(
    v: ExplorerView,
    h: HierarchyView,
    activity: Seq<char>,
    step: usize,
)
    requires
        forall|i: int|
            0 <= i < visible_of(h).len() ==> foreign(v.cfg.package, #[trigger] visible_of(h)[i]),
    ensures
        observed(v, h, activity, step).nodes == v.nodes,
{
    lemma_foreign_only(v.nodes, visible_of(h), v.cfg.package, activity);
}

proof fn lemma_foreign_only(
    nodes: Seq<StatView>,
    vis: Seq<NodeView>,
    package: Seq<char>,
    activity: Seq<char>,
)
    requires
        forall|i: int| 0 <= i < vis.len() ==> foreign(package, #[trigger] vis[i]),
    ensures
        registered_all(nodes, vis, package, activity) == nodes,
    decreases vis.len(),
{
    if vis.len() > 0 {
        let d = vis.drop_last();
        assert forall|i: int| 0 <= i < d.len() implies foreign(package, #[trigger] d[i]) by {
            assert(d[i] == vis[i]);
        }
        lemma_foreign_only(nodes, d, package, activity);
        assert(foreign(package, vis[vis.len() - 1]));
    }
}

/// The list of what is missing is in order: no widget in it is missed more than one before it.
pub proof fn lemma_missed_sorted(nodes: Seq<StatView>)
    ensures
        forall|i: int, j: int|
            0 <= i < j < missed(nodes).len() ==> !more_missed(
                #[trigger] missed(nodes)[j],
                #[trigger] missed(nodes)[i],
            ),
    decreases nodes.len(),
{
    if nodes.len() > 0 {
        let d = missed(nodes.drop_last());
        let x = nodes.last();
        lemma_missed_sorted(nodes.drop_last());
        if x.touched == 0 {
            lemma_place_missed(d, x, 0);
            let k = place_missed(d, x, 0);
            let r = d.insert(k, x);
            assert forall|i: int, j: int| 0 <= i < j < r.len() implies !more_missed(
                #[trigger] r[j],
                #[trigger] r[i],
            ) by {
                let a = if i < k {
                    d[i]
                } else if i == k {
                    x
                } else {
                    d[i - 1]
                };
                let b = if j < k {
                    d[j]
                } else if j == k {
                    x
                } else {
                    d[j - 1]
                };
                assert(r[i] == a && r[j] == b);
                if i == k && j > k + 1 {
                    assert(!more_missed(d[j - 1], d[k]));
                }
            }
        }
    }
}

proof fn lemma_place_missed(s: Seq<StatView>, x: StatView, i: int)
    requires
        0 <= i <= s.len(),
    ensures
        i <= place_missed(s, x, i) <= s.len(),
        forall|j: int| i <= j < place_missed(s, x, i) ==> !more_missed(x, #[trigger] s[j]),
        place_missed(s, x, i) < s.len() ==> more_missed(x, s[place_missed(s, x, i)]),
    decreases s.len() - i,
{
    if i < s.len() && !more_missed(x, s[i]) {
        lemma_place_missed(s, x, i + 1);
    }
}

} // verus!
