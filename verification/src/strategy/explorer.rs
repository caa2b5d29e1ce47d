//! The explorer.

use rand::rngs::StdRng;
use vstd::prelude::*;

use crate::model::action::action_key_of;
use crate::model::action::Action;
use crate::model::action::ActionView;
use crate::model::node::all_nodes;
use crate::model::node::answers;
use crate::model::node::counted_keys;
use crate::model::node::is_empty;
use crate::model::node::key_of;
use crate::model::node::screen_of;
use crate::model::node::state_sig;
use crate::model::node::struct_sig;
use crate::model::node::target_keys;
use crate::model::node::views_of;
use crate::model::node::visible_of;
use crate::model::node::Hierarchy;
use crate::model::node::HierarchyView;
use crate::model::node::NodeView;
use crate::model::node::UiNode;
use crate::model::rect::Rect;
use crate::outside::choice_of;
use crate::outside::draw_text;
use crate::outside::rng_of_seed;
use crate::outside::seed_rng;
use crate::single::round24;
use crate::strategy::candidate::add_actions;
use crate::strategy::candidate::add_screen_swipe;
use crate::strategy::candidate::candidate_views;
use crate::strategy::candidate::foreign;
use crate::strategy::candidate::is_foreign;
use crate::strategy::candidate::lemma_node_actions_fair;
use crate::strategy::candidate::needs_text;
use crate::strategy::candidate::node_actions;
use crate::strategy::candidate::screen_swipe;
use crate::strategy::candidate::wants_text;
use crate::strategy::candidate::weights_of;
use crate::strategy::candidate::whole;
use crate::strategy::candidate::Candidate;
use crate::strategy::candidate::CandidateView;
use crate::strategy::config::ConfigView;
use crate::strategy::config::ExplorerConfig;
use crate::strategy::config::StateMode;
use crate::strategy::record::activity_views;
use crate::strategy::record::lemma_stat_at;
use crate::strategy::record::lemma_state_at;
use crate::strategy::record::lemma_tried_at;
use crate::strategy::record::registered;
use crate::strategy::record::stat_at;
use crate::strategy::record::stat_views;
use crate::strategy::record::state_at;
use crate::strategy::record::state_views;
use crate::strategy::record::touched_of;
use crate::strategy::record::transition_views;
use crate::strategy::record::tried_at;
use crate::strategy::record::tried_views;
use crate::strategy::record::ActivityRecord;
use crate::strategy::record::ActivityView;
use crate::strategy::record::NodeStat;
use crate::strategy::record::StatView;
use crate::strategy::record::StateRecord;
use crate::strategy::record::StateView;
use crate::strategy::record::Transition;
use crate::strategy::record::TransitionView;
use crate::strategy::record::Tried;
use crate::strategy::record::TriedView;
use crate::strategy::weight::fair;
use crate::strategy::weight::pick;
use crate::strategy::weight::pick_from;
use crate::strategy::weight::total;
use crate::strategy::weight::total_of;
use crate::text::basic::same;
use crate::text::basic::texts;
use crate::text::order::before;
use crate::text::order::is_before;
use crate::text::order::sorted_set;
use crate::text::search::begins;
use crate::text::search::starts_with;
use crate::util::hash64;
use crate::util::hash_of;

verus! {

/// What has been met and done while an app is explored.
pub struct Explorer {
    cfg: ExplorerConfig,
    /// The generator that texts and actions are drawn with.
    pub rng: StdRng,
    states: Vec<StateRecord>,
    activities: Vec<ActivityRecord>,
    nodes: Vec<NodeStat>,
    tried: Vec<Tried>,
    transitions: Vec<Transition>,
    last_state: Option<u64>,
    same_streak: usize,
}

/// An explorer as a mathematical value: states and widgets in the order in which they were met
/// first, activities by name.
#[verifier::ext_equal]
pub struct ExplorerView {
    pub cfg: ConfigView,
    pub states: Seq<StateView>,
    pub activities: Seq<ActivityView>,
    pub nodes: Seq<StatView>,
    pub tried: Seq<TriedView>,
    pub transitions: Seq<TransitionView>,
    pub last_state: Option<u64>,
    pub same_streak: int,
}

impl View for Explorer {
    type V = ExplorerView;

    closed spec fn view(&self) -> ExplorerView {
        ExplorerView {
            cfg: self.cfg@,
            states: state_views(self.states@),
            activities: activity_views(self.activities@),
            nodes: stat_views(self.nodes@),
            tried: tried_views(self.tried@),
            transitions: transition_views(self.transitions@),
            last_state: self.last_state,
            same_streak: self.same_streak as int,
        }
    }
}

/// An explorer that has seen nothing yet.
pub open spec fn unused(cfg: ConfigView) -> ExplorerView {
    ExplorerView {
        cfg,
        states: seq![],
        activities: seq![],
        nodes: seq![],
        tried: seq![],
        transitions: seq![],
        last_state: None,
        same_streak: 0,
    }
}

// ---------------------------------------------------------------- looking at a screen

/// The signature of a screen in the given mode.
pub open spec fn signature(mode: StateMode, h: HierarchyView, activity: Seq<char>) -> Seq<char> {
    match mode {
        StateMode::Structure => struct_sig(activity, screen_of(h), visible_of(h)),
        StateMode::Exact => state_sig(activity, screen_of(h), visible_of(h)),
    }
}

/// The state that a screen is in.
pub open spec fn state_id(mode: StateMode, h: HierarchyView, activity: Seq<char>) -> u64 {
    hash_of(signature(mode, h, activity))
}

/// The widgets known once all of the app under test on a screen were seen.
pub open spec fn registered_all(
    nodes: Seq<StatView>,
    vis: Seq<NodeView>,
    package: Seq<char>,
    activity: Seq<char>,
) -> Seq<StatView>
    decreases vis.len(),
{
    if vis.len() == 0 {
        nodes
    } else {
        let r = registered_all(nodes, vis.drop_last(), package, activity);
        if foreign(package, vis.last()) {
            r
        } else {
            registered(r, vis.last(), activity)
        }
    }
}

/// The number of widgets that answer to some action.
pub open spec fn answering(vis: Seq<NodeView>) -> int
    decreases vis.len(),
{
    if vis.len() == 0 {
        0
    } else {
        answering(vis.drop_last()) + (if answers(vis.last()) {
            1int
        } else {
            0
        })
    }
}

/// The states once a screen was looked at.
pub open spec fn visited(
    states: Seq<StateView>,
    id: u64,
    h: HierarchyView,
    activity: Seq<char>,
    step: usize,
) -> Seq<StateView> {
    let i = state_at(states, id);
    if i < states.len() {
        states.update(i, StateView { visits: (states[i].visits + 1) as u32, ..states[i] })
    } else {
        states.push(
            StateView {
                id,
                activity,
                visits: 1,
                first_step: step,
                node_count: all_nodes(h).len() as int,
                interactive_count: answering(visible_of(h)),
                tried_count: 0,
                keys: sorted_set(counted_keys(visible_of(h))),
            },
        )
    }
}

/// The number of activities, from the `i`th on, whose names stand before the given one.
pub open spec fn activity_place(acts: Seq<ActivityView>, name: Seq<char>, i: int) -> int
    decreases acts.len() - i,
{
    if i < 0 || i >= acts.len() {
        i
    } else if before(acts[i].name, name) {
        activity_place(acts, name, i + 1)
    } else {
        i
    }
}

/// The keys of widgets of the app under test, added to those that are there.
pub open spec fn with_keys(keys: Seq<Seq<char>>, vis: Seq<NodeView>, package: Seq<char>) -> Seq<
    Seq<char>,
>
    decreases vis.len(),
{
    if vis.len() == 0 {
        keys
    } else {
        let r = with_keys(keys, vis.drop_last(), package);
        if foreign(package, vis.last()) || r.contains(key_of(vis.last())) {
            r
        } else {
            r.push(key_of(vis.last()))
        }
    }
}

/// The activity belongs to the app under test.
pub open spec fn of_app(package: Seq<char>, activity: Seq<char>) -> bool {
    package.len() > 0 && activity.len() > 0 && begins(activity, package)
}

/// The activities once a screen was looked at.
pub open spec fn entered(
    acts: Seq<ActivityView>,
    h: HierarchyView,
    package: Seq<char>,
    activity: Seq<char>,
    step: usize,
) -> Seq<ActivityView> {
    let i = activity_place(acts, activity, 0);
    let known = i < acts.len() && acts[i].name == activity;
    let was = if known {
        acts[i].nodes
    } else {
        seq![]
    };
    let nodes = if of_app(package, activity) {
        with_keys(was, visible_of(h), package)
    } else {
        was
    };
    if known {
        acts.update(i, ActivityView { visits: (acts[i].visits + 1) as u32, nodes, ..acts[i] })
    } else {
        acts.insert(i, ActivityView { name: activity, visits: 1, first_step: step, nodes })
    }
}

/// The explorer once a screen was looked at.
pub open spec fn observed(
    v: ExplorerView,
    h: HierarchyView,
    activity: Seq<char>,
    step: usize,
) -> ExplorerView {
    let id = state_id(v.cfg.mode, h, activity);
    ExplorerView {
        nodes: registered_all(v.nodes, visible_of(h), v.cfg.package, activity),
        states: visited(v.states, id, h, activity, step),
        activities: entered(v.activities, h, v.cfg.package, activity, step),
        last_state: Some(id),
        same_streak: if v.last_state == Some(id) {
            v.same_streak + 1
        } else {
            0
        },
        ..v
    }
}

/// No counter would overflow if a screen with that many widgets were looked at.
pub open spec fn has_room_for(v: ExplorerView, count: int) -> bool {
    &&& count <= u32::MAX
    &&& v.same_streak < usize::MAX
    &&& forall|i: int| 0 <= i < v.nodes.len() ==> #[trigger] v.nodes[i].seen + count <= u32::MAX
    &&& forall|i: int| 0 <= i < v.states.len() ==> #[trigger] v.states[i].visits < u32::MAX
    &&& forall|i: int| 0 <= i < v.activities.len() ==> #[trigger] v.activities[i].visits < u32::MAX
}

pub(crate) fn find_stat(nodes: &Vec<NodeStat>, key: &str) -> (r: usize)
    ensures
        r == stat_at(stat_views(nodes@), key@),
        r <= nodes@.len(),
{
    let ghost views = stat_views(nodes@);
    let mut i: usize = 0;
    proof {
        lemma_stat_at(views, key@);
    }
    while i < nodes.len() && !same(nodes[i].key.as_str(), key)
        invariant
            i <= nodes@.len(),
            views == stat_views(nodes@),
            forall|j: int| 0 <= j < i ==> #[trigger] views[j].key != key@,
        decreases nodes@.len() - i,
    {
        i = i + 1;
    }
    proof {
        let s = stat_at(views, key@);
        if s < i {
            assert(views[s].key == key@);
        } else if s > i {
            assert(views[i as int].key == key@);
        }
    }
    i
}

fn find_state(states: &Vec<StateRecord>, id: u64) -> (r: usize)
    ensures
        r == state_at(state_views(states@), id),
        r <= states@.len(),
{
    let ghost views = state_views(states@);
    let mut i: usize = 0;
    proof {
        lemma_state_at(views, id);
    }
    while i < states.len() && states[i].id != id
        invariant
            i <= states@.len(),
            views == state_views(states@),
            forall|j: int| 0 <= j < i ==> #[trigger] views[j].id != id,
        decreases states@.len() - i,
    {
        i = i + 1;
    }
    proof {
        let s = state_at(views, id);
        if s < i {
            assert(views[s].id == id);
        } else if s > i {
            assert(views[i as int].id == id);
        }
    }
    i
}

fn find_tried(tried: &Vec<Tried>, id: u64) -> (r: usize)
    ensures
        r == tried_at(tried_views(tried@), id),
        r <= tried@.len(),
{
    let ghost views = tried_views(tried@);
    let mut i: usize = 0;
    proof {
        lemma_tried_at(views, id);
    }
    while i < tried.len() && tried[i].id != id
        invariant
            i <= tried@.len(),
            views == tried_views(tried@),
            forall|j: int| 0 <= j < i ==> #[trigger] views[j].id != id,
        decreases tried@.len() - i,
    {
        i = i + 1;
    }
    proof {
        let s = tried_at(views, id);
        if s < i {
            assert(views[s].id == id);
        } else if s > i {
            assert(views[i as int].id == id);
        }
    }
    i
}

fn holds(keys: &Vec<String>, key: &str) -> (r: bool)
    ensures
        r == texts(keys@).contains(key@),
{
    let mut i: usize = 0;
    while i < keys.len()
        invariant
            i <= keys@.len(),
            forall|j: int| 0 <= j < i ==> texts(keys@)[j] != key@,
        decreases keys@.len() - i,
    {
        if same(keys[i].as_str(), key) {
            assert(texts(keys@)[i as int] == key@);
            return true;
        }
        i = i + 1;
    }
    false
}

fn register(nodes: &mut Vec<NodeStat>, n: &UiNode, activity: &str)
    requires
        forall|i: int| 0 <= i < old(nodes)@.len() ==> (#[trigger] old(nodes)@[i]).seen < u32::MAX,
    ensures
        stat_views(final(nodes)@) == registered(stat_views(old(nodes)@), n@, activity@),
{
    let key = n.key();
    let i = find_stat(nodes, key.as_str());
    let is_target = n.coverage_target();
    let ghost before = stat_views(nodes@);
    if i < nodes.len() {
        let was = &nodes[i];
        let now = NodeStat {
            key: was.key.clone(),
            label: was.label.clone(),
            class: was.class.clone(),
            resource_id: was.resource_id.clone(),
            activity: if is_empty(&was.activity) {
                activity.to_string()
            } else {
                was.activity.clone()
            },
            seen: was.seen + 1,
            touched: was.touched,
            interactive: was.interactive || is_target,
        };
        let ghost view = now@;
        nodes.set(i, now);
        assert(stat_views(nodes@) =~= before.update(i as int, view));
    } else {
        let stat = NodeStat {
            key,
            label: n.display(),
            class: n.short_class(),
            resource_id: n.resource_id.clone(),
            activity: activity.to_string(),
            seen: 1,
            touched: 0,
            interactive: is_target,
        };
        let ghost view = stat@;
        nodes.push(stat);
        assert(stat_views(nodes@) =~= before.push(view));
    }
}

fn register_all(nodes: &mut Vec<NodeStat>, vis: &Vec<&UiNode>, package: &String, activity: &str)
    requires
        vis@.len() <= u32::MAX,
        forall|i: int|
            0 <= i < old(nodes)@.len() ==> (#[trigger] old(nodes)@[i]).seen + vis@.len()
                <= u32::MAX,
    ensures
        stat_views(final(nodes)@) == registered_all(
            stat_views(old(nodes)@),
            views_of(vis@),
            package@,
            activity@,
        ),
{
    let ghost all = views_of(vis@);
    let ghost start = stat_views(nodes@);
    let mut k: usize = 0;
    assert(all.take(0) =~= seq![]);
    while k < vis.len()
        invariant
            k <= vis@.len(),
            vis@.len() <= u32::MAX,
            all == views_of(vis@),
            stat_views(nodes@) == registered_all(start, all.take(k as int), package@, activity@),
            forall|i: int|
                0 <= i < nodes@.len() ==> (#[trigger] nodes@[i]).seen + (vis@.len() - k)
                    <= u32::MAX,
        decreases vis@.len() - k,
    {
        let n = vis[k];
        proof {
            assert(all.take(k + 1).drop_last() =~= all.take(k as int));
            assert(all.take(k + 1).last() == n@);
        }
        if !is_foreign(package, n) {
            let ghost was = nodes@;
            let ghost was_views = stat_views(nodes@);
            register(nodes, n, activity);
            proof {
                lemma_stat_at(was_views, key_of(n@));
                let now = stat_views(nodes@);
                assert forall|i: int| 0 <= i < nodes@.len() implies (#[trigger] nodes@[i]).seen + (
                vis@.len() - k - 1) <= u32::MAX by {
                    assert(now[i].seen == nodes@[i].seen);
                    if i < was.len() {
                        assert(was_views[i].seen == was[i].seen);
                        assert(now[i].seen <= was[i].seen + 1);
                    } else {
                        assert(now.len() == nodes@.len());
                        assert(now[i].seen == 1);
                    }
                }
            }
        }
        k = k + 1;
    }
    assert(all.take(k as int) =~= all);
}

fn count_answering(vis: &Vec<&UiNode>) -> (r: usize)
    ensures
        r == answering(views_of(vis@)),
{
    let ghost all = views_of(vis@);
    let mut count: usize = 0;
    let mut k: usize = 0;
    assert(all.take(0) =~= seq![]);
    while k < vis.len()
        invariant
            k <= vis@.len(),
            count <= k,
            all == views_of(vis@),
            count == answering(all.take(k as int)),
        decreases vis@.len() - k,
    {
        proof {
            assert(all.take(k + 1).drop_last() =~= all.take(k as int));
            assert(all.take(k + 1).last() == vis@[k as int]@);
        }
        if vis[k].interactive() {
            count = count + 1;
        }
        k = k + 1;
    }
    assert(all.take(k as int) =~= all);
    count
}

fn add_keys(keys: &mut Vec<String>, vis: &Vec<&UiNode>, package: &String)
    ensures
        texts(final(keys)@) == with_keys(texts(old(keys)@), views_of(vis@), package@),
{
    let ghost all = views_of(vis@);
    let ghost start = texts(keys@);
    let mut k: usize = 0;
    assert(all.take(0) =~= seq![]);
    while k < vis.len()
        invariant
            k <= vis@.len(),
            all == views_of(vis@),
            texts(keys@) == with_keys(start, all.take(k as int), package@),
        decreases vis@.len() - k,
    {
        let n = vis[k];
        proof {
            assert(all.take(k + 1).drop_last() =~= all.take(k as int));
            assert(all.take(k + 1).last() == n@);
        }
        if !is_foreign(package, n) {
            let key = n.key();
            if !holds(keys, key.as_str()) {
                let ghost was = texts(keys@);
                let ghost x = key@;
                keys.push(key);
                assert(texts(keys@) =~= was.push(x));
            }
        }
        k = k + 1;
    }
    assert(all.take(k as int) =~= all);
}

fn find_place(acts: &Vec<ActivityRecord>, name: &str) -> (r: usize)
    ensures
        r <= acts@.len(),
        r == activity_place(activity_views(acts@), name@, 0),
{
    let ghost views = activity_views(acts@);
    let mut i: usize = 0;
    while i < acts.len() && is_before(acts[i].name.as_str(), name)
        invariant
            i <= acts@.len(),
            views == activity_views(acts@),
            activity_place(views, name@, i as int) == activity_place(views, name@, 0),
        decreases acts@.len() - i,
    {
        i = i + 1;
    }
    i
}

fn enter(
    acts: &mut Vec<ActivityRecord>,
    h: &Hierarchy,
    vis: &Vec<&UiNode>,
    package: &String,
    activity: &str,
    step: usize,
)
    requires
        views_of(vis@) == visible_of(h@),
        forall|i: int| 0 <= i < old(acts)@.len() ==> (#[trigger] old(acts)@[i]).visits < u32::MAX,
    ensures
        activity_views(final(acts)@) == entered(
            activity_views(old(acts)@),
            h@,
            package@,
            activity@,
            step,
        ),
{
    let i = find_place(acts, activity);
    let ghost views = activity_views(acts@);
    let own = !is_empty(package) && activity_named(activity) && starts_with(
        activity,
        package.as_str(),
    );
    assert(own == of_app(package@, activity@));
    if i < acts.len() && same(acts[i].name.as_str(), activity) {
        let mut keys = crate::strategy::record::copy_texts(&acts[i].nodes);
        if own {
            add_keys(&mut keys, vis, package);
        }
        let now = ActivityRecord {
            name: acts[i].name.clone(),
            visits: acts[i].visits + 1,
            first_step: acts[i].first_step,
            nodes: keys,
        };
        let ghost view = now@;
        acts.set(i, now);
        assert(activity_views(acts@) =~= views.update(i as int, view));
    } else {
        let mut keys: Vec<String> = Vec::new();
        assert(texts(keys@) =~= seq![]);
        if own {
            add_keys(&mut keys, vis, package);
        }
        let now = ActivityRecord {
            name: activity.to_string(),
            visits: 1,
            first_step: step,
            nodes: keys,
        };
        let ghost view = now@;
        acts.insert(i, now);
        assert(activity_views(acts@) =~= views.insert(i as int, view));
    }
}

fn activity_named(s: &str) -> (r: bool)
    ensures
        r == (s@.len() > 0),
{
    let t = s.to_string();
    !is_empty(&t)
}

fn visit(
    states: &mut Vec<StateRecord>,
    id: u64,
    h: &Hierarchy,
    vis: &Vec<&UiNode>,
    activity: &str,
    step: usize,
) -> (is_new: bool)
    requires
        views_of(vis@) == visible_of(h@),
        forall|i: int|
            0 <= i < old(states)@.len() ==> (#[trigger] old(states)@[i]).visits < u32::MAX,
    ensures
        state_views(final(states)@) == visited(state_views(old(states)@), id, h@, activity@, step),
        is_new == (state_at(state_views(old(states)@), id) == old(states)@.len()),
{
    let i = find_state(states, id);
    let ghost views = state_views(states@);
    if i < states.len() {
        let mut now = states[i].clone();
        now.visits = states[i].visits + 1;
        let ghost view = now@;
        states.set(i, now);
        assert(state_views(states@) =~= views.update(i as int, view));
        false
    } else {
        let now = StateRecord {
            id,
            activity: activity.to_string(),
            visits: 1,
            first_step: step,
            node_count: h.node_count(),
            interactive_count: count_answering(vis),
            tried_count: 0,
            keys: target_keys(vis.as_slice()),
        };
        let ghost view = now@;
        states.push(now);
        assert(state_views(states@) =~= views.push(view));
        true
    }
}

// ---------------------------------------------------------------- offering actions

/// What the widgets of a screen offer, where `drawn` are the texts to type, one for each.
pub open spec fn widgets_offer(
    v: ExplorerView,
    vis: Seq<NodeView>,
    screen: Rect,
    drawn: Seq<Seq<char>>,
) -> Seq<CandidateView>
    decreases vis.len(),
{
    if vis.len() == 0 {
        seq![]
    } else {
        let n = vis.last();
        widgets_offer(v, vis.drop_last(), screen, drawn) + node_actions(
            v.cfg,
            n,
            screen,
            touched_of(v.nodes, key_of(n)),
            drawn[vis.len() - 1],
        )
    }
}

/// What a screen offers: what its widgets do, or else a swipe over the screen.
pub open spec fn offered(v: ExplorerView, h: HierarchyView, drawn: Seq<Seq<char>>) -> Seq<
    CandidateView,
> {
    let w = widgets_offer(v, visible_of(h), screen_of(h), drawn);
    if w.len() == 0 {
        seq![screen_swipe(screen_of(h))]
    } else {
        w
    }
}

/// One text for each widget, from the pool where one has to be drawn.
pub open spec fn drawn_for(
    cfg: ConfigView,
    vis: Seq<NodeView>,
    screen: Rect,
    drawn: Seq<Seq<char>>,
) -> bool {
    &&& drawn.len() == vis.len()
    &&& forall|i: int|
        0 <= i < vis.len() && wants_text(cfg, #[trigger] vis[i], screen) ==> cfg.pool.contains(
            drawn[i],
        )
}

/// The texts that a generator draws for the widgets of a screen, one for each, and the generator as
/// it is then. An empty text stands where nothing is typed.
pub open spec fn draws(cfg: ConfigView, vis: Seq<NodeView>, screen: Rect, rng: StdRng) -> (
    Seq<Seq<char>>,
    StdRng,
)
    decreases vis.len(),
{
    if vis.len() == 0 {
        (seq![], rng)
    } else {
        let (before, g) = draws(cfg, vis.drop_last(), screen, rng);
        if wants_text(cfg, vis.last(), screen) {
            let (i, after) = choice_of(g, cfg.pool.len() as int);
            (before.push(cfg.pool[i]), after)
        } else {
            (before.push(seq![]), g)
        }
    }
}

proof fn lemma_widgets_offer_fair(
    v: ExplorerView,
    vis: Seq<NodeView>,
    screen: Rect,
    drawn: Seq<Seq<char>>,
)
    ensures
        fair(weights_of(widgets_offer(v, vis, screen, drawn))),
    decreases vis.len(),
{
    if vis.len() > 0 {
        let d = widgets_offer(v, vis.drop_last(), screen, drawn);
        let n = vis.last();
        let t = touched_of(v.nodes, key_of(n));
        let m = node_actions(v.cfg, n, screen, t, drawn[vis.len() - 1]);
        lemma_widgets_offer_fair(v, vis.drop_last(), screen, drawn);
        lemma_node_actions_fair(v.cfg, n, screen, t, drawn[vis.len() - 1]);
        let all = weights_of(d + m);
        assert forall|i: int| 0 <= i < all.len() implies 1 <= #[trigger] all[i]
            <= 0x100_0000_0000_0000 by {
            if i < d.len() {
                assert(all[i] == weights_of(d)[i]);
            } else {
                assert(all[i] == weights_of(m)[i - d.len()]);
            }
        }
    }
}

/// A screen always offers some action, and every weight is a fair one.
pub proof fn lemma_something_is_offered(
    v: ExplorerView,
    h: HierarchyView,
    drawn: Seq<Seq<char>>,
)
    ensures
        offered(v, h, drawn).len() > 0,
        fair(weights_of(offered(v, h, drawn))),
{
    lemma_widgets_offer_fair(v, visible_of(h), screen_of(h), drawn);
}

// ---------------------------------------------------------------- taking one

/// The keys of the actions tried in a state.
pub open spec fn tried_in(tried: Seq<TriedView>, id: u64) -> Seq<Seq<char>> {
    let i = tried_at(tried, id);
    if i < tried.len() {
        tried[i].keys
    } else {
        seq![]
    }
}

/// The places of the candidates that were not tried yet.
pub open spec fn fresh(cands: Seq<CandidateView>, tried: Seq<Seq<char>>) -> Seq<usize>
    decreases cands.len(),
{
    if cands.len() == 0 {
        seq![]
    } else {
        let f = fresh(cands.drop_last(), tried);
        if tried.contains(action_key_of(cands.last().action)) {
            f
        } else {
            f.push((cands.len() - 1) as usize)
        }
    }
}

/// The places of the candidates to choose from: those that were not tried yet, or all of them
/// where there is none left.
pub open spec fn pool_of(cands: Seq<CandidateView>, tried: Seq<Seq<char>>) -> Seq<usize> {
    let f = fresh(cands, tried);
    if f.len() > 0 {
        f
    } else {
        Seq::new(cands.len(), |i: int| i as usize)
    }
}

/// The weights of the candidates at the places.
pub open spec fn pool_weights(cands: Seq<CandidateView>, pool: Seq<usize>) -> Seq<u64> {
    Seq::new(pool.len(), |i: int| cands[pool[i] as int].weight)
}

/// The candidate that a draw falls on.
pub open spec fn taken(cands: Seq<CandidateView>, tried: Seq<Seq<char>>, draw: int) -> int {
    let pool = pool_of(cands, tried);
    pool[pick_from(pool_weights(cands, pool), 0, draw)] as int
}

/// What was tried, with one more action in a state.
pub open spec fn with_tried(tried: Seq<TriedView>, id: u64, key: Seq<char>) -> Seq<TriedView> {
    let i = tried_at(tried, id);
    if i >= tried.len() {
        tried.push(TriedView { id, keys: seq![key] })
    } else if tried[i].keys.contains(key) {
        tried
    } else {
        tried.update(i, TriedView { id: tried[i].id, keys: tried[i].keys.push(key) })
    }
}

/// The states, with the number of actions tried in one of them.
pub open spec fn with_tried_count(states: Seq<StateView>, id: u64, n: int) -> Seq<StateView> {
    let i = state_at(states, id);
    if i < states.len() {
        states.update(i, StateView { tried_count: n, ..states[i] })
    } else {
        states
    }
}

/// The explorer once an action was taken in a state.
pub open spec fn took(v: ExplorerView, id: u64, action: ActionView) -> ExplorerView {
    let tried = with_tried(v.tried, id, action_key_of(action));
    ExplorerView {
        tried,
        states: with_tried_count(v.states, id, tried_in(tried, id).len() as int),
        ..v
    }
}

pub proof fn lemma_fresh(cands: Seq<CandidateView>, tried: Seq<Seq<char>>)
    requires
        cands.len() <= usize::MAX,
    ensures
        fresh(cands, tried).len() <= cands.len(),
        forall|i: int|
            0 <= i < fresh(cands, tried).len() ==> #[trigger] fresh(cands, tried)[i] < cands.len()
                && !tried.contains(action_key_of(cands[fresh(cands, tried)[i] as int].action)),
        (exists|i: int|
            0 <= i < cands.len() && !tried.contains(action_key_of((#[trigger] cands[i]).action)))
            ==> fresh(cands, tried).len() > 0,
    decreases cands.len(),
{
    if cands.len() > 0 {
        let d = cands.drop_last();
        lemma_fresh(d, tried);
        let f = fresh(cands, tried);
        assert forall|i: int| 0 <= i < f.len() implies #[trigger] f[i] < cands.len()
            && !tried.contains(action_key_of(cands[f[i] as int].action)) by {
            if i < fresh(d, tried).len() {
                assert(f[i] == fresh(d, tried)[i]);
                assert(d[f[i] as int] == cands[f[i] as int]);
            }
        }
        if exists|i: int|
            0 <= i < cands.len() && !tried.contains(action_key_of((#[trigger] cands[i]).action)) {
            let i = choose|i: int|
                0 <= i < cands.len() && !tried.contains(
                    action_key_of((#[trigger] cands[i]).action),
                );
            if i < d.len() {
                assert(d[i] == cands[i]);
            }
        }
    }
}

proof fn lemma_pool(cands: Seq<CandidateView>, tried: Seq<Seq<char>>)
    requires
        0 < cands.len() <= usize::MAX,
        fair(weights_of(cands)),
    ensures
        0 < pool_of(cands, tried).len() <= cands.len(),
        forall|i: int|
            0 <= i < pool_of(cands, tried).len() ==> #[trigger] pool_of(cands, tried)[i]
                < cands.len(),
        fair(pool_weights(cands, pool_of(cands, tried))),
{
    lemma_fresh(cands, tried);
    let p = pool_of(cands, tried);
    let w = pool_weights(cands, p);
    assert forall|i: int| 0 <= i < w.len() implies 1 <= #[trigger] w[i]
        <= 0x100_0000_0000_0000 by {
        assert(p[i] < cands.len());
        assert(weights_of(cands)[p[i] as int] == w[i]);
    }
}

fn find_pool(cands: &Vec<Candidate>, tried: &Vec<String>) -> (r: Vec<usize>)
    ensures
        r@ == pool_of(candidate_views(cands@), texts(tried@)),
{
    let ghost all = candidate_views(cands@);
    let mut out: Vec<usize> = Vec::new();
    let mut i: usize = 0;
    assert(all.take(0) =~= seq![]);
    while i < cands.len()
        invariant
            i <= cands@.len(),
            all == candidate_views(cands@),
            out@ == fresh(all.take(i as int), texts(tried@)),
        decreases cands@.len() - i,
    {
        proof {
            assert(all.take(i + 1).drop_last() =~= all.take(i as int));
            assert(all.take(i + 1).last() == cands@[i as int]@);
        }
        let key = cands[i].action.action_key();
        if !holds(tried, key.as_str()) {
            out.push(i);
        }
        i = i + 1;
    }
    assert(all.take(i as int) =~= all);
    if out.len() > 0 {
        return out;
    }
    let mut every: Vec<usize> = Vec::new();
    let mut k: usize = 0;
    while k < cands.len()
        invariant
            k <= cands@.len(),
            every@.len() == k,
            forall|j: int| 0 <= j < k ==> #[trigger] every@[j] == j,
        decreases cands@.len() - k,
    {
        every.push(k);
        k = k + 1;
    }
    assert(every@ =~= Seq::new(all.len(), |i: int| i as usize));
    every
}

fn find_weights(cands: &Vec<Candidate>, pool: &Vec<usize>) -> (r: Vec<u64>)
    requires
        forall|i: int| 0 <= i < pool@.len() ==> #[trigger] pool@[i] < cands@.len(),
    ensures
        r@ == pool_weights(candidate_views(cands@), pool@),
{
    let mut out: Vec<u64> = Vec::new();
    let mut i: usize = 0;
    while i < pool.len()
        invariant
            i <= pool@.len(),
            forall|i: int| 0 <= i < pool@.len() ==> #[trigger] pool@[i] < cands@.len(),
            out@.len() == i,
            forall|j: int| 0 <= j < i ==> #[trigger] out@[j] == cands@[pool@[j] as int].weight,
        decreases pool@.len() - i,
    {
        out.push(cands[pool[i]].weight);
        i = i + 1;
    }
    assert(out@ =~= pool_weights(candidate_views(cands@), pool@));
    out
}

impl Explorer {
    /// The generator that texts and actions are drawn with.
    pub closed spec fn generator(&self) -> StdRng {
        self.rng
    }

    /// An explorer that has seen nothing yet.
    pub fn new(cfg: ExplorerConfig, seed: u64) -> (r: Self)
        ensures
            r@ == unused(cfg@),
            r.generator() == rng_of_seed(seed),
    {
        let r = Explorer {
            cfg,
            rng: seed_rng(seed),
            states: Vec::new(),
            activities: Vec::new(),
            nodes: Vec::new(),
            tried: Vec::new(),
            transitions: Vec::new(),
            last_state: None,
            same_streak: 0,
        };
        assert(r@.states =~= seq![]);
        assert(r@.activities =~= seq![]);
        assert(r@.nodes =~= seq![]);
        assert(r@.tried =~= seq![]);
        assert(r@.transitions =~= seq![]);
        r
    }

    /// No counter would overflow if the screen were looked at.
    pub fn has_room(&self, h: &Hierarchy) -> (r: bool)
        ensures
            r == has_room_for(self@, visible_of(h@).len() as int),
    {
        let vis = h.visible_nodes();
        assert(views_of(vis@).len() == vis@.len());
        let n: usize = vis.len();
        if n as u64 > u32::MAX as u64 || self.same_streak == usize::MAX {
            return false;
        }
        let most: u32 = u32::MAX - n as u32;
        let mut i: usize = 0;
        while i < self.nodes.len()
            invariant
                i <= self.nodes@.len(),
                most == u32::MAX - n,
                n == visible_of(h@).len(),
                forall|j: int| 0 <= j < i ==> #[trigger] self@.nodes[j].seen <= most,
            decreases self.nodes@.len() - i,
        {
            assert(self@.nodes[i as int].seen == self.nodes@[i as int].seen);
            if self.nodes[i].seen > most {
                return false;
            }
            i = i + 1;
        }
        let mut i: usize = 0;
        while i < self.states.len()
            invariant
                i <= self.states@.len(),
                forall|j: int| 0 <= j < i ==> #[trigger] self@.states[j].visits < u32::MAX,
            decreases self.states@.len() - i,
        {
            assert(self@.states[i as int].visits == self.states@[i as int].visits);
            if self.states[i].visits == u32::MAX {
                return false;
            }
            i = i + 1;
        }
        let mut i: usize = 0;
        while i < self.activities.len()
            invariant
                i <= self.activities@.len(),
                forall|j: int| 0 <= j < i ==> #[trigger] self@.activities[j].visits < u32::MAX,
            decreases self.activities@.len() - i,
        {
            assert(self@.activities[i as int].visits == self.activities@[i as int].visits);
            if self.activities[i].visits == u32::MAX {
                return false;
            }
            i = i + 1;
        }
        true
    }

    /// Looks at a screen. Gives the state and whether it is met for the first time.
    pub fn observe(&mut self, h: &Hierarchy, activity: &str, step: usize) -> (r: (u64, bool))
        requires
            has_room_for(old(self)@, visible_of(h@).len() as int),
        ensures
            final(self)@ == observed(old(self)@, h@, activity@, step),
            final(self).generator() == old(self).generator(),
            r.0 == state_id(old(self)@.cfg.mode, h@, activity@),
            r.1 == (state_at(old(self)@.states, r.0) == old(self)@.states.len()),
    {
        let vis = h.visible_nodes();
        let screen = h.screen();
        let sig = match self.cfg.state_mode {
            StateMode::Structure => Hierarchy::struct_sig_with(activity, &screen, vis.as_slice()),
            StateMode::Exact => Hierarchy::state_sig_with(activity, &screen, vis.as_slice()),
        };
        let id = hash64(sig.as_str());
        proof {
            assert(views_of(vis@).len() == vis@.len());
            assert forall|i: int| 0 <= i < self.nodes@.len() implies (
            #[trigger] self.nodes@[i]).seen + vis@.len() <= u32::MAX by {
                assert(self@.nodes[i].seen == self.nodes@[i].seen);
            }
            assert forall|i: int| 0 <= i < self.states@.len() implies (
            #[trigger] self.states@[i]).visits < u32::MAX by {
                assert(self@.states[i].visits == self.states@[i].visits);
            }
            assert forall|i: int| 0 <= i < self.activities@.len() implies (
            #[trigger] self.activities@[i]).visits < u32::MAX by {
                assert(self@.activities[i].visits == self.activities@[i].visits);
            }
        }
        register_all(&mut self.nodes, &vis, &self.cfg.package, activity);
        let is_new = visit(&mut self.states, id, h, &vis, activity, step);
        enter(&mut self.activities, h, &vis, &self.cfg.package, activity, step);
        let again = match self.last_state {
            Some(last) => last == id,
            None => false,
        };
        if again {
            self.same_streak = self.same_streak + 1;
        } else {
            self.same_streak = 0;
        }
        self.last_state = Some(id);
        (id, is_new)
    }

    /// The widgets that were seen.
    pub fn known_nodes(&self) -> (r: &Vec<NodeStat>)
        ensures
            stat_views(r@) == self@.nodes,
    {
        &self.nodes
    }

    /// The activities that were entered.
    pub fn known_activities(&self) -> (r: &Vec<ActivityRecord>)
        ensures
            activity_views(r@) == self@.activities,
    {
        &self.activities
    }

    /// The app under test.
    pub fn package(&self) -> (r: &String)
        ensures
            r@ == self@.cfg.package,
    {
        &self.cfg.package
    }

    /// The number of states that were met.
    pub fn state_count(&self) -> (r: usize)
        ensures
            r == self@.states.len(),
    {
        self.states.len()
    }

    /// The states in the order in which they were met first.
    pub fn states_in_order(&self) -> (r: Vec<StateRecord>)
        ensures
            state_views(r@) == self@.states,
    {
        let mut out: Vec<StateRecord> = Vec::new();
        let mut i: usize = 0;
        while i < self.states.len()
            invariant
                i <= self.states@.len(),
                out@.len() == i,
                forall|j: int| 0 <= j < i ==> #[trigger] out@[j]@ == self.states@[j]@,
            decreases self.states@.len() - i,
        {
            out.push(self.states[i].clone());
            i = i + 1;
        }
        assert(state_views(out@) =~= self@.states);
        out
    }

    /// How often in a row the last state was met again.
    pub fn same_streak(&self) -> (r: usize)
        ensures
            r == self@.same_streak,
    {
        self.same_streak
    }

    /// The same state was met too often in a row.
    pub fn is_stuck(&self) -> (r: bool)
        ensures
            r == (self@.same_streak >= self@.cfg.max_same_state),
    {
        self.same_streak >= self.cfg.max_same_state
    }

    /// Draws the texts to type on a screen: one for each visible widget, an empty one where nothing
    /// is typed.
    pub fn draw_texts(&mut self, h: &Hierarchy) -> (r: Vec<String>)
        ensures
            final(self)@ == old(self)@,
            (texts(r@), final(self).generator()) == draws(
                old(self)@.cfg,
                visible_of(h@),
                screen_of(h@),
                old(self).generator(),
            ),
            drawn_for(old(self)@.cfg, visible_of(h@), screen_of(h@), texts(r@)),
    {
        let vis = h.visible_nodes();
        let screen = h.screen();
        let ghost all = views_of(vis@);
        let ghost start = self.rng;
        let mut out: Vec<String> = Vec::new();
        let mut i: usize = 0;
        proof {
            assert(all.take(0) =~= seq![]);
            assert(texts(out@) =~= seq![]);
        }
        while i < vis.len()
            invariant
                i <= vis@.len(),
                all == views_of(vis@),
                whole(screen),
                self@ == old(self)@,
                (texts(out@), self.rng) == draws(self@.cfg, all.take(i as int), screen, start),
                drawn_for(self@.cfg, all.take(i as int), screen, texts(out@)),
            decreases vis@.len() - i,
        {
            let n = vis[i];
            let ghost was = texts(out@);
            let mut text = String::new();
            assert(text@ =~= seq![]);
            if needs_text(&self.cfg, n, &screen) {
                match draw_text(&self.cfg.text_pool, &mut self.rng) {
                    Some(t) => {
                        text = t;
                    },
                    None => {},
                }
            }
            let ghost now = text@;
            out.push(text);
            proof {
                assert(texts(out@) =~= was.push(now));
                assert(all.take(i + 1).drop_last() =~= all.take(i as int));
                assert(all.take(i + 1).last() == n@);
                assert forall|j: int|
                    0 <= j < i + 1 && wants_text(
                        self@.cfg,
                        #[trigger] all.take(i + 1)[j],
                        screen,
                    ) implies self@.cfg.pool.contains(texts(out@)[j]) by {
                    if j < i {
                        assert(all.take(i as int)[j] == all.take(i + 1)[j]);
                    }
                }
            }
            i = i + 1;
        }
        assert(all.take(i as int) =~= all);
        out
    }

    /// What a screen offers, where the texts to type are given, one for each visible widget.
    pub fn offers(&self, h: &Hierarchy, drawn: &Vec<String>) -> (r: Vec<Candidate>)
        requires
            drawn@.len() == visible_of(h@).len(),
        ensures
            candidate_views(r@) == offered(self@, h@, texts(drawn@)),
            r@.len() > 0,
            fair(weights_of(candidate_views(r@))),
    {
        let vis = h.visible_nodes();
        let screen = h.screen();
        let ghost all = views_of(vis@);
        let ghost typed = texts(drawn@);
        let mut out: Vec<Candidate> = Vec::new();
        let mut i: usize = 0;
        proof {
            assert(all.len() == vis@.len());
            assert(all.take(0) =~= seq![]);
            assert(candidate_views(out@) =~= seq![]);
        }
        while i < vis.len()
            invariant
                i <= vis@.len(),
                vis@.len() == drawn@.len(),
                all == views_of(vis@),
                typed == texts(drawn@),
                whole(screen),
                candidate_views(out@) == widgets_offer(self@, all.take(i as int), screen, typed),
            decreases vis@.len() - i,
        {
            let n = vis[i];
            let key = n.key();
            let at = find_stat(&self.nodes, key.as_str());
            let touched: u32 = if at < self.nodes.len() {
                self.nodes[at].touched
            } else {
                0
            };
            proof {
                assert(all.take(i + 1).drop_last() =~= all.take(i as int));
                assert(all.take(i + 1).last() == n@);
            }
            add_actions(&self.cfg, n, &screen, touched, drawn[i].as_str(), &mut out);
            i = i + 1;
        }
        assert(all.take(i as int) =~= all);
        proof {
            lemma_something_is_offered(self@, h@, typed);
        }
        if out.len() == 0 {
            assert(candidate_views(out@).len() == 0);
            add_screen_swipe(&screen, &mut out);
            assert(candidate_views(out@) =~= seq![screen_swipe(screen)]);
        }
        assert(candidate_views(out@).len() == out@.len());
        out
    }

    /// What a screen offers. The texts to type are drawn from the pool: which they are depends on
    /// the generator alone, so that the same seed leads to the same offers again.
    pub fn candidates(&mut self, h: &Hierarchy) -> (r: Vec<Candidate>)
        ensures
            final(self)@ == old(self)@,
            ({
                let (drawn, after) = draws(
                    old(self)@.cfg,
                    visible_of(h@),
                    screen_of(h@),
                    old(self).generator(),
                );
                &&& drawn_for(old(self)@.cfg, visible_of(h@), screen_of(h@), drawn)
                &&& candidate_views(r@) == offered(old(self)@, h@, drawn)
                &&& final(self).generator() == after
            }),
            r@.len() > 0,
            fair(weights_of(candidate_views(r@))),
    {
        let drawn = self.draw_texts(h);
        assert(texts(drawn@).len() == drawn@.len());
        self.offers(h, &drawn)
    }

    fn tried_keys(&self, id: u64) -> (r: Vec<String>)
        ensures
            texts(r@) == tried_in(self@.tried, id),
    {
        let i = find_tried(&self.tried, id);
        if i < self.tried.len() {
            crate::strategy::record::copy_texts(&self.tried[i].keys)
        } else {
            let out: Vec<String> = Vec::new();
            assert(texts(out@) =~= seq![]);
            out
        }
    }

    /// The sum of the weights of the candidates to choose from in a state: those that were not
    /// tried there yet, or all of them where there is none left. A draw is a number of single
    /// precision from zero up to it.
    pub fn total_weight(&self, id: u64, cands: &Vec<Candidate>) -> (r: u128)
        requires
            cands@.len() > 0,
            fair(weights_of(candidate_views(cands@))),
        ensures
            ({
                let all = candidate_views(cands@);
                r == total_of(pool_weights(all, pool_of(all, tried_in(self@.tried, id))))
            }),
            0 < r <= 0x10_0000_0000_0000_0000_0000_0000,
            round24(r as int) == r,
    {
        let tried = self.tried_keys(id);
        let pool = find_pool(cands, &tried);
        let count: usize = cands.len();
        proof {
            assert(count <= usize::MAX);
            assert(candidate_views(cands@).len() == cands@.len());
            lemma_pool(candidate_views(cands@), texts(tried@));
        }
        let ws = find_weights(cands, &pool);
        total(&ws)
    }

    /// Takes the candidate that a draw falls on, among those that were not tried in the state
    /// yet, or among all of them where there is none left. None where there is no candidate.
    pub fn take_action(&mut self, id: u64, cands: &Vec<Candidate>, draw: i128) -> (r: Option<
        Action,
    >)
        requires
            fair(weights_of(candidate_views(cands@))),
            0 <= draw <= 0x1000_0000_0000_0000_0000_0000_0000_0000,
            round24(draw as int) == draw,
        ensures
            final(self).generator() == old(self).generator(),
            cands@.len() == 0 ==> r is None && final(self)@ == old(self)@,
            cands@.len() > 0 ==> {
                let all = candidate_views(cands@);
                let k = taken(all, tried_in(old(self)@.tried, id), draw as int);
                &&& 0 <= k < all.len()
                &&& r is Some
                &&& r->0@ == all[k].action
                &&& final(self)@ == took(old(self)@, id, all[k].action)
            },
    {
        if cands.len() == 0 {
            return None;
        }
        let ghost all = candidate_views(cands@);
        assert(all.len() == cands@.len());
        let tried = self.tried_keys(id);
        let pool = find_pool(cands, &tried);
        proof {
            lemma_pool(all, texts(tried@));
        }
        let ws = find_weights(cands, &pool);
        let k = pool[pick(&ws, draw)];
        let action = cands[k].action.clone();
        let key = action.action_key();
        let at = find_tried(&self.tried, id);
        let ghost tried_before = self@.tried;
        let ghost kv = key@;
        if at < self.tried.len() {
            if !holds(&self.tried[at].keys, key.as_str()) {
                let mut keys = crate::strategy::record::copy_texts(&self.tried[at].keys);
                let ghost was = texts(keys@);
                keys.push(key);
                assert(texts(keys@) =~= was.push(kv));
                let now = Tried { id: self.tried[at].id, keys };
                let ghost view = now@;
                self.tried.set(at, now);
                assert(tried_views(self.tried@) =~= tried_before.update(at as int, view));
            } else {
                assert(tried_views(self.tried@) =~= tried_before);
            }
        } else {
            let mut keys: Vec<String> = Vec::new();
            keys.push(key);
            assert(texts(keys@) =~= seq![kv]);
            let now = Tried { id, keys };
            let ghost view = now@;
            self.tried.push(now);
            assert(tried_views(self.tried@) =~= tried_before.push(view));
        }
        assert(tried_views(self.tried@) == with_tried(tried_before, id, kv));
        let count: usize = self.tried_keys(id).len();
        assert(count == tried_in(with_tried(tried_before, id, kv), id).len());
        let s = find_state(&self.states, id);
        let ghost states_before = self@.states;
        if s < self.states.len() {
            let mut st = self.states[s].clone();
            st.tried_count = count;
            let ghost view = st@;
            self.states.set(s, st);
            assert(state_views(self.states@) =~= states_before.update(s as int, view));
        }
        Some(action)
    }

    /// Notes a step from one state to another.
    pub fn note_transition(&mut self, from: u64, action_key: String, to: u64, step: usize)
        ensures
            final(self)@ == (ExplorerView {
                transitions: old(self)@.transitions.push(
                    TransitionView { from, to, action: action_key@, step },
                ),
                ..old(self)@
            }),
            final(self).generator() == old(self).generator(),
    {
        let t = Transition { from, to, action: action_key, step };
        let ghost view = t@;
        let ghost was = self@.transitions;
        self.transitions.push(t);
        assert(transition_views(self.transitions@) =~= was.push(view));
    }

    /// Hands out the steps that were noted.
    pub fn take_transitions(&mut self) -> (r: Vec<Transition>)
        ensures
            transition_views(r@) == old(self)@.transitions,
            final(self)@ == (ExplorerView { transitions: seq![], ..old(self)@ }),
            final(self).generator() == old(self).generator(),
    {
        let mut out: Vec<Transition> = Vec::new();
        std::mem::swap(&mut out, &mut self.transitions);
        assert(transition_views(self.transitions@) =~= seq![]);
        out
    }

    /// The counter of the widget would not overflow.
    pub fn can_touch(&self, key: &str) -> (r: bool)
        ensures
            r == (touched_of(self@.nodes, key@) < u32::MAX),
    {
        let i = find_stat(&self.nodes, key);
        i >= self.nodes.len() || self.nodes[i].touched < u32::MAX
    }

    /// Something was done with the widget. One that is not known is passed over.
    pub fn mark_touched(&mut self, key: &str)
        requires
            touched_of(old(self)@.nodes, key@) < u32::MAX,
        ensures
            final(self)@ == touched_once(old(self)@, key@),
            final(self).generator() == old(self).generator(),
    {
        let i = find_stat(&self.nodes, key);
        let ghost was = self@.nodes;
        if i < self.nodes.len() {
            let mut stat = self.nodes[i].clone();
            stat.touched = stat.touched + 1;
            let ghost view = stat@;
            self.nodes.set(i, stat);
            assert(stat_views(self.nodes@) =~= was.update(i as int, view));
        }
    }

    /// A new run of equal states begins.
    pub fn reset_streak(&mut self)
        ensures
            final(self)@ == (ExplorerView { same_streak: 0, ..old(self)@ }),
            final(self).generator() == old(self).generator(),
    {
        self.same_streak = 0;
    }
}

/// The explorer once something was done with a widget.
pub open spec fn touched_once(v: ExplorerView, key: Seq<char>) -> ExplorerView {
    let i = stat_at(v.nodes, key);
    if i < v.nodes.len() {
        ExplorerView {
            nodes: v.nodes.update(
                i,
                StatView { touched: (v.nodes[i].touched + 1) as u32, ..v.nodes[i] },
            ),
            ..v
        }
    } else {
        v
    }
}

} // verus!
