//! What is kept of states, activities, widgets and transitions.

use vstd::prelude::*;

use crate::model::node::counts;
use crate::model::node::display_of;
use crate::model::node::key_of;
use crate::model::node::short_class_of;
use crate::model::node::NodeView;
use crate::text::basic::texts;

verus! {

/// A state of the app.
#[derive(Debug)]
pub struct StateRecord {
    pub id: u64,
    pub activity: String,
    pub visits: u32,
    pub first_step: usize,
    pub node_count: usize,
    pub interactive_count: usize,
    pub tried_count: usize,
    /// The keys of the widgets of the state that count, in order and each once. They are what
    /// stays of a page while its contents change, so that several states can be told to be
    /// one page.
    pub keys: Vec<String>,
}

/// A state as a mathematical value.
pub struct StateView {
    pub id: u64,
    pub activity: Seq<char>,
    pub visits: u32,
    pub first_step: usize,
    pub node_count: int,
    pub interactive_count: int,
    pub tried_count: int,
    pub keys: Seq<Seq<char>>,
}

impl View for StateRecord {
    type V = StateView;

    open spec fn view(&self) -> StateView {
        StateView {
            id: self.id,
            activity: self.activity@,
            visits: self.visits,
            first_step: self.first_step,
            node_count: self.node_count as int,
            interactive_count: self.interactive_count as int,
            tried_count: self.tried_count as int,
            keys: texts(self.keys@),
        }
    }
}

impl Clone for StateRecord {
    fn clone(&self) -> (r: Self)
        ensures
            r@ == self@,
    {
        StateRecord {
            id: self.id,
            activity: self.activity.clone(),
            visits: self.visits,
            first_step: self.first_step,
            node_count: self.node_count,
            interactive_count: self.interactive_count,
            tried_count: self.tried_count,
            keys: copy_texts(&self.keys),
        }
    }
}

/// A copy of a list of texts.
pub fn copy_texts(v: &Vec<String>) -> (r: Vec<String>)
    ensures
        texts(r@) == texts(v@),
{
    let mut out: Vec<String> = Vec::new();
    let mut i: usize = 0;
    while i < v.len()
        invariant
            i <= v@.len(),
            out@.len() == i,
            forall|j: int| 0 <= j < i ==> #[trigger] out@[j]@ == v@[j]@,
        decreases v@.len() - i,
    {
        out.push(v[i].clone());
        i = i + 1;
    }
    assert(texts(out@) =~= texts(v@));
    out
}

/// An activity of the app.
#[derive(Debug)]
pub struct ActivityRecord {
    pub name: String,
    pub visits: u32,
    pub first_step: usize,
    /// The keys of the widgets seen in it, each once.
    pub nodes: Vec<String>,
}

/// An activity as a mathematical value.
pub struct ActivityView {
    pub name: Seq<char>,
    pub visits: u32,
    pub first_step: usize,
    pub nodes: Seq<Seq<char>>,
}

impl View for ActivityRecord {
    type V = ActivityView;

    open spec fn view(&self) -> ActivityView {
        ActivityView {
            name: self.name@,
            visits: self.visits,
            first_step: self.first_step,
            nodes: texts(self.nodes@),
        }
    }
}

/// What is known of a widget.
#[derive(Debug)]
pub struct NodeStat {
    pub key: String,
    pub label: String,
    pub class: String,
    pub resource_id: String,
    pub activity: String,
    pub seen: u32,
    pub touched: u32,
    /// The widget counts for the coverage, or did so at least once.
    pub interactive: bool,
}

/// What is known of a widget, as a mathematical value.
pub struct StatView {
    pub key: Seq<char>,
    pub label: Seq<char>,
    pub class: Seq<char>,
    pub resource_id: Seq<char>,
    pub activity: Seq<char>,
    pub seen: u32,
    pub touched: u32,
    pub interactive: bool,
}

impl View for NodeStat {
    type V = StatView;

    open spec fn view(&self) -> StatView {
        StatView {
            key: self.key@,
            label: self.label@,
            class: self.class@,
            resource_id: self.resource_id@,
            activity: self.activity@,
            seen: self.seen,
            touched: self.touched,
            interactive: self.interactive,
        }
    }
}

impl Clone for NodeStat {
    fn clone(&self) -> (r: Self)
        ensures
            r@ == self@,
    {
        NodeStat {
            key: self.key.clone(),
            label: self.label.clone(),
            class: self.class.clone(),
            resource_id: self.resource_id.clone(),
            activity: self.activity.clone(),
            seen: self.seen,
            touched: self.touched,
            interactive: self.interactive,
        }
    }
}

/// A step from one state to another.
#[derive(Debug)]
pub struct Transition {
    pub from: u64,
    pub to: u64,
    pub action: String,
    pub step: usize,
}

/// A step from one state to another, as a mathematical value.
pub struct TransitionView {
    pub from: u64,
    pub to: u64,
    pub action: Seq<char>,
    pub step: usize,
}

impl View for Transition {
    type V = TransitionView;

    open spec fn view(&self) -> TransitionView {
        TransitionView { from: self.from, to: self.to, action: self.action@, step: self.step }
    }
}

/// The actions that were tried in a state.
#[derive(Debug)]
pub struct Tried {
    pub id: u64,
    pub keys: Vec<String>,
}

/// The actions that were tried in a state, as a mathematical value.
pub struct TriedView {
    pub id: u64,
    pub keys: Seq<Seq<char>>,
}

impl View for Tried {
    type V = TriedView;

    open spec fn view(&self) -> TriedView {
        TriedView { id: self.id, keys: texts(self.keys@) }
    }
}

pub open spec fn state_views(s: Seq<StateRecord>) -> Seq<StateView> {
    Seq::new(s.len(), |i: int| s[i]@)
}

pub open spec fn activity_views(s: Seq<ActivityRecord>) -> Seq<ActivityView> {
    Seq::new(s.len(), |i: int| s[i]@)
}

pub open spec fn stat_views(s: Seq<NodeStat>) -> Seq<StatView> {
    Seq::new(s.len(), |i: int| s[i]@)
}

pub open spec fn transition_views(s: Seq<Transition>) -> Seq<TransitionView> {
    Seq::new(s.len(), |i: int| s[i]@)
}

pub open spec fn tried_views(s: Seq<Tried>) -> Seq<TriedView> {
    Seq::new(s.len(), |i: int| s[i]@)
}

/// The place of the widget with the key; the number of widgets where there is none.
pub open spec fn stat_at(nodes: Seq<StatView>, key: Seq<char>) -> int
    decreases nodes.len(),
{
    if nodes.len() == 0 {
        0
    } else {
        let d = stat_at(nodes.drop_last(), key);
        if d < nodes.len() - 1 {
            d
        } else if nodes.last().key == key {
            nodes.len() - 1
        } else {
            nodes.len() as int
        }
    }
}

pub proof fn lemma_stat_at(nodes: Seq<StatView>, key: Seq<char>)
    ensures
        0 <= stat_at(nodes, key) <= nodes.len(),
        forall|j: int| 0 <= j < stat_at(nodes, key) ==> #[trigger] nodes[j].key != key,
        stat_at(nodes, key) < nodes.len() ==> nodes[stat_at(nodes, key)].key == key,
    decreases nodes.len(),
{
    if nodes.len() > 0 {
        let d = nodes.drop_last();
        lemma_stat_at(d, key);
        assert forall|j: int| 0 <= j < stat_at(nodes, key) implies #[trigger] nodes[j].key
            != key by {
            if j < nodes.len() - 1 {
                assert(d[j] == nodes[j]);
            }
        }
        if stat_at(d, key) < d.len() {
            assert(d[stat_at(d, key)] == nodes[stat_at(d, key)]);
        }
    }
}

/// The place of the state with the id; the number of states where there is none.
pub open spec fn state_at(states: Seq<StateView>, id: u64) -> int
    decreases states.len(),
{
    if states.len() == 0 {
        0
    } else {
        let d = state_at(states.drop_last(), id);
        if d < states.len() - 1 {
            d
        } else if states.last().id == id {
            states.len() - 1
        } else {
            states.len() as int
        }
    }
}

pub proof fn lemma_state_at(states: Seq<StateView>, id: u64)
    ensures
        0 <= state_at(states, id) <= states.len(),
        forall|j: int| 0 <= j < state_at(states, id) ==> #[trigger] states[j].id != id,
        state_at(states, id) < states.len() ==> states[state_at(states, id)].id == id,
    decreases states.len(),
{
    if states.len() > 0 {
        let d = states.drop_last();
        lemma_state_at(d, id);
        assert forall|j: int| 0 <= j < state_at(states, id) implies #[trigger] states[j].id
            != id by {
            if j < states.len() - 1 {
                assert(d[j] == states[j]);
            }
        }
        if state_at(d, id) < d.len() {
            assert(d[state_at(d, id)] == states[state_at(d, id)]);
        }
    }
}

/// The place of what was tried in a state; the length where nothing was.
pub open spec fn tried_at(tried: Seq<TriedView>, id: u64) -> int
    decreases tried.len(),
{
    if tried.len() == 0 {
        0
    } else {
        let d = tried_at(tried.drop_last(), id);
        if d < tried.len() - 1 {
            d
        } else if tried.last().id == id {
            tried.len() - 1
        } else {
            tried.len() as int
        }
    }
}

pub proof fn lemma_tried_at(tried: Seq<TriedView>, id: u64)
    ensures
        0 <= tried_at(tried, id) <= tried.len(),
        forall|j: int| 0 <= j < tried_at(tried, id) ==> #[trigger] tried[j].id != id,
        tried_at(tried, id) < tried.len() ==> tried[tried_at(tried, id)].id == id,
    decreases tried.len(),
{
    if tried.len() > 0 {
        let d = tried.drop_last();
        lemma_tried_at(d, id);
        assert forall|j: int| 0 <= j < tried_at(tried, id) implies #[trigger] tried[j].id
            != id by {
            if j < tried.len() - 1 {
                assert(d[j] == tried[j]);
            }
        }
        if tried_at(d, id) < d.len() {
            assert(d[tried_at(d, id)] == tried[tried_at(d, id)]);
        }
    }
}

/// How often something was done with the widget.
pub open spec fn touched_of(nodes: Seq<StatView>, key: Seq<char>) -> int {
    let i = stat_at(nodes, key);
    if i < nodes.len() {
        nodes[i].touched as int
    } else {
        0
    }
}

/// A widget that is seen for the first time.
pub open spec fn new_stat(n: NodeView, activity: Seq<char>) -> StatView {
    StatView {
        key: key_of(n),
        label: display_of(n),
        class: short_class_of(n),
        resource_id: n.resource_id,
        activity,
        seen: 1,
        touched: 0,
        interactive: counts(n),
    }
}

/// A widget that is seen once more.
pub open spec fn seen_again(s: StatView, n: NodeView, activity: Seq<char>) -> StatView {
    StatView {
        seen: (s.seen + 1) as u32,
        interactive: s.interactive || counts(n),
        activity: if s.activity.len() == 0 {
            activity
        } else {
            s.activity
        },
        ..s
    }
}

/// The widgets known once one more was seen.
pub open spec fn registered(nodes: Seq<StatView>, n: NodeView, activity: Seq<char>) -> Seq<
    StatView,
> {
    let i = stat_at(nodes, key_of(n));
    if i < nodes.len() {
        nodes.update(i, seen_again(nodes[i], n, activity))
    } else {
        nodes.push(new_stat(n, activity))
    }
}

} // verus!
