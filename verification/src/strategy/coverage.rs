//! How much of an app has been covered.

use vstd::prelude::*;

use crate::model::node::is_empty;
use crate::single::divide;
use crate::single::quotient;
use crate::single::Single;
use crate::strategy::explorer::Explorer;
use crate::strategy::explorer::ExplorerView;
use crate::strategy::record::stat_at;
use crate::strategy::record::stat_views;
use crate::strategy::record::ActivityRecord;
use crate::strategy::record::ActivityView;
use crate::strategy::record::NodeStat;
use crate::strategy::record::StatView;
use crate::text::basic::texts;
use crate::text::search::begins;
use crate::text::search::starts_with;

verus! {

/// The coverage of one activity.
#[derive(Debug)]
pub struct ActivityCoverage {
    pub name: String,
    pub visits: u32,
    pub first_step: usize,
    pub nodes_seen: usize,
    pub nodes_touched: usize,
    pub coverage: Single,
    pub interactive_seen: usize,
    pub interactive_touched: usize,
    pub interactive_coverage: Single,
}

/// The coverage of one activity as a mathematical value.
pub struct ActivityCoverageView {
    pub name: Seq<char>,
    pub visits: u32,
    pub first_step: usize,
    pub nodes_seen: int,
    pub nodes_touched: int,
    pub coverage: int,
    pub interactive_seen: int,
    pub interactive_touched: int,
    pub interactive_coverage: int,
}

impl View for ActivityCoverage {
    type V = ActivityCoverageView;

    open spec fn view(&self) -> ActivityCoverageView {
        ActivityCoverageView {
            name: self.name@,
            visits: self.visits,
            first_step: self.first_step,
            nodes_seen: self.nodes_seen as int,
            nodes_touched: self.nodes_touched as int,
            coverage: self.coverage.bits as int,
            interactive_seen: self.interactive_seen as int,
            interactive_touched: self.interactive_touched as int,
            interactive_coverage: self.interactive_coverage.bits as int,
        }
    }
}

/// The coverage of an app.
#[derive(Debug)]
pub struct CoverageReport {
    pub activity_count: usize,
    pub state_count: usize,
    /// All widgets, layout without content among them.
    pub total_nodes: usize,
    pub touched_nodes: usize,
    pub node_coverage: Single,
    /// The widgets that count: layout can never be tapped, and would keep the coverage down.
    pub interactive_nodes: usize,
    pub interactive_touched: usize,
    pub interactive_coverage: Single,
    pub activities: Vec<ActivityCoverage>,
    /// How many of the widgets that nothing was done with count.
    pub untouched_interactive: usize,
    pub untouched_sample: Vec<NodeStat>,
}

/// The coverage of an app as a mathematical value; the parts are given by their bits.
pub struct CoverageView {
    pub activity_count: int,
    pub state_count: int,
    pub total_nodes: int,
    pub touched_nodes: int,
    pub node_coverage: int,
    pub interactive_nodes: int,
    pub interactive_touched: int,
    pub interactive_coverage: int,
    pub activities: Seq<ActivityCoverageView>,
    pub untouched_interactive: int,
    pub untouched_sample: Seq<StatView>,
}

pub open spec fn activity_coverage_views(s: Seq<ActivityCoverage>) -> Seq<ActivityCoverageView> {
    Seq::new(s.len(), |i: int| s[i]@)
}

impl View for CoverageReport {
    type V = CoverageView;

    open spec fn view(&self) -> CoverageView {
        CoverageView {
            activity_count: self.activity_count as int,
            state_count: self.state_count as int,
            total_nodes: self.total_nodes as int,
            touched_nodes: self.touched_nodes as int,
            node_coverage: self.node_coverage.bits as int,
            interactive_nodes: self.interactive_nodes as int,
            interactive_touched: self.interactive_touched as int,
            interactive_coverage: self.interactive_coverage.bits as int,
            activities: activity_coverage_views(self.activities@),
            untouched_interactive: self.untouched_interactive as int,
            untouched_sample: stat_views(self.untouched_sample@),
        }
    }
}

impl Default for CoverageReport {
    fn default() -> (r: Self)
        ensures
            r@ == (CoverageView {
                activity_count: 0,
                state_count: 0,
                total_nodes: 0,
                touched_nodes: 0,
                node_coverage: 0,
                interactive_nodes: 0,
                interactive_touched: 0,
                interactive_coverage: 0,
                activities: seq![],
                untouched_interactive: 0,
                untouched_sample: seq![],
            }),
    {
        let r = CoverageReport {
            activity_count: 0,
            state_count: 0,
            total_nodes: 0,
            touched_nodes: 0,
            node_coverage: Single { bits: 0 },
            interactive_nodes: 0,
            interactive_touched: 0,
            interactive_coverage: Single { bits: 0 },
            activities: Vec::new(),
            untouched_interactive: 0,
            untouched_sample: Vec::new(),
        };
        assert(r@.activities =~= seq![]);
        assert(r@.untouched_sample =~= seq![]);
        r
    }
}

/// Which widgets to count.
pub enum Which {
    Touched,
    Interactive,
    InteractiveTouched,
    Untouched,
    InteractiveUntouched,
}

pub open spec fn fits(w: Which, s: StatView) -> bool {
    match w {
        Which::Touched => s.touched > 0,
        Which::Interactive => s.interactive,
        Which::InteractiveTouched => s.interactive && s.touched > 0,
        Which::Untouched => s.touched == 0,
        Which::InteractiveUntouched => s.interactive && s.touched == 0,
    }
}

/// The number of widgets of a kind.
pub open spec fn count_of(nodes: Seq<StatView>, w: Which) -> int
    decreases nodes.len(),
{
    if nodes.len() == 0 {
        0
    } else {
        count_of(nodes.drop_last(), w) + (if fits(w, nodes.last()) {
            1int
        } else {
            0
        })
    }
}

/// The bits of a part in single precision; zero where the whole is.
pub open spec fn ratio_of(part: int, whole: int) -> int {
    if whole == 0 {
        0
    } else {
        quotient(part, whole)
    }
}

/// The number of keys whose widgets are of a kind.
pub open spec fn keys_of_kind(keys: Seq<Seq<char>>, nodes: Seq<StatView>, w: Which) -> int
    decreases keys.len(),
{
    if keys.len() == 0 {
        0
    } else {
        let i = stat_at(nodes, keys.last());
        keys_of_kind(keys.drop_last(), nodes, w) + (if i < nodes.len() && fits(w, nodes[i]) {
            1int
        } else {
            0
        })
    }
}

/// The coverage of one activity.
pub open spec fn activity_cover(a: ActivityView, nodes: Seq<StatView>) -> ActivityCoverageView {
    let seen = a.nodes.len() as int;
    let touched = keys_of_kind(a.nodes, nodes, Which::Touched);
    let i_seen = keys_of_kind(a.nodes, nodes, Which::Interactive);
    let i_touched = keys_of_kind(a.nodes, nodes, Which::InteractiveTouched);
    ActivityCoverageView {
        name: a.name,
        visits: a.visits,
        first_step: a.first_step,
        nodes_seen: seen,
        nodes_touched: touched,
        coverage: ratio_of(touched, seen),
        interactive_seen: i_seen,
        interactive_touched: i_touched,
        interactive_coverage: ratio_of(i_touched, i_seen),
    }
}

/// The first place, from the `i`th on, of an activity with fewer widgets.
pub open spec fn place_by_seen(s: Seq<ActivityCoverageView>, n: int, i: int) -> int
    decreases s.len() - i,
{
    if i < 0 || i >= s.len() || s[i].nodes_seen < n {
        i
    } else {
        place_by_seen(s, n, i + 1)
    }
}

/// The coverage of the activities of the app under test, those with most widgets first; among
/// equals in the order of their names.
pub open spec fn activities_cover(
    acts: Seq<ActivityView>,
    nodes: Seq<StatView>,
    package: Seq<char>,
) -> Seq<ActivityCoverageView>
    decreases acts.len(),
{
    if acts.len() == 0 {
        seq![]
    } else {
        let r = activities_cover(acts.drop_last(), nodes, package);
        let a = acts.last();
        if package.len() == 0 || begins(a.name, package) {
            let c = activity_cover(a, nodes);
            r.insert(place_by_seen(r, c.nodes_seen, 0), c)
        } else {
            r
        }
    }
}

/// `a` comes before `b` in the list of what is missing: widgets that count first, then those
/// that were seen more often.
pub open spec fn more_missed(a: StatView, b: StatView) -> bool {
    (a.interactive && !b.interactive) || (a.interactive == b.interactive && a.seen > b.seen)
}

/// The first place, from the `i`th on, of a widget that `x` comes before.
pub open spec fn place_missed(s: Seq<StatView>, x: StatView, i: int) -> int
    decreases s.len() - i,
{
    if i < 0 || i >= s.len() || more_missed(x, s[i]) {
        i
    } else {
        place_missed(s, x, i + 1)
    }
}

/// The widgets that nothing was done with, those most missed first.
pub open spec fn missed(nodes: Seq<StatView>) -> Seq<StatView>
    decreases nodes.len(),
{
    if nodes.len() == 0 {
        seq![]
    } else {
        let r = missed(nodes.drop_last());
        let x = nodes.last();
        if x.touched == 0 {
            r.insert(place_missed(r, x, 0), x)
        } else {
            r
        }
    }
}

/// At most the first 50 widgets of a list.
pub open spec fn sample_of(s: Seq<StatView>) -> Seq<StatView> {
    if s.len() <= 50 {
        s
    } else {
        s.take(50)
    }
}

/// The coverage that an explorer has reached.
pub open spec fn coverage_of(v: ExplorerView) -> CoverageView {
    let total = v.nodes.len() as int;
    let touched = count_of(v.nodes, Which::Touched);
    let i_total = count_of(v.nodes, Which::Interactive);
    let i_touched = count_of(v.nodes, Which::InteractiveTouched);
    let acts = activities_cover(v.activities, v.nodes, v.cfg.package);
    CoverageView {
        activity_count: acts.len() as int,
        state_count: v.states.len() as int,
        total_nodes: total,
        touched_nodes: touched,
        node_coverage: ratio_of(touched, total),
        interactive_nodes: i_total,
        interactive_touched: i_touched,
        interactive_coverage: ratio_of(i_touched, i_total),
        activities: acts,
        untouched_interactive: count_of(v.nodes, Which::InteractiveUntouched),
        untouched_sample: sample_of(missed(v.nodes)),
    }
}

/// A part of a whole in single precision; zero where the whole is.
pub fn ratio(part: usize, whole: usize) -> (r: Single)
    ensures
        r.bits == ratio_of(part as int, whole as int),
{
    if whole == 0 {
        Single { bits: 0 }
    } else {
        divide(part as u128, whole as u128)
    }
}

fn is_of(w: &Which, s: &NodeStat) -> (r: bool)
    ensures
        r == fits(*w, s@),
{
    match w {
        Which::Touched => s.touched > 0,
        Which::Interactive => s.interactive,
        Which::InteractiveTouched => s.interactive && s.touched > 0,
        Which::Untouched => s.touched == 0,
        Which::InteractiveUntouched => s.interactive && s.touched == 0,
    }
}

fn count(nodes: &Vec<NodeStat>, w: Which) -> (r: usize)
    ensures
        r == count_of(stat_views(nodes@), w),
        r <= nodes@.len(),
{
    let ghost all = stat_views(nodes@);
    let mut n: usize = 0;
    let mut i: usize = 0;
    assert(all.take(0) =~= seq![]);
    while i < nodes.len()
        invariant
            i <= nodes@.len(),
            n <= i,
            all == stat_views(nodes@),
            n == count_of(all.take(i as int), w),
        decreases nodes@.len() - i,
    {
        proof {
            assert(all.take(i + 1).drop_last() =~= all.take(i as int));
            assert(all.take(i + 1).last() == nodes@[i as int]@);
        }
        if is_of(&w, &nodes[i]) {
            n = n + 1;
        }
        i = i + 1;
    }
    assert(all.take(i as int) =~= all);
    n
}

fn count_keys(keys: &Vec<String>, nodes: &Vec<NodeStat>, w: Which) -> (r: usize)
    ensures
        r == keys_of_kind(texts(keys@), stat_views(nodes@), w),
{
    let ghost all = texts(keys@);
    let ghost stats = stat_views(nodes@);
    let mut n: usize = 0;
    let mut k: usize = 0;
    assert(all.take(0) =~= seq![]);
    while k < keys.len()
        invariant
            k <= keys@.len(),
            n <= k,
            all == texts(keys@),
            stats == stat_views(nodes@),
            n == keys_of_kind(all.take(k as int), stats, w),
        decreases keys@.len() - k,
    {
        proof {
            assert(all.take(k + 1).drop_last() =~= all.take(k as int));
            assert(all.take(k + 1).last() == keys@[k as int]@);
        }
        let i = crate::strategy::explorer::find_stat(nodes, keys[k].as_str());
        if i < nodes.len() && is_of(&w, &nodes[i]) {
            n = n + 1;
        }
        k = k + 1;
    }
    assert(all.take(k as int) =~= all);
    n
}

fn cover_activity(a: &ActivityRecord, nodes: &Vec<NodeStat>) -> (r: ActivityCoverage)
    ensures
        r@ == activity_cover(a@, stat_views(nodes@)),
{
    let seen: usize = a.nodes.len();
    let touched = count_keys(&a.nodes, nodes, Which::Touched);
    let i_seen = count_keys(&a.nodes, nodes, Which::Interactive);
    let i_touched = count_keys(&a.nodes, nodes, Which::InteractiveTouched);
    assert(texts(a.nodes@).len() == a.nodes@.len());
    ActivityCoverage {
        name: a.name.clone(),
        visits: a.visits,
        first_step: a.first_step,
        nodes_seen: seen,
        nodes_touched: touched,
        coverage: ratio(touched, seen),
        interactive_seen: i_seen,
        interactive_touched: i_touched,
        interactive_coverage: ratio(i_touched, i_seen),
    }
}

fn cover_activities(acts: &Vec<ActivityRecord>, nodes: &Vec<NodeStat>, package: &String) -> (r: Vec<
    ActivityCoverage,
>)
    ensures
        activity_coverage_views(r@) == activities_cover(
            crate::strategy::record::activity_views(acts@),
            stat_views(nodes@),
            package@,
        ),
{
    let ghost all = crate::strategy::record::activity_views(acts@);
    let ghost stats = stat_views(nodes@);
    let mut out: Vec<ActivityCoverage> = Vec::new();
    let mut k: usize = 0;
    assert(all.take(0) =~= seq![]);
    assert(activity_coverage_views(out@) =~= seq![]);
    while k < acts.len()
        invariant
            k <= acts@.len(),
            all == crate::strategy::record::activity_views(acts@),
            stats == stat_views(nodes@),
            activity_coverage_views(out@) == activities_cover(
                all.take(k as int),
                stats,
                package@,
            ),
        decreases acts@.len() - k,
    {
        proof {
            assert(all.take(k + 1).drop_last() =~= all.take(k as int));
            assert(all.take(k + 1).last() == acts@[k as int]@);
        }
        if is_empty(package) || starts_with(acts[k].name.as_str(), package.as_str()) {
            let c = cover_activity(&acts[k], nodes);
            let ghost was = activity_coverage_views(out@);
            let ghost view = c@;
            let mut i: usize = 0;
            while i < out.len() && out[i].nodes_seen >= c.nodes_seen
                invariant
                    i <= out@.len(),
                    was == activity_coverage_views(out@),
                    view == c@,
                    place_by_seen(was, view.nodes_seen, i as int) == place_by_seen(
                        was,
                        view.nodes_seen,
                        0,
                    ),
                decreases out@.len() - i,
            {
                assert(was[i as int].nodes_seen == out@[i as int].nodes_seen);
                i = i + 1;
            }
            assert(i < out@.len() ==> was[i as int].nodes_seen == out@[i as int].nodes_seen);
            out.insert(i, c);
            assert(activity_coverage_views(out@) =~= was.insert(i as int, view));
        }
        k = k + 1;
    }
    assert(all.take(k as int) =~= all);
    out
}

fn find_missed(nodes: &Vec<NodeStat>) -> (r: Vec<NodeStat>)
    ensures
        stat_views(r@) == missed(stat_views(nodes@)),
{
    let ghost all = stat_views(nodes@);
    let mut out: Vec<NodeStat> = Vec::new();
    let mut k: usize = 0;
    assert(all.take(0) =~= seq![]);
    assert(stat_views(out@) =~= seq![]);
    while k < nodes.len()
        invariant
            k <= nodes@.len(),
            all == stat_views(nodes@),
            stat_views(out@) == missed(all.take(k as int)),
        decreases nodes@.len() - k,
    {
        proof {
            assert(all.take(k + 1).drop_last() =~= all.take(k as int));
            assert(all.take(k + 1).last() == nodes@[k as int]@);
        }
        if nodes[k].touched == 0 {
            let x = nodes[k].clone();
            let ghost was = stat_views(out@);
            let ghost view = x@;
            let mut i: usize = 0;
            while i < out.len() && !((x.interactive && !out[i].interactive) || (x.interactive
                == out[i].interactive && x.seen > out[i].seen))
                invariant
                    i <= out@.len(),
                    was == stat_views(out@),
                    view == x@,
                    place_missed(was, view, i as int) == place_missed(was, view, 0),
                decreases out@.len() - i,
            {
                assert(was[i as int] == out@[i as int]@);
                i = i + 1;
            }
            assert(i < out@.len() ==> was[i as int] == out@[i as int]@);
            out.insert(i, x);
            assert(stat_views(out@) =~= was.insert(i as int, view));
        }
        k = k + 1;
    }
    assert(all.take(k as int) =~= all);
    out
}

impl Explorer {
    /// The coverage that was reached.
    pub fn coverage(&self) -> (r: CoverageReport)
        ensures
            r@ == coverage_of(self@),
    {
        let nodes = self.known_nodes();
        let activities = cover_activities(self.known_activities(), nodes, self.package());
        let total: usize = nodes.len();
        let touched = count(nodes, Which::Touched);
        let i_total = count(nodes, Which::Interactive);
        let i_touched = count(nodes, Which::InteractiveTouched);
        let missing = find_missed(nodes);
        let untouched_interactive = count(nodes, Which::InteractiveUntouched);
        assert(stat_views(nodes@).len() == nodes@.len());
        assert(activity_coverage_views(activities@).len() == activities@.len());
        let mut sample: Vec<NodeStat> = Vec::new();
        let ghost whole = stat_views(missing@);
        let mut i: usize = 0;
        while i < missing.len() && i < 50
            invariant
                i <= missing@.len(),
                i <= 50,
                sample@.len() == i,
                forall|j: int| 0 <= j < i ==> #[trigger] sample@[j]@ == missing@[j]@,
            decreases missing@.len() - i,
        {
            sample.push(missing[i].clone());
            i = i + 1;
        }
        assert(stat_views(sample@) =~= sample_of(whole));
        CoverageReport {
            activity_count: activities.len(),
            state_count: self.state_count(),
            total_nodes: total,
            touched_nodes: touched,
            node_coverage: ratio(touched, total),
            interactive_nodes: i_total,
            interactive_touched: i_touched,
            interactive_coverage: ratio(i_touched, i_total),
            activities,
            untouched_interactive,
            untouched_sample: sample,
        }
    }
}

} // verus!
