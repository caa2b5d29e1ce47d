//! What coverage measures, in terms of the widgets that were seen and used.

use vstd::prelude::*;

use crate::model::node::key_of;
use crate::model::node::visible_of;
use crate::model::node::HierarchyView;
use crate::model::node::NodeView;
use crate::quotient::lemma_part_of_whole;
use crate::quotient::near_quotient;
use crate::strategy::candidate::foreign;
use crate::strategy::coverage::activities_cover;
use crate::strategy::coverage::activity_cover;
use crate::strategy::coverage::count_of;
use crate::strategy::coverage::coverage_of;
use crate::strategy::coverage::fits;
use crate::strategy::coverage::keys_of_kind;
use crate::strategy::coverage::missed;
use crate::strategy::coverage::place_by_seen;
use crate::strategy::coverage::place_missed;
use crate::strategy::coverage::ActivityCoverageView;
use crate::strategy::coverage::Which;
use crate::strategy::explorer::observed;
use crate::strategy::explorer::registered_all;
use crate::strategy::explorer::touched_once;
use crate::strategy::explorer::ExplorerView;
use crate::strategy::law::lemma_coverage_bounded;
use crate::strategy::record::lemma_stat_at;
use crate::strategy::record::registered;
use crate::strategy::record::stat_at;
use crate::strategy::record::touched_of;
use crate::strategy::record::ActivityView;
use crate::strategy::record::StatView;
use crate::text::search::begins;
use crate::text::search::has;

verus! {

/// The bits are those of a part of a whole: zero for nothing, one for all of it, and else as near
/// to the quotient as a number of single precision can be.
pub open spec fn share_of(bits: int, part: int, whole: int) -> bool {
    &&& bits == 0 <==> part == 0
    &&& bits == 0x3f80_0000 <==> part == whole && whole > 0
    &&& bits <= 0x3f80_0000
    &&& part > 0 ==> near_quotient(bits, part, whole)
}

proof fn lemma_filter_counts(nodes: Seq<StatView>, w: Which)
    ensures
        count_of(nodes, w) == nodes.filter(|s: StatView| fits(w, s)).len(),
    decreases nodes.len(),
{
    reveal(Seq::filter);
    if nodes.len() > 0 {
        lemma_filter_counts(nodes.drop_last(), w);
    }
}

proof fn lemma_filter_same(nodes: Seq<StatView>, p: spec_fn(StatView) -> bool, q: spec_fn(
    StatView,
) -> bool)
    requires
        forall|s: StatView| #[trigger] p(s) == q(s),
    ensures
        nodes.filter(p) == nodes.filter(q),
    decreases nodes.len(),
{
    reveal(Seq::filter);
    if nodes.len() > 0 {
        lemma_filter_same(nodes.drop_last(), p, q);
        assert(p(nodes.last()) == q(nodes.last()));
    }
}

/// What is counted: all widgets that were seen; those of them that were used; those that count, and
/// of these the used ones and the others.
pub proof fn lemma_what_is_counted(v: ExplorerView)
    ensures
        ({
            let c = coverage_of(v);
            &&& c.state_count == v.states.len()
            &&& c.total_nodes == v.nodes.len()
            &&& c.touched_nodes == v.nodes.filter(|s: StatView| s.touched > 0).len()
            &&& c.interactive_nodes == v.nodes.filter(|s: StatView| s.interactive).len()
            &&& c.interactive_touched == v.nodes.filter(
                |s: StatView| s.interactive && s.touched > 0,
            ).len()
            &&& c.untouched_interactive == v.nodes.filter(
                |s: StatView| s.interactive && s.touched == 0,
            ).len()
        }),
{
    let n = v.nodes;
    lemma_filter_counts(n, Which::Touched);
    lemma_filter_counts(n, Which::Interactive);
    lemma_filter_counts(n, Which::InteractiveTouched);
    lemma_filter_counts(n, Which::InteractiveUntouched);
    lemma_filter_same(n, |s: StatView| fits(Which::Touched, s), |s: StatView| s.touched > 0);
    lemma_filter_same(n, |s: StatView| fits(Which::Interactive, s), |s: StatView| s.interactive);
    lemma_filter_same(
        n,
        |s: StatView| fits(Which::InteractiveTouched, s),
        |s: StatView| s.interactive && s.touched > 0,
    );
    lemma_filter_same(
        n,
        |s: StatView| fits(Which::InteractiveUntouched, s),
        |s: StatView| s.interactive && s.touched == 0,
    );
}

/// The reported shares are parts of their own wholes: of the widgets that count those that were
/// used, and of all widgets those that were used. All is covered if and only if nothing that counts
/// is missing.
pub proof fn lemma_shares_are_of_their_wholes(v: ExplorerView)
    requires
        v.nodes.len() < 0x80_0000,
    ensures
        ({
            let c = coverage_of(v);
            &&& c.interactive_nodes > 0 ==> share_of(
                c.interactive_coverage,
                c.interactive_touched,
                c.interactive_nodes,
            )
            &&& c.interactive_nodes == 0 ==> c.interactive_coverage == 0
            &&& c.total_nodes > 0 ==> share_of(c.node_coverage, c.touched_nodes, c.total_nodes)
            &&& c.total_nodes == 0 ==> c.node_coverage == 0
            &&& c.interactive_coverage == 0x3f80_0000 <==> c.interactive_nodes > 0
                && c.untouched_interactive == 0
        }),
{
    lemma_coverage_bounded(v);
    let c = coverage_of(v);
    if c.interactive_nodes > 0 {
        lemma_part_of_whole(c.interactive_touched, c.interactive_nodes);
    }
    if c.total_nodes > 0 {
        lemma_part_of_whole(c.touched_nodes, c.total_nodes);
    }
}

/// The widget counts: it answers to some action, or it is a leaf with content.
pub open spec fn is_target(n: NodeView) -> bool {
    ||| n.clickable
    ||| n.long_clickable
    ||| n.scrollable
    ||| n.checkable
    ||| has(n.class, "EditText"@)
    ||| has(n.class, "AutoCompleteTextView"@)
    ||| n.children.len() == 0 && (n.text.len() > 0 || n.content_desc.len() > 0)
}

/// The widget with the key is known, and counts or not as given.
pub open spec fn known_as(nodes: Seq<StatView>, key: Seq<char>, counts: bool) -> bool {
    exists|i: int|
        0 <= i < nodes.len() && (#[trigger] nodes[i]).key == key && (counts
            ==> nodes[i].interactive)
}

proof fn lemma_registered(nodes: Seq<StatView>, n: NodeView, activity: Seq<char>)
    ensures
        ({
            let r = registered(nodes, n, activity);
            &&& nodes.len() <= r.len() <= nodes.len() + 1
            &&& forall|i: int|
                0 <= i < nodes.len() ==> (#[trigger] r[i]).key == nodes[i].key && r[i].touched
                    == nodes[i].touched && (nodes[i].interactive ==> r[i].interactive) && (
                r[i].interactive ==> nodes[i].interactive || is_target(n))
            &&& r.len() > nodes.len() ==> r[nodes.len() as int].key == key_of(n)
                && r[nodes.len() as int].interactive == is_target(n) && r[nodes.len() as int].touched
                == 0
            &&& r.len() > nodes.len() <==> forall|i: int|
                0 <= i < nodes.len() ==> (#[trigger] nodes[i]).key != key_of(n)
            &&& known_as(r, key_of(n), is_target(n))
        }),
{
    lemma_stat_at(nodes, key_of(n));
    let k = stat_at(nodes, key_of(n));
    let r = registered(nodes, n, activity);
    assert(r[k].key == key_of(n));
}

/// Seeing a widget makes it known, once, and it counts if it is a target. A widget that does not
/// count leaves the number of those that do.
pub proof fn lemma_seeing_a_widget(nodes: Seq<StatView>, n: NodeView, activity: Seq<char>)
    ensures
        ({
            let r = registered(nodes, n, activity);
            let known = exists|i: int| 0 <= i < nodes.len() && (#[trigger] nodes[i]).key == key_of(n);
            &&& known_as(r, key_of(n), is_target(n))
            &&& r.len() == nodes.len() + if known {
                0int
            } else {
                1
            }
            &&& !is_target(n) ==> r.filter(|s: StatView| s.interactive).len() == nodes.filter(
                |s: StatView| s.interactive,
            ).len()
            &&& !known && is_target(n) ==> r.filter(|s: StatView| s.interactive).len()
                == nodes.filter(|s: StatView| s.interactive).len() + 1
            &&& r.filter(|s: StatView| s.touched > 0).len() == nodes.filter(
                |s: StatView| s.touched > 0,
            ).len()
        }),
{
    lemma_registered(nodes, n, activity);
    let r = registered(nodes, n, activity);
    let f = |s: StatView| s.interactive;
    let g = |s: StatView| s.touched > 0;
    if r.len() == nodes.len() {
        if !is_target(n) {
            lemma_filter_len_same(nodes, r, f);
        }
        lemma_filter_len_same(nodes, r, g);
    } else {
        let d = r.drop_last();
        assert(d.len() == nodes.len());
        lemma_stat_at(nodes, key_of(n));
        assert(d =~= nodes);
        reveal(Seq::filter);
        assert(r.last() == r[nodes.len() as int]);
    }
}

/// What is kept of a widget: how it was first known stays; each look counts once; where it was first
/// seen is kept as soon as that is known; and looks never count as uses. The other widgets stay.
pub proof fn lemma_looks_are_counted(
    nodes: Seq<StatView>,
    n: NodeView,
    activity: Seq<char>,
    i: int,
)
    requires
        0 <= i < nodes.len(),
        nodes[i].seen < u32::MAX,
    ensures
        ({
            let r = registered(nodes, n, activity);
            let first = nodes[i].key == key_of(n) && forall|j: int|
                0 <= j < i ==> (#[trigger] nodes[j]).key != key_of(n);
            &&& r[i].key == nodes[i].key && r[i].label == nodes[i].label && r[i].class
                == nodes[i].class && r[i].resource_id == nodes[i].resource_id && r[i].touched
                == nodes[i].touched
            &&& first ==> r[i].seen == nodes[i].seen + 1
            &&& first ==> r[i].interactive == (nodes[i].interactive || is_target(n))
            &&& first && nodes[i].activity.len() == 0 ==> r[i].activity == activity
            &&& nodes[i].activity.len() > 0 ==> r[i].activity == nodes[i].activity
            &&& !first ==> r[i] == nodes[i]
        }),
{
    let k = stat_at(nodes, key_of(n));
    lemma_stat_at(nodes, key_of(n));
    let first = nodes[i].key == key_of(n) && forall|j: int|
        0 <= j < i ==> (#[trigger] nodes[j]).key != key_of(n);
    if first {
        if k < i {
            assert(nodes[k].key == key_of(n));
        }
        assert(k == i);
    } else if k == i {
        assert(nodes[i].key == key_of(n));
    }
}

/// A widget that is seen for the first time is known by its name, its short class, its id and where
/// it was seen; it was seen once and not used.
pub proof fn lemma_first_look_at_a_widget(nodes: Seq<StatView>, n: NodeView, activity: Seq<char>)
    requires
        forall|j: int| 0 <= j < nodes.len() ==> (#[trigger] nodes[j]).key != key_of(n),
    ensures
        ({
            let x = registered(nodes, n, activity).last();
            &&& registered(nodes, n, activity).len() == nodes.len() + 1
            &&& x.key == key_of(n) && x.resource_id == n.resource_id && x.activity == activity
            &&& x.class == crate::text::split::behind_last(n.class, '.')
            &&& x.label == crate::model::node::display_of(n)
            &&& x.seen == 1 && x.touched == 0
            &&& x.interactive == is_target(n)
        }),
{
    lemma_stat_at(nodes, key_of(n));
    let k = stat_at(nodes, key_of(n));
    if k < nodes.len() {
        assert(nodes[k].key == key_of(n));
    }
}

/// The kinds of widgets that are counted: those that were used and those that were not make up all
/// of them, and so they do among those that can be used.
pub proof fn lemma_kinds_of_widgets(s: StatView)
    ensures
        fits(Which::Touched, s) <==> s.touched > 0,
        fits(Which::Untouched, s) <==> !fits(Which::Touched, s),
        fits(Which::Interactive, s) <==> s.interactive,
        fits(Which::InteractiveTouched, s) <==> fits(Which::Interactive, s) && fits(
            Which::Touched,
            s,
        ),
        fits(Which::InteractiveUntouched, s) <==> fits(Which::Interactive, s) && fits(
            Which::Untouched,
            s,
        ),
{
}

proof fn lemma_filter_len_same(a: Seq<StatView>, b: Seq<StatView>, p: spec_fn(StatView) -> bool)
    requires
        a.len() == b.len(),
        forall|i: int| 0 <= i < a.len() ==> p(#[trigger] a[i]) == p(b[i]),
    ensures
        a.filter(p).len() == b.filter(p).len(),
    decreases a.len(),
{
    reveal(Seq::filter);
    if a.len() > 0 {
        let x = a.drop_last();
        let y = b.drop_last();
        assert forall|i: int| 0 <= i < x.len() implies p(#[trigger] x[i]) == p(y[i]) by {
            assert(p(a[i]) == p(b[i]));
        }
        lemma_filter_len_same(x, y, p);
        assert(p(a[a.len() - 1]) == p(b[a.len() - 1]));
    }
}

proof fn lemma_all_seen(
    nodes: Seq<StatView>,
    vis: Seq<NodeView>,
    package: Seq<char>,
    activity: Seq<char>,
)
    ensures
        ({
            let r = registered_all(nodes, vis, package, activity);
            &&& nodes.len() <= r.len()
            &&& forall|i: int|
                0 <= i < nodes.len() ==> (#[trigger] r[i]).key == nodes[i].key && r[i].touched
                    == nodes[i].touched && (nodes[i].interactive ==> r[i].interactive)
            &&& forall|k: int|
                0 <= k < vis.len() && !foreign(package, #[trigger] vis[k]) ==> known_as(
                    r,
                    key_of(vis[k]),
                    is_target(vis[k]),
                )
            &&& (forall|k: int|
                0 <= k < vis.len() ==> foreign(package, #[trigger] vis[k]) || !is_target(vis[k]))
                ==> r.filter(|s: StatView| s.interactive).len() == nodes.filter(
                |s: StatView| s.interactive,
            ).len()
            &&& forall|i: int|
                nodes.len() <= i < r.len() ==> (#[trigger] r[i]).touched == 0 && exists|k: int|
                    0 <= k < vis.len() && !foreign(package, #[trigger] vis[k]) && key_of(vis[k])
                        == r[i].key
        }),
    decreases vis.len(),
{
    if vis.len() > 0 {
        let d = vis.drop_last();
        lemma_all_seen(nodes, d, package, activity);
        let q = registered_all(nodes, d, package, activity);
        let r = registered_all(nodes, vis, package, activity);
        let n = vis.last();
        lemma_registered(q, n, activity);
        lemma_seeing_a_widget(q, n, activity);
        assert(vis[vis.len() - 1] == n);
        assert forall|k: int|
            0 <= k < vis.len() && !foreign(package, #[trigger] vis[k]) implies known_as(
            r,
            key_of(vis[k]),
            is_target(vis[k]),
        ) by {
            if k < d.len() {
                assert(d[k] == vis[k]);
                assert(known_as(q, key_of(d[k]), is_target(d[k])));
                let i = choose|i: int|
                    0 <= i < q.len() && (#[trigger] q[i]).key == key_of(d[k]) && (is_target(d[k])
                        ==> q[i].interactive);
                assert(r[i].key == key_of(d[k]) && (is_target(d[k]) ==> r[i].interactive));
            }
        }
        assert forall|i: int| 0 <= i < nodes.len() implies (#[trigger] r[i]).key == nodes[i].key
            && r[i].touched == nodes[i].touched && (nodes[i].interactive ==> r[i].interactive) by {
            assert(q[i].key == nodes[i].key);
        }
        if forall|k: int|
            0 <= k < vis.len() ==> foreign(package, #[trigger] vis[k]) || !is_target(vis[k]) {
            assert forall|k: int| 0 <= k < d.len() implies foreign(package, #[trigger] d[k])
                || !is_target(d[k]) by {
                assert(d[k] == vis[k]);
            }
            assert(foreign(package, vis[vis.len() - 1]) || !is_target(vis[vis.len() - 1]));
        }
        assert forall|i: int| nodes.len() <= i < r.len() implies (#[trigger] r[i]).touched == 0
            && exists|k: int|
            0 <= k < vis.len() && !foreign(package, #[trigger] vis[k]) && key_of(vis[k])
                == r[i].key by {
            if i < q.len() {
                assert(q[i].touched == 0);
                let k = choose|k: int|
                    0 <= k < d.len() && !foreign(package, #[trigger] d[k]) && key_of(d[k])
                        == q[i].key;
                assert(vis[k] == d[k]);
                assert(key_of(vis[k]) == r[i].key);
            } else {
                assert(key_of(vis[vis.len() - 1]) == r[i].key);
            }
        }
    }
}

/// A look makes every visible widget of the app under test known, and those that are targets count;
/// it makes nothing else known, and nothing used. A screen without targets of the app leaves the
/// number of those that count.
pub proof fn lemma_looking_makes_known(
    v: ExplorerView,
    h: HierarchyView,
    activity: Seq<char>,
    step: usize,
)
    ensures
        ({
            let vis = visible_of(h);
            let w = observed(v, h, activity, step);
            let package = v.cfg.package;
            &&& forall|k: int|
                0 <= k < vis.len() && (package.len() == 0 || (#[trigger] vis[k]).package.len() == 0
                    || vis[k].package == package) ==> known_as(
                    w.nodes,
                    key_of(vis[k]),
                    is_target(vis[k]),
                )
            &&& forall|i: int|
                v.nodes.len() <= i < w.nodes.len() ==> (#[trigger] w.nodes[i]).touched == 0
                    && exists|k: int|
                    0 <= k < vis.len() && (package.len() == 0 || (#[trigger] vis[k]).package.len()
                        == 0 || vis[k].package == package) && key_of(vis[k]) == w.nodes[i].key
            &&& forall|i: int|
                0 <= i < v.nodes.len() ==> (#[trigger] w.nodes[i]).key == v.nodes[i].key
                    && w.nodes[i].touched == v.nodes[i].touched
            &&& (forall|k: int|
                0 <= k < vis.len() ==> !is_target(#[trigger] vis[k]) || (package.len() > 0
                    && vis[k].package.len() > 0 && vis[k].package != package)) ==> coverage_of(
                w,
            ).interactive_nodes == coverage_of(v).interactive_nodes
        }),
{
    let vis = visible_of(h);
    let w = observed(v, h, activity, step);
    let package = v.cfg.package;
    lemma_all_seen(v.nodes, vis, package, activity);
    lemma_what_is_counted(v);
    lemma_what_is_counted(w);
    assert forall|k: int|
        0 <= k < vis.len() && (package.len() == 0 || (#[trigger] vis[k]).package.len() == 0
            || vis[k].package == package) implies known_as(
        w.nodes,
        key_of(vis[k]),
        is_target(vis[k]),
    ) by {
        assert(!foreign(package, vis[k]));
    }
    assert forall|i: int| v.nodes.len() <= i < w.nodes.len() implies (#[trigger] w.nodes[i]).touched
        == 0 && exists|k: int|
        0 <= k < vis.len() && (package.len() == 0 || (#[trigger] vis[k]).package.len() == 0
            || vis[k].package == package) && key_of(vis[k]) == w.nodes[i].key by {
        let k = choose|k: int|
            0 <= k < vis.len() && !foreign(package, #[trigger] vis[k]) && key_of(vis[k])
                == w.nodes[i].key;
        assert(key_of(vis[k]) == w.nodes[i].key);
    }
    if forall|k: int|
        0 <= k < vis.len() ==> !is_target(#[trigger] vis[k]) || (package.len() > 0
            && vis[k].package.len() > 0 && vis[k].package != package) {
        assert forall|k: int| 0 <= k < vis.len() implies foreign(package, #[trigger] vis[k])
            || !is_target(vis[k]) by {}
    }
}

/// Doing something with a widget is counted for that widget and no other, and keeps all else that
/// is known.
pub proof fn lemma_using_a_widget(v: ExplorerView, key: Seq<char>, other: Seq<char>)
    requires
        touched_of(v.nodes, key) < u32::MAX,
    ensures
        ({
            let w = touched_once(v, key);
            let known = exists|i: int| 0 <= i < v.nodes.len() && (#[trigger] v.nodes[i]).key == key;
            &&& known ==> touched_of(w.nodes, key) == touched_of(v.nodes, key) + 1
            &&& !known ==> w == v
            &&& other != key ==> touched_of(w.nodes, other) == touched_of(v.nodes, other)
            &&& w.nodes.len() == v.nodes.len()
            &&& forall|i: int|
                0 <= i < v.nodes.len() ==> (#[trigger] w.nodes[i]).key == v.nodes[i].key
                    && w.nodes[i].interactive == v.nodes[i].interactive && w.nodes[i].seen
                    == v.nodes[i].seen
            &&& w.states == v.states && w.activities == v.activities && w.tried == v.tried
                && w.transitions == v.transitions && w.last_state == v.last_state && w.same_streak
                == v.same_streak
        }),
{
    let w = touched_once(v, key);
    lemma_stat_at(v.nodes, key);
    lemma_stat_at(w.nodes, key);
    lemma_stat_at(v.nodes, other);
    lemma_stat_at(w.nodes, other);
    let i = stat_at(v.nodes, key);
    let j = stat_at(w.nodes, key);
    if i < v.nodes.len() {
        assert(w.nodes[i].key == key);
        if j < i {
            assert(v.nodes[j].key == w.nodes[j].key);
        }
        let a = stat_at(v.nodes, other);
        let b = stat_at(w.nodes, other);
        if a < b && a < v.nodes.len() {
            assert(w.nodes[a].key == v.nodes[a].key);
        }
        if b < a && b < w.nodes.len() {
            assert(w.nodes[b].key == v.nodes[b].key);
        }
    }
}

/// A used widget that counts makes its share grow: where it was the last one missing, all is
/// covered.
pub proof fn lemma_last_one_completes(v: ExplorerView, key: Seq<char>, i: int)
    requires
        v.nodes.len() < 0x80_0000,
        0 <= i < v.nodes.len(),
        v.nodes[i].key == key,
        v.nodes[i].interactive,
        v.nodes[i].touched == 0,
        forall|j: int|
            0 <= j < v.nodes.len() && j != i ==> (#[trigger] v.nodes[j]).key != key && (
            v.nodes[j].interactive ==> v.nodes[j].touched > 0),
    ensures
        coverage_of(v).interactive_coverage != 0x3f80_0000,
        coverage_of(touched_once(v, key)).interactive_coverage == 0x3f80_0000,
{
    lemma_stat_at(v.nodes, key);
    let w = touched_once(v, key);
    assert(stat_at(v.nodes, key) == i);
    lemma_shares_are_of_their_wholes(v);
    lemma_shares_are_of_their_wholes(w);
    lemma_none_missing(w.nodes);
    lemma_some_missing(v.nodes, i);
    lemma_coverage_bounded(v);
    lemma_coverage_bounded(w);
    lemma_some_counts(w.nodes, i);
}

proof fn lemma_none_missing(nodes: Seq<StatView>)
    requires
        forall|j: int|
            0 <= j < nodes.len() && (#[trigger] nodes[j]).interactive ==> nodes[j].touched > 0,
    ensures
        count_of(nodes, Which::InteractiveUntouched) == 0,
    decreases nodes.len(),
{
    if nodes.len() > 0 {
        let d = nodes.drop_last();
        assert forall|j: int| 0 <= j < d.len() && (#[trigger] d[j]).interactive implies d[j].touched
            > 0 by {
            assert(d[j] == nodes[j]);
        }
        lemma_none_missing(d);
        assert(nodes[nodes.len() - 1].interactive ==> nodes[nodes.len() - 1].touched > 0);
    }
}

proof fn lemma_some_missing(nodes: Seq<StatView>, i: int)
    requires
        0 <= i < nodes.len(),
        nodes[i].interactive,
        nodes[i].touched == 0,
    ensures
        count_of(nodes, Which::InteractiveUntouched) > 0,
    decreases nodes.len(),
{
    let d = nodes.drop_last();
    lemma_not_negative(d, Which::InteractiveUntouched);
    if i < d.len() {
        assert(d[i] == nodes[i]);
        lemma_some_missing(d, i);
    }
}

proof fn lemma_some_counts(nodes: Seq<StatView>, i: int)
    requires
        0 <= i < nodes.len(),
        nodes[i].interactive,
    ensures
        count_of(nodes, Which::Interactive) > 0,
    decreases nodes.len(),
{
    let d = nodes.drop_last();
    lemma_not_negative(d, Which::Interactive);
    if i < d.len() {
        assert(d[i] == nodes[i]);
        lemma_some_counts(d, i);
    }
}

proof fn lemma_not_negative(nodes: Seq<StatView>, w: Which)
    ensures
        count_of(nodes, w) >= 0,
    decreases nodes.len(),
{
    if nodes.len() > 0 {
        lemma_not_negative(nodes.drop_last(), w);
    }
}

// ---------------------------------------------------------------- activities

proof fn lemma_keys_bounded(keys: Seq<Seq<char>>, nodes: Seq<StatView>)
    ensures
        0 <= keys_of_kind(keys, nodes, Which::Touched) <= keys.len(),
        0 <= keys_of_kind(keys, nodes, Which::InteractiveTouched) <= keys_of_kind(
            keys,
            nodes,
            Which::Interactive,
        ) <= keys.len(),
        keys_of_kind(keys, nodes, Which::Touched) == keys.filter(
            |k: Seq<char>| touched_of(nodes, k) > 0,
        ).len(),
    decreases keys.len(),
{
    reveal(Seq::filter);
    if keys.len() > 0 {
        lemma_keys_bounded(keys.drop_last(), nodes);
        lemma_stat_at(nodes, keys.last());
    }
}

/// The coverage of an activity: as many widgets as were seen in it, those of them that were used,
/// and the shares of the one in the other.
pub proof fn lemma_activity_share(a: ActivityView, nodes: Seq<StatView>)
    requires
        a.nodes.len() < 0x80_0000,
    ensures
        ({
            let c = activity_cover(a, nodes);
            &&& c.name == a.name && c.visits == a.visits && c.first_step == a.first_step
            &&& c.nodes_seen == a.nodes.len()
            &&& c.nodes_touched == a.nodes.filter(|k: Seq<char>| touched_of(nodes, k) > 0).len()
            &&& 0 <= c.interactive_touched <= c.interactive_seen <= c.nodes_seen
            &&& c.nodes_seen > 0 ==> share_of(c.coverage, c.nodes_touched, c.nodes_seen)
            &&& c.nodes_seen == 0 ==> c.coverage == 0
            &&& c.interactive_seen > 0 ==> share_of(
                c.interactive_coverage,
                c.interactive_touched,
                c.interactive_seen,
            )
            &&& c.interactive_seen == 0 ==> c.interactive_coverage == 0
        }),
{
    lemma_keys_bounded(a.nodes, nodes);
    let c = activity_cover(a, nodes);
    if c.nodes_seen > 0 {
        lemma_part_of_whole(c.nodes_touched, c.nodes_seen);
    }
    if c.interactive_seen > 0 {
        lemma_part_of_whole(c.interactive_touched, c.interactive_seen);
    }
}

proof fn lemma_place_by_seen(s: Seq<ActivityCoverageView>, n: int, i: int)
    requires
        0 <= i <= s.len(),
    ensures
        i <= place_by_seen(s, n, i) <= s.len(),
        forall|j: int| i <= j < place_by_seen(s, n, i) ==> (#[trigger] s[j]).nodes_seen >= n,
        place_by_seen(s, n, i) < s.len() ==> s[place_by_seen(s, n, i)].nodes_seen < n,
    decreases s.len() - i,
{
    if i < s.len() && s[i].nodes_seen >= n {
        lemma_place_by_seen(s, n, i + 1);
    }
}

/// The activity belongs to the app under test; any does where no app is given.
pub open spec fn own_activity(a: ActivityView, package: Seq<char>) -> bool {
    package.len() == 0 || begins(a.name, package)
}

proof fn lemma_activities_len(acts: Seq<ActivityView>, nodes: Seq<StatView>, package: Seq<char>)
    ensures
        activities_cover(acts, nodes, package).len() == acts.filter(
            |a: ActivityView| own_activity(a, package),
        ).len(),
    decreases acts.len(),
{
    reveal(Seq::filter);
    if acts.len() > 0 {
        lemma_activities_len(acts.drop_last(), nodes, package);
        let q = activities_cover(acts.drop_last(), nodes, package);
        let c = activity_cover(acts.last(), nodes);
        lemma_place_by_seen(q, c.nodes_seen, 0);
    }
}

proof fn lemma_insert_sorted(q: Seq<ActivityCoverageView>, c: ActivityCoverageView)
    requires
        forall|i: int, j: int|
            0 <= i <= j < q.len() ==> (#[trigger] q[i]).nodes_seen >= (#[trigger] q[j]).nodes_seen,
    ensures
        ({
            let r = q.insert(place_by_seen(q, c.nodes_seen, 0), c);
            forall|i: int, j: int|
                0 <= i <= j < r.len() ==> (#[trigger] r[i]).nodes_seen >= (
                #[trigger] r[j]).nodes_seen
        }),
{
    let p = place_by_seen(q, c.nodes_seen, 0);
    lemma_place_by_seen(q, c.nodes_seen, 0);
    let r = q.insert(p, c);
    assert forall|i: int, j: int| 0 <= i <= j < r.len() implies (#[trigger] r[i]).nodes_seen >= (
    #[trigger] r[j]).nodes_seen by {
        let x = if i < p {
            q[i]
        } else if i == p {
            c
        } else {
            q[i - 1]
        };
        let y = if j < p {
            q[j]
        } else if j == p {
            c
        } else {
            q[j - 1]
        };
        assert(r[i] == x && r[j] == y);
        if i == p && j > p {
            assert(q[p].nodes_seen >= q[j - 1].nodes_seen);
        }
    }
}

proof fn lemma_activities_sorted(acts: Seq<ActivityView>, nodes: Seq<StatView>, package: Seq<char>)
    ensures
        ({
            let r = activities_cover(acts, nodes, package);
            forall|i: int, j: int|
                0 <= i <= j < r.len() ==> (#[trigger] r[i]).nodes_seen >= (
                #[trigger] r[j]).nodes_seen
        }),
    decreases acts.len(),
{
    if acts.len() > 0 {
        lemma_activities_sorted(acts.drop_last(), nodes, package);
        let q = activities_cover(acts.drop_last(), nodes, package);
        lemma_insert_sorted(q, activity_cover(acts.last(), nodes));
    }
}

proof fn lemma_insert_contains(
    q: Seq<ActivityCoverageView>,
    p: int,
    c: ActivityCoverageView,
    x: ActivityCoverageView,
)
    requires
        0 <= p <= q.len(),
    ensures
        q.insert(p, c).contains(x) <==> q.contains(x) || x == c,
{
    let r = q.insert(p, c);
    assert(r[p] == c);
    if q.contains(x) {
        let i = choose|i: int| 0 <= i < q.len() && q[i] == x;
        if i < p {
            assert(r[i] == x);
        } else {
            assert(r[i + 1] == x);
        }
    }
    if r.contains(x) {
        let i = choose|i: int| 0 <= i < r.len() && r[i] == x;
        if i < p {
            assert(q[i] == x);
        } else if i > p {
            assert(q[i - 1] == x);
        }
    }
}

proof fn lemma_activities_members(
    acts: Seq<ActivityView>,
    nodes: Seq<StatView>,
    package: Seq<char>,
    x: ActivityCoverageView,
)
    ensures
        activities_cover(acts, nodes, package).contains(x) <==> exists|k: int|
            0 <= k < acts.len() && own_activity(#[trigger] acts[k], package) && activity_cover(
                acts[k],
                nodes,
            ) == x,
    decreases acts.len(),
{
    if acts.len() > 0 {
        let d = acts.drop_last();
        lemma_activities_members(d, nodes, package, x);
        let q = activities_cover(d, nodes, package);
        let c = activity_cover(acts.last(), nodes);
        lemma_place_by_seen(q, c.nodes_seen, 0);
        lemma_insert_contains(q, place_by_seen(q, c.nodes_seen, 0), c, x);
        assert(acts[acts.len() - 1] == acts.last());
        if q.contains(x) {
            let k = choose|k: int|
                0 <= k < d.len() && own_activity(#[trigger] d[k], package) && activity_cover(
                    d[k],
                    nodes,
                ) == x;
            assert(acts[k] == d[k]);
        }
        if exists|k: int|
            0 <= k < acts.len() && own_activity(#[trigger] acts[k], package) && activity_cover(
                acts[k],
                nodes,
            ) == x {
            let k = choose|k: int|
                0 <= k < acts.len() && own_activity(#[trigger] acts[k], package) && activity_cover(
                    acts[k],
                    nodes,
                ) == x;
            if k < d.len() {
                assert(d[k] == acts[k]);
            }
        }
    }
}

/// The activities in a report are those of the app under test, each of them once, those with the
/// most widgets first. Where no app is given, all of them are.
pub proof fn lemma_activities_reported(v: ExplorerView, x: ActivityCoverageView)
    ensures
        ({
            let c = coverage_of(v);
            let package = v.cfg.package;
            &&& c.activity_count == c.activities.len()
            &&& c.activity_count == v.activities.filter(
                |a: ActivityView| own_activity(a, package),
            ).len()
            &&& forall|i: int, j: int|
                0 <= i <= j < c.activities.len() ==> (#[trigger] c.activities[i]).nodes_seen >= (
                #[trigger] c.activities[j]).nodes_seen
            &&& c.activities.contains(x) <==> exists|k: int|
                0 <= k < v.activities.len() && own_activity(#[trigger] v.activities[k], package)
                    && activity_cover(v.activities[k], v.nodes) == x
        }),
{
    lemma_activities_len(v.activities, v.nodes, v.cfg.package);
    lemma_activities_sorted(v.activities, v.nodes, v.cfg.package);
    lemma_activities_members(v.activities, v.nodes, v.cfg.package, x);
}

// ---------------------------------------------------------------- what is missing

proof fn lemma_missed_members(nodes: Seq<StatView>, x: StatView)
    ensures
        missed(nodes).contains(x) <==> nodes.contains(x) && x.touched == 0,
        missed(nodes).len() == nodes.filter(|s: StatView| s.touched == 0).len(),
    decreases nodes.len(),
{
    reveal(Seq::filter);
    if nodes.len() > 0 {
        let d = nodes.drop_last();
        lemma_missed_members(d, x);
        let q = missed(d);
        let r = missed(nodes);
        let y = nodes.last();
        assert(nodes[nodes.len() - 1] == y);
        if nodes.contains(x) {
            let i = choose|i: int| 0 <= i < nodes.len() && nodes[i] == x;
            if i < d.len() {
                assert(d[i] == x);
            }
        }
        if d.contains(x) {
            let i = choose|i: int| 0 <= i < d.len() && d[i] == x;
            assert(nodes[i] == x);
        }
        if y.touched == 0 {
            let p = place_missed(q, y, 0);
            lemma_place_in(q, y, 0);
            assert(r == q.insert(p, y));
            assert(r[p] == y);
            if q.contains(x) {
                let i = choose|i: int| 0 <= i < q.len() && q[i] == x;
                if i < p {
                    assert(r[i] == x);
                } else {
                    assert(r[i + 1] == x);
                }
            }
            if r.contains(x) {
                let i = choose|i: int| 0 <= i < r.len() && r[i] == x;
                if i < p {
                    assert(q[i] == x);
                } else if i > p {
                    assert(q[i - 1] == x);
                }
            }
        }
    }
}

proof fn lemma_place_in(s: Seq<StatView>, x: StatView, i: int)
    requires
        0 <= i <= s.len(),
    ensures
        i <= place_missed(s, x, i) <= s.len(),
    decreases s.len() - i,
{
    if i < s.len() && !crate::strategy::coverage::more_missed(x, s[i]) {
        lemma_place_in(s, x, i + 1);
    }
}

/// The list of what is missing holds widgets that were seen and not used: all of them where there
/// are at most fifty, and else fifty. Those that count come first, and among these those that were
/// seen most often.
pub proof fn lemma_sample_of_missing(v: ExplorerView, x: StatView)
    ensures
        ({
            let s = coverage_of(v).untouched_sample;
            let missing = v.nodes.filter(|s: StatView| s.touched == 0).len();
            &&& s.len() == if missing <= 50 {
                missing
            } else {
                50
            }
            &&& s.contains(x) ==> v.nodes.contains(x) && x.touched == 0
            &&& missing <= 50 && v.nodes.contains(x) && x.touched == 0 ==> s.contains(x)
            &&& forall|i: int, j: int|
                0 <= i < j < s.len() ==> ((#[trigger] s[j]).interactive ==> (
                #[trigger] s[i]).interactive) && (s[i].interactive == s[j].interactive ==> s[i].seen
                    >= s[j].seen)
        }),
{
    lemma_missed_members(v.nodes, x);
    crate::strategy::law::lemma_missed_sorted(v.nodes);
    let m = missed(v.nodes);
    let s = coverage_of(v).untouched_sample;
    if s.contains(x) {
        let i = choose|i: int| 0 <= i < s.len() && s[i] == x;
        assert(m[i] == x);
    }
    assert forall|i: int, j: int| 0 <= i < j < s.len() implies ((#[trigger] s[j]).interactive ==> (
    #[trigger] s[i]).interactive) && (s[i].interactive == s[j].interactive ==> s[i].seen
        >= s[j].seen) by {
        assert(s[i] == m[i] && s[j] == m[j]);
        assert(!crate::strategy::coverage::more_missed(m[j], m[i]));
    }
}

} // verus!
