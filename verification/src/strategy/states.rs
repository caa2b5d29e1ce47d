//! How states are told, what is kept of them, and which action a draw falls on.

use vstd::prelude::*;

use crate::model::action::action_key_of;
use crate::model::action::target_key_of;
use crate::model::action::ActionView;
use crate::model::node::all_nodes;
use crate::model::node::content_parts;
use crate::model::node::counted_keys;
use crate::model::node::key_of;
use crate::model::node::screen_of;
use crate::model::node::shown_texts;
use crate::model::node::struct_parts;
use crate::model::node::visible_of;
use crate::model::node::HierarchyView;
use crate::model::node::NodeView;
use crate::single::round24_signed;
use crate::strategy::config::StateMode;
use crate::strategy::explorer::answering;
use crate::strategy::explorer::entered;
use crate::strategy::explorer::observed;
use crate::strategy::explorer::signature;
use crate::strategy::explorer::state_id;
use crate::strategy::explorer::took;
use crate::strategy::explorer::tried_in;
use crate::strategy::explorer::with_keys;
use crate::strategy::explorer::with_tried;
use crate::strategy::explorer::ExplorerView;
use crate::strategy::measure::is_target;
use crate::strategy::record::lemma_state_at;
use crate::strategy::record::state_at;
use crate::strategy::weight::pick_from;
use crate::text::number::dec;
use crate::text::number::dec_signed;
use crate::text::order::lemma_sorted_set;
use crate::text::order::sorted_set;
use crate::text::search::begins;
use crate::text::search::has;
use crate::text::search::occurs_at;
use crate::text::split::behind_last;
use crate::text::split::joined;

verus! {

/// What stands in a part of a text stands in the text.
pub proof fn lemma_has_in_sum(a: Seq<char>, b: Seq<char>, x: Seq<char>)
    requires
        has(a, x) || has(b, x),
    ensures
        has(a + b, x),
{
    if has(a, x) {
        let i = choose|i: int| occurs_at(a, x, i);
        assert((a + b).subrange(i, i + x.len()) =~= a.subrange(i, i + x.len()));
        assert(occurs_at(a + b, x, i));
    } else {
        let i = choose|i: int| occurs_at(b, x, i);
        assert((a + b).subrange(a.len() + i, a.len() + i + x.len()) =~= b.subrange(
            i,
            i + x.len(),
        ));
        assert(occurs_at(a + b, x, a.len() + i));
    }
}

/// A joined text holds each of its parts.
pub proof fn lemma_joined_has(parts: Seq<Seq<char>>, sep: Seq<char>, i: int)
    requires
        0 <= i < parts.len(),
    ensures
        has(joined(parts, sep), parts[i]),
    decreases parts.len(),
{
    let x = parts[i];
    assert(occurs_at(x, x, 0)) by {
        assert(x.subrange(0, x.len() as int) =~= x);
    }
    if parts.len() > 1 {
        let d = parts.drop_last();
        if i < d.len() {
            assert(d[i] == x);
            lemma_joined_has(d, sep, i);
            lemma_has_in_sum(joined(d, sep), sep, x);
            lemma_has_in_sum(joined(d, sep) + sep, parts.last(), x);
        } else {
            lemma_has_in_sum(joined(d, sep) + sep, parts.last(), x);
        }
    }
}

proof fn lemma_sorted_joined_has(parts: Seq<Seq<char>>, sep: Seq<char>, x: Seq<char>)
    requires
        parts.contains(x),
    ensures
        has(joined(sorted_set(parts), sep), x),
{
    lemma_sorted_set(parts);
    assert(sorted_set(parts).contains(x));
    let i = choose|i: int| 0 <= i < sorted_set(parts).len() && sorted_set(parts)[i] == x;
    lemma_joined_has(sorted_set(parts), sep, i);
}

/// The flag in words.
pub open spec fn flag_word(b: bool) -> Seq<char> {
    if b {
        "true"@
    } else {
        "false"@
    }
}

/// What a widget is told by where only the structure counts: its resource id, or else its class and
/// its place; and whether it is checked.
pub open spec fn structure_words(n: NodeView) -> Seq<char> {
    let b = n.bounds;
    (if n.resource_id.len() > 0 {
        n.resource_id
    } else {
        behind_last(n.class, '.') + "#"@ + ("["@ + dec_signed(b.x1 as int) + ","@ + dec_signed(
            b.y1 as int,
        ) + "]["@ + dec_signed(b.x2 as int) + ","@ + dec_signed(b.y2 as int) + "]"@)
    }) + "|"@ + flag_word(n.checked)
}

proof fn lemma_struct_parts(s: Seq<NodeView>, k: int)
    requires
        0 <= k < s.len(),
        is_target(s[k]),
    ensures
        struct_parts(s).contains(structure_words(s[k])),
    decreases s.len(),
{
    let d = s.drop_last();
    let all = struct_parts(s);
    if k < d.len() {
        assert(d[k] == s[k]);
        lemma_struct_parts(d, k);
        let q = struct_parts(d);
        let i = choose|i: int| 0 <= i < q.len() && q[i] == structure_words(s[k]);
        assert(all[i] == q[i]);
    } else {
        assert(all.last() == crate::model::node::struct_part(s.last()));
        assert(all[all.len() - 1] == structure_words(s[k]));
    }
}

proof fn lemma_content_parts(s: Seq<NodeView>, k: int)
    requires
        0 <= k < s.len(),
        is_target(s[k]),
    ensures
        content_parts(s).contains(
            key_of(s[k]) + "|"@ + s[k].text + "|"@ + s[k].content_desc + "|"@ + flag_word(
                s[k].checked,
            ),
        ),
    decreases s.len(),
{
    let d = s.drop_last();
    let all = content_parts(s);
    let x = key_of(s[k]) + "|"@ + s[k].text + "|"@ + s[k].content_desc + "|"@ + flag_word(
        s[k].checked,
    );
    if k < d.len() {
        assert(d[k] == s[k]);
        lemma_content_parts(d, k);
        let q = content_parts(d);
        let i = choose|i: int| 0 <= i < q.len() && q[i] == x;
        assert(all[i] == q[i]);
    } else {
        assert(all[all.len() - 1] == x);
    }
}

proof fn lemma_shown_texts(s: Seq<NodeView>, k: int)
    requires
        0 <= k < s.len(),
        s[k].text.len() > 0,
    ensures
        shown_texts(s).contains(s[k].text),
    decreases s.len(),
{
    let d = s.drop_last();
    let all = shown_texts(s);
    if k < d.len() {
        assert(d[k] == s[k]);
        lemma_shown_texts(d, k);
        let q = shown_texts(d);
        let i = choose|i: int| 0 <= i < q.len() && q[i] == s[k].text;
        assert(all[i] == q[i]);
    } else {
        assert(all[all.len() - 1] == s[k].text);
    }
}

/// What tells a state: the activity and the size of the screen to begin with; then, by structure,
/// of every visible target its resource id, or its class and place, and whether it is checked; by
/// contents its key, its text, its description and whether it is checked, and the text of every
/// visible widget.
pub proof fn lemma_what_tells_a_state(h: HierarchyView, activity: Seq<char>, k: int)
    ensures
        ({
            let vis = visible_of(h);
            let screen = screen_of(h);
            let front = activity + "|"@ + dec(screen.x2 as int) + "x"@ + dec(screen.y2 as int)
                + "|"@;
            let s = signature(StateMode::Structure, h, activity);
            let e = signature(StateMode::Exact, h, activity);
            &&& begins(s, front)
            &&& begins(e, front)
            &&& 0 <= k < vis.len() && is_target(vis[k]) ==> has(s, structure_words(vis[k]))
            &&& 0 <= k < vis.len() && is_target(vis[k]) ==> has(
                e,
                key_of(vis[k]) + "|"@ + vis[k].text + "|"@ + vis[k].content_desc + "|"@
                    + flag_word(vis[k].checked),
            )
            &&& 0 <= k < vis.len() && vis[k].text.len() > 0 ==> has(e, vis[k].text)
        }),
{
    let vis = visible_of(h);
    let screen = screen_of(h);
    let front = activity + "|"@ + dec(screen.x2 as int) + "x"@ + dec(screen.y2 as int) + "|"@;
    let a = joined(sorted_set(struct_parts(vis)), ";"@);
    let b = joined(sorted_set(content_parts(vis)), ";"@);
    let c = joined(sorted_set(shown_texts(vis)), ";"@);
    let s = signature(StateMode::Structure, h, activity);
    let e = signature(StateMode::Exact, h, activity);
    assert(crate::model::node::sig_head(activity, screen) == front);
    assert(s == front + a);
    assert(e == front + b + "|"@ + c);
    assert(s.subrange(0, front.len() as int) =~= front);
    assert(e.subrange(0, front.len() as int) =~= front);
    if 0 <= k < vis.len() {
        if is_target(vis[k]) {
            lemma_struct_parts(vis, k);
            lemma_sorted_joined_has(struct_parts(vis), ";"@, structure_words(vis[k]));
            lemma_has_in_sum(front, a, structure_words(vis[k]));
            let x = key_of(vis[k]) + "|"@ + vis[k].text + "|"@ + vis[k].content_desc + "|"@
                + flag_word(vis[k].checked);
            lemma_content_parts(vis, k);
            lemma_sorted_joined_has(content_parts(vis), ";"@, x);
            lemma_has_in_sum(front, b, x);
            lemma_has_in_sum(front + b, "|"@, x);
            lemma_has_in_sum(front + b + "|"@, c, x);
        }
        if vis[k].text.len() > 0 {
            lemma_shown_texts(vis, k);
            lemma_sorted_joined_has(shown_texts(vis), ";"@, vis[k].text);
            lemma_has_in_sum(front + b + "|"@, c, vis[k].text);
        }
    }
}

/// What a widget is called: its resource id; else its class with its text, or with its description
/// where it has no text; else its class with its place.
pub proof fn lemma_what_a_widget_is_called(n: NodeView)
    ensures
        n.resource_id.len() > 0 ==> key_of(n) == n.resource_id,
        n.resource_id.len() == 0 && n.text.len() > 0 ==> key_of(n) == behind_last(n.class, '.')
            + "#"@ + n.text,
        n.resource_id.len() == 0 && n.text.len() == 0 && n.content_desc.len() > 0 ==> key_of(n)
            == behind_last(n.class, '.') + "#"@ + n.content_desc,
        n.resource_id.len() == 0 && n.text.len() == 0 && n.content_desc.len() == 0 ==> key_of(n)
            == behind_last(n.class, '.') + "#"@ + ("["@ + dec_signed(n.bounds.x1 as int) + ","@
            + dec_signed(n.bounds.y1 as int) + "]["@ + dec_signed(n.bounds.x2 as int) + ","@
            + dec_signed(n.bounds.y2 as int) + "]"@),
{
}

/// Actions are told apart by their kind, the widget they are aimed at, the way a swipe goes and the
/// text that is typed.
pub proof fn lemma_actions_are_told_apart(a: ActionView, b: ActionView)
    ensures
        match (a, b) {
            (ActionView::Click { target: s, .. }, ActionView::Click { target: t, .. }) => (
            action_key_of(a) == action_key_of(b)) == (s.key == t.key),
            (ActionView::LongClick { target: s, .. }, ActionView::LongClick { target: t, .. }) => (
            action_key_of(a) == action_key_of(b)) == (s.key == t.key),
            (
                ActionView::Input { target: s, text: x, .. },
                ActionView::Input { target: t, text: y, .. },
            ) => s.key == t.key ==> (action_key_of(a) == action_key_of(b)) == (x == y),
            (
                ActionView::Swipe { target: s, dir: x, .. },
                ActionView::Swipe { target: t, dir: y, .. },
            ) => (s == t ==> (action_key_of(a) == action_key_of(b)) == (x == y)) && (s is Some
                && t is Some && x == y ==> (action_key_of(a) == action_key_of(b)) == ((s->0).key
                == (t->0).key)),
            (ActionView::Click { .. }, ActionView::LongClick { .. }) => action_key_of(a)
                != action_key_of(b),
            (ActionView::Click { .. }, ActionView::Input { .. }) => action_key_of(a)
                != action_key_of(b),
            (ActionView::Click { .. }, ActionView::Swipe { .. }) => action_key_of(a)
                != action_key_of(b),
            (ActionView::LongClick { .. }, ActionView::Input { .. }) => action_key_of(a)
                != action_key_of(b),
            (ActionView::LongClick { .. }, ActionView::Swipe { .. }) => action_key_of(a)
                != action_key_of(b),
            (ActionView::Input { .. }, ActionView::Swipe { .. }) => action_key_of(a)
                != action_key_of(b),
            _ => true,
        },
{
    reveal_strlit("click#");
    reveal_strlit("long_click#");
    reveal_strlit("swipe#");
    reveal_strlit("input#");
    reveal_strlit("#");
    reveal_strlit("up");
    reveal_strlit("down");
    reveal_strlit("left");
    reveal_strlit("right");
    let x = action_key_of(a);
    let y = action_key_of(b);
    match a {
        ActionView::Click { .. } => {
            assert(x[0] == 'c');
        },
        ActionView::LongClick { .. } => {
            assert(x[0] == 'l');
        },
        ActionView::Input { .. } => {
            assert(x[0] == 'i');
        },
        ActionView::Swipe { .. } => {
            assert(x[0] == 's');
        },
        _ => {},
    }
    match b {
        ActionView::LongClick { .. } => {
            assert(y[0] == 'l');
        },
        ActionView::Input { .. } => {
            assert(y[0] == 'i');
        },
        ActionView::Swipe { .. } => {
            assert(y[0] == 's');
        },
        _ => {},
    }
    match (a, b) {
        (ActionView::Click { target: s, .. }, ActionView::Click { target: t, .. }) => {
            lemma_same_tail("click#"@, s.key, t.key);
        },
        (ActionView::LongClick { target: s, .. }, ActionView::LongClick { target: t, .. }) => {
            lemma_same_tail("long_click#"@, s.key, t.key);
        },
        (
            ActionView::Input { target: s, text: p, .. },
            ActionView::Input { target: t, text: q, .. },
        ) => {
            if s.key == t.key {
                lemma_same_tail("input#"@ + s.key + "#"@, p, q);
            }
        },
        (
            ActionView::Swipe { target: s, dir: p, .. },
            ActionView::Swipe { target: t, dir: q, .. },
        ) => {
            let k = match s {
                Some(z) => z.key,
                None => "screen"@,
            };
            let l = match t {
                Some(z) => z.key,
                None => "screen"@,
            };
            if s == t {
                lemma_same_tail(
                    "swipe#"@ + k + "#"@,
                    crate::model::action::dir_text(p),
                    crate::model::action::dir_text(q),
                );
                assert("up"@.len() == 2 && "down"@.len() == 4 && "left"@.len() == 4
                    && "right"@.len() == 5);
                assert("down"@[0] == 'd' && "left"@[0] == 'l');
            }
            if s is Some && t is Some && p == q {
                let tail = "#"@ + crate::model::action::dir_text(p);
                assert(x =~= "swipe#"@ + (k + tail));
                assert(y =~= "swipe#"@ + (l + tail));
                lemma_same_tail("swipe#"@, k + tail, l + tail);
                lemma_same_head(k, l, tail);
            }
        },
        _ => {},
    }
}

proof fn lemma_same_tail(front: Seq<char>, a: Seq<char>, b: Seq<char>)
    ensures
        (front + a == front + b) == (a == b),
{
    if front + a == front + b {
        let x = front + a;
        assert(x.skip(front.len() as int) =~= a);
        assert((front + b).skip(front.len() as int) =~= b);
    }
}

proof fn lemma_same_head(a: Seq<char>, b: Seq<char>, tail: Seq<char>)
    ensures
        (a + tail == b + tail) == (a == b),
{
    if a + tail == b + tail {
        assert((a + tail).len() == (b + tail).len());
        assert((a + tail).take(a.len() as int) =~= a);
        assert((b + tail).take(b.len() as int) =~= b);
    }
}

/// The widget that an action counts as a use of is the one that it is aimed at.
pub proof fn lemma_what_an_action_uses(a: ActionView)
    ensures
        match a {
            ActionView::Click { target, .. } => target_key_of(a) == Some(target.key),
            ActionView::LongClick { target, .. } => target_key_of(a) == Some(target.key),
            ActionView::Input { target, .. } => target_key_of(a) == Some(target.key),
            ActionView::Swipe { target, .. } => match target {
                Some(t) => target_key_of(a) == Some(t.key),
                None => target_key_of(a) is None,
            },
            _ => target_key_of(a) is None,
        },
{
}

// ---------------------------------------------------------------- what is kept of a state

proof fn lemma_answering(vis: Seq<NodeView>)
    ensures
        answering(vis) == vis.filter(
            |n: NodeView|
                n.clickable || n.long_clickable || n.scrollable || n.checkable || has(
                    n.class,
                    "EditText"@,
                ) || has(n.class, "AutoCompleteTextView"@),
        ).len(),
    decreases vis.len(),
{
    reveal(Seq::filter);
    if vis.len() > 0 {
        lemma_answering(vis.drop_last());
    }
}

proof fn lemma_counted_keys(s: Seq<NodeView>, x: Seq<char>)
    ensures
        counted_keys(s).contains(x) <==> exists|k: int|
            0 <= k < s.len() && is_target(#[trigger] s[k]) && key_of(s[k]) == x,
    decreases s.len(),
{
    if s.len() > 0 {
        let d = s.drop_last();
        lemma_counted_keys(d, x);
        let q = counted_keys(d);
        let r = counted_keys(s);
        let last = s.len() - 1;
        if q.contains(x) {
            let i = choose|i: int| 0 <= i < q.len() && q[i] == x;
            assert(r[i] == x);
            let k = choose|k: int|
                0 <= k < d.len() && is_target(#[trigger] d[k]) && key_of(d[k]) == x;
            assert(s[k] == d[k]);
        }
        if r.contains(x) {
            let i = choose|i: int| 0 <= i < r.len() && r[i] == x;
            if i < q.len() {
                assert(q[i] == x);
            } else {
                assert(is_target(s[last]) && key_of(s[last]) == x);
            }
        }
        if exists|k: int| 0 <= k < s.len() && is_target(#[trigger] s[k]) && key_of(s[k]) == x {
            let k = choose|k: int|
                0 <= k < s.len() && is_target(#[trigger] s[k]) && key_of(s[k]) == x;
            if k < d.len() {
                assert(d[k] == s[k]);
            } else {
                assert(r[r.len() - 1] == x);
            }
        }
    }
}

/// What a look leaves of a state: one that was met before has one visit more and is else as it was;
/// a new one has one visit, the activity and the step at which it was met, the number of all widgets
/// of the screen and of those that answer to some action, and the keys of its targets. All other
/// states stay as they are.
pub proof fn lemma_what_is_kept_of_a_state(
    v: ExplorerView,
    h: HierarchyView,
    activity: Seq<char>,
    step: usize,
    key: Seq<char>,
)
    requires
        forall|i: int| 0 <= i < v.states.len() ==> (#[trigger] v.states[i]).visits < u32::MAX,
    ensures
        ({
            let id = state_id(v.cfg.mode, h, activity);
            let w = observed(v, h, activity, step);
            let vis = visible_of(h);
            let known = exists|i: int| 0 <= i < v.states.len() && (#[trigger] v.states[i]).id == id;
            &&& forall|i: int|
                0 <= i < v.states.len() && (#[trigger] v.states[i]).id != id ==> w.states[i]
                    == v.states[i]
            &&& known ==> w.states.len() == v.states.len() && exists|i: int|
                0 <= i < v.states.len() && (#[trigger] v.states[i]).id == id && w.states[i].id == id
                    && w.states[i].visits == v.states[i].visits + 1 && w.states[i].first_step
                    == v.states[i].first_step && w.states[i].activity == v.states[i].activity
                    && w.states[i].tried_count == v.states[i].tried_count && w.states[i].keys
                    == v.states[i].keys
            &&& !known ==> {
                let s = w.states[v.states.len() as int];
                &&& w.states.len() == v.states.len() + 1
                &&& s.id == id && s.visits == 1 && s.activity == activity && s.first_step == step
                &&& s.node_count == all_nodes(h).len() && s.tried_count == 0
                &&& s.interactive_count == vis.filter(
                    |n: NodeView|
                        n.clickable || n.long_clickable || n.scrollable || n.checkable || has(
                            n.class,
                            "EditText"@,
                        ) || has(n.class, "AutoCompleteTextView"@),
                ).len()
                &&& s.keys.contains(key) <==> exists|k: int|
                    0 <= k < vis.len() && is_target(#[trigger] vis[k]) && key_of(vis[k]) == key
            }
        }),
{
    let id = state_id(v.cfg.mode, h, activity);
    let w = observed(v, h, activity, step);
    let vis = visible_of(h);
    lemma_state_at(v.states, id);
    lemma_answering(vis);
    lemma_counted_keys(vis, key);
    lemma_sorted_set(counted_keys(vis));
    let i = state_at(v.states, id);
    if i < v.states.len() {
        assert(v.states[i].id == id);
    }
}

/// Where a state is known, the number of actions tried in it is kept with it.
pub proof fn lemma_tries_are_kept(v: ExplorerView, id: u64, action: ActionView, i: int)
    requires
        0 <= i < v.states.len(),
        v.states[i].id == id,
        forall|j: int| 0 <= j < v.states.len() && j != i ==> (#[trigger] v.states[j]).id != id,
    ensures
        took(v, id, action).states[i].tried_count == tried_in(took(v, id, action).tried, id).len(),
        took(v, id, action).states[i].visits == v.states[i].visits,
        took(v, id, action).cfg == v.cfg,
        took(v, id, action).nodes == v.nodes,
        took(v, id, action).activities == v.activities,
        took(v, id, action).transitions == v.transitions,
        took(v, id, action).same_streak == v.same_streak,
        tried_in(took(v, id, action).tried, id).contains(action_key_of(action)),
{
    lemma_state_at(v.states, id);
    assert(state_at(v.states, id) == i);
    crate::strategy::record::lemma_tried_at(v.tried, id);
    let key = action_key_of(action);
    let t = with_tried(v.tried, id, key);
    crate::strategy::record::lemma_tried_at(t, id);
    let a = crate::strategy::record::tried_at(v.tried, id);
    let b = crate::strategy::record::tried_at(t, id);
    if a < v.tried.len() {
        assert(t[a].id == id);
        if b < a {
            assert(v.tried[b].id == t[b].id);
        }
        if !v.tried[a].keys.contains(key) {
            let keys = t[a].keys;
            assert(keys[keys.len() - 1] == key);
        }
    } else {
        assert(t[v.tried.len() as int].id == id);
        if b < v.tried.len() {
            assert(v.tried[b].id == t[b].id);
        }
        let keys = t[v.tried.len() as int].keys;
        assert(keys[keys.len() - 1] == key);
    }
}

proof fn lemma_added_keys(
    keys: Seq<Seq<char>>,
    vis: Seq<NodeView>,
    package: Seq<char>,
    x: Seq<char>,
)
    ensures
        with_keys(keys, vis, package).contains(x) <==> keys.contains(x) || exists|k: int|
            0 <= k < vis.len() && key_of(#[trigger] vis[k]) == x && (package.len() == 0
                || vis[k].package.len() == 0 || vis[k].package == package),
    decreases vis.len(),
{
    if vis.len() > 0 {
        let d = vis.drop_last();
        lemma_added_keys(keys, d, package, x);
        let q = with_keys(keys, d, package);
        let r = with_keys(keys, vis, package);
        let last = vis.len() - 1;
        if q.contains(x) {
            let i = choose|i: int| 0 <= i < q.len() && q[i] == x;
            assert(r[i] == x);
        }
        if r.contains(x) {
            let i = choose|i: int| 0 <= i < r.len() && r[i] == x;
            if i < q.len() {
                assert(q[i] == x);
            } else {
                assert(key_of(vis[last]) == x);
            }
        }
        if exists|k: int|
            0 <= k < d.len() && key_of(#[trigger] d[k]) == x && (package.len() == 0
                || d[k].package.len() == 0 || d[k].package == package) {
            let k = choose|k: int|
                0 <= k < d.len() && key_of(#[trigger] d[k]) == x && (package.len() == 0
                    || d[k].package.len() == 0 || d[k].package == package);
            assert(vis[k] == d[k]);
        }
        if exists|k: int|
            0 <= k < vis.len() && key_of(#[trigger] vis[k]) == x && (package.len() == 0
                || vis[k].package.len() == 0 || vis[k].package == package) {
            let k = choose|k: int|
                0 <= k < vis.len() && key_of(#[trigger] vis[k]) == x && (package.len() == 0
                    || vis[k].package.len() == 0 || vis[k].package == package);
            if k < d.len() {
                assert(d[k] == vis[k]);
            } else if !q.contains(x) {
                assert(r[r.len() - 1] == x);
            }
        }
    }
}

/// What a look leaves of an activity: one visit more, or the first; and where it belongs to the app
/// under test, the keys of its visible widgets in addition to those that were there. Widgets of
/// other apps are not added, and other activities stay as they are.
pub proof fn lemma_what_is_kept_of_an_activity(
    v: ExplorerView,
    h: HierarchyView,
    activity: Seq<char>,
    step: usize,
    key: Seq<char>,
)
    requires
        crate::strategy::law::sound(v),
        forall|i: int|
            0 <= i < v.activities.len() ==> (#[trigger] v.activities[i]).visits < u32::MAX,
    ensures
        ({
            let w = observed(v, h, activity, step);
            let vis = visible_of(h);
            let package = v.cfg.package;
            let own = package.len() > 0 && activity.len() > 0 && begins(activity, package);
            let seen = exists|k: int|
                0 <= k < vis.len() && key_of(#[trigger] vis[k]) == key && (package.len() == 0
                    || vis[k].package.len() == 0 || vis[k].package == package);
            let known = exists|i: int|
                0 <= i < v.activities.len() && (#[trigger] v.activities[i]).name == activity;
            &&& known ==> w.activities.len() == v.activities.len() && exists|i: int|
                0 <= i < v.activities.len() && (#[trigger] v.activities[i]).name == activity
                    && w.activities[i].name == activity && w.activities[i].visits
                    == v.activities[i].visits + 1 && w.activities[i].first_step
                    == v.activities[i].first_step && (w.activities[i].nodes.contains(key)
                    <==> v.activities[i].nodes.contains(key) || (own && seen))
            &&& !known ==> w.activities.len() == v.activities.len() + 1 && exists|i: int|
                0 <= i < w.activities.len() && (#[trigger] w.activities[i]).name == activity
                    && w.activities[i].visits == 1 && w.activities[i].first_step == step && (
                w.activities[i].nodes.contains(key) <==> own && seen)
            &&& forall|i: int|
                0 <= i < v.activities.len() && (#[trigger] v.activities[i]).name != activity
                    ==> w.activities.contains(v.activities[i])
        }),
{
    let acts = v.activities;
    let w = observed(v, h, activity, step).activities;
    let package = v.cfg.package;
    let p = crate::strategy::explorer::activity_place(acts, activity, 0);
    crate::strategy::law::lemma_activity_place(acts, activity, 0);
    assert(w == entered(acts, h, package, activity, step));
    let known = exists|i: int| 0 <= i < acts.len() && (#[trigger] acts[i]).name == activity;
    if known {
        let i = choose|i: int| 0 <= i < acts.len() && (#[trigger] acts[i]).name == activity;
        crate::text::order::lemma_before_irreflexive(activity);
        if p < i {
            assert(crate::text::order::before(acts[p].name, acts[i].name));
        }
        assert(p == i);
        lemma_added_keys(acts[p].nodes, visible_of(h), package, key);
        assert(acts[p].name == activity);
        assert forall|i: int| 0 <= i < acts.len() && (#[trigger] acts[i]).name
            != activity implies w.contains(acts[i]) by {
            assert(w[i] == acts[i]);
        }
    } else {
        lemma_added_keys(seq![], visible_of(h), package, key);
        if p < acts.len() {
            assert(acts[p].name != activity);
        }
        assert(w[p].name == activity);
        assert forall|i: int| 0 <= i < acts.len() && (#[trigger] acts[i]).name
            != activity implies w.contains(acts[i]) by {
            if i < p {
                assert(w[i] == acts[i]);
            } else {
                assert(w[i + 1] == acts[i]);
            }
        }
    }
}

// ---------------------------------------------------------------- which action a draw falls on

/// The sum of the first weights.
pub open spec fn sum_of(ws: Seq<u64>, n: int) -> int
    decreases n,
{
    if n <= 0 {
        0
    } else {
        sum_of(ws, n - 1) + ws[n - 1]
    }
}

/// An action is drawn by its weight: the draw falls on the first action up to which the weights add
/// up to the draw, and on the last one where they never do; as far as nothing has to be rounded on
/// the way.
pub proof fn lemma_draw_by_weight(ws: Seq<u64>, i: int, draw: int)
    requires
        0 <= i < ws.len(),
        sum_of(ws, i) < draw || (i == 0 && 0 <= draw),
        forall|j: int|
            i <= j <= ws.len() ==> round24_signed(draw - #[trigger] sum_of(ws, j)) == draw - sum_of(
                ws,
                j,
            ),
    ensures
        ({
            let k = pick_from(ws, i, draw - sum_of(ws, i));
            &&& i <= k < ws.len()
            &&& k < ws.len() - 1 ==> draw <= sum_of(ws, k + 1)
            &&& forall|j: int| i <= j < k ==> draw > #[trigger] sum_of(ws, j + 1)
        }),
    decreases ws.len() - i,
{
    if i + 1 < ws.len() {
        assert(sum_of(ws, i + 1) == sum_of(ws, i) + ws[i]);
        let q = draw - sum_of(ws, i + 1);
        assert(round24_signed(q) == q);
        assert(draw - sum_of(ws, i) - ws[i] == q);
        if q > 0 {
            lemma_draw_by_weight(ws, i + 1, draw);
        }
    }
}

} // verus!
