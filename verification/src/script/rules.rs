//! What steps do, what stops a case before it runs, and what cases come to, in terms of what is
//! written in the case.

use vstd::prelude::*;

use crate::model::action::ActionView;
use crate::model::action::SwipeDir;
use crate::model::node::screen_of;
use crate::model::node::HierarchyView;
use crate::model::rect::Rect;
use crate::script::case::verdict_of;
use crate::script::check::AssertResultView;
use crate::script::check::AssertStatus;
use crate::script::gate::assertion_issues;
use crate::script::gate::assertions_issues;
use crate::script::gate::case_issues;
use crate::script::gate::step_issues;
use crate::script::gate::steps_issues;
use crate::script::gate::IssueView;
use crate::script::ir::Assertion;
use crate::script::ir::Case;
use crate::script::ir::ElementDef;
use crate::script::ir::Registry;
use crate::script::ir::Step;
use crate::script::locate::center_of;
use crate::script::locate::located;
use crate::script::locate::HitView;
use crate::script::steps::action_for;
use crate::script::steps::drag_of;
use crate::script::steps::task_of;
use crate::script::steps::StepRun;
use crate::script::steps::StepTask;
use crate::script::suite::how_many;
use crate::script::suite::plan_of;
use crate::script::suite::summary_of;
use crate::script::suite::yaml_name;
use crate::script::suite::Outcome;
use crate::single::Single;
use crate::text::number::dec;
use crate::text::number::i32_of;
use crate::text::number::u64_of;
use crate::text::search::has;
use crate::text::search::trimmed;

verus! {

/// The words for the actions of steps are all different.
proof fn lemma_words_differ()
    ensures
        "back"@ != "wait"@,
        "back"@ != "launch"@,
        "back"@ != "key"@,
        "back"@ != "swipe"@,
        "back"@ != "click"@,
        "back"@ != "long_click"@,
        "back"@ != "input"@,
        "wait"@ != "launch"@,
        "wait"@ != "key"@,
        "wait"@ != "swipe"@,
        "wait"@ != "click"@,
        "wait"@ != "long_click"@,
        "wait"@ != "input"@,
        "launch"@ != "key"@,
        "launch"@ != "swipe"@,
        "launch"@ != "click"@,
        "launch"@ != "long_click"@,
        "launch"@ != "input"@,
        "key"@ != "swipe"@,
        "key"@ != "click"@,
        "key"@ != "long_click"@,
        "key"@ != "input"@,
        "swipe"@ != "click"@,
        "swipe"@ != "long_click"@,
        "swipe"@ != "input"@,
        "click"@ != "long_click"@,
        "click"@ != "input"@,
        "long_click"@ != "input"@,
{
    reveal_strlit("back");
    reveal_strlit("wait");
    reveal_strlit("launch");
    reveal_strlit("key");
    reveal_strlit("swipe");
    reveal_strlit("click");
    reveal_strlit("long_click");
    reveal_strlit("input");
    assert("back"@[0] == 'b' && "wait"@[0] == 'w');
    assert("swipe"@[0] == 's' && "click"@[0] == 'c' && "input"@[0] == 'i');
    assert("back"@.len() == 4 && "wait"@.len() == 4 && "launch"@.len() == 6);
    assert("key"@.len() == 3 && "long_click"@.len() == 10);
    assert("swipe"@.len() == 5 && "click"@.len() == 5 && "input"@.len() == 5);
}

/// The middle of a widget that was found: equally far from either edge, up to the half point that
/// is cut off.
pub proof fn lemma_center_is_the_middle(hit: HitView)
    ensures
        match hit {
            HitView::Node(n) => {
                let p = center_of(hit);
                &&& -1 <= 2 * p.0 - (n.bounds.x1 + n.bounds.x2) <= 1
                &&& -1 <= 2 * p.1 - (n.bounds.y1 + n.bounds.y2) <= 1
            },
            HitView::Point(x, y) => center_of(hit) == (x, y),
        },
{
}

/// A step goes back exactly as it says, and a step that starts the app starts the component that
/// it names.
pub proof fn lemma_back_and_launch(
    s: Step,
    reg: Registry,
    h: HierarchyView,
    places: Seq<Option<(Single, Single)>>,
)
    ensures
        s.action@ == "back"@ ==> action_for(s, reg, h, places) is Ok && (action_for(
            s,
            reg,
            h,
            places,
        )->Ok_0).0 == ActionView::Back,
        s.action@ == "launch"@ && s.component is Some ==> action_for(s, reg, h, places) is Ok && (
        action_for(s, reg, h, places)->Ok_0).0 == (ActionView::Launch {
            component: (s.component->0)@,
        }),
        s.action@ != "back"@ && s.action@ != "launch"@ && s.action@ != "key"@ && s.action@
            != "swipe"@ && s.action@ != "click"@ && s.action@ != "long_click"@ && s.action@
            != "input"@ ==> action_for(s, reg, h, places) is Err,
{
    lemma_words_differ();
}

/// A step that presses a key presses the one with the given code; else the one that its value
/// writes as a number, or names: back is 4, home 3, enter 66, menu 82. Any other value is refused.
pub proof fn lemma_key_steps(
    s: Step,
    reg: Registry,
    h: HierarchyView,
    places: Seq<Option<(Single, Single)>>,
)
    requires
        s.action@ == "key"@,
    ensures
        ({
            let r = action_for(s, reg, h, places);
            let v = if s.value is Some {
                trimmed((s.value->0)@)
            } else {
                seq![]
            };
            let pressed: Option<int> = if r is Ok && (r->Ok_0).0 is Key {
                Some((r->Ok_0).0->code as int)
            } else {
                None
            };
            &&& r is Ok ==> (r->Ok_0).0 is Key
            &&& s.code is Some ==> pressed == Some(s.code->0 as int)
            &&& s.code is None && i32_of(v) is Some ==> pressed == i32_of(v)
            &&& s.code is None && i32_of(v) is None && v == "back"@ ==> pressed == Some(4int)
            &&& s.code is None && i32_of(v) is None && v == "home"@ ==> pressed == Some(3int)
            &&& s.code is None && i32_of(v) is None && v == "enter"@ ==> pressed == Some(66int)
            &&& s.code is None && i32_of(v) is None && v == "menu"@ ==> pressed == Some(82int)
            &&& s.code is None && i32_of(v) is None && v != "back"@ && v != "home"@ && v
                != "enter"@ && v != "menu"@ ==> r is Err
        }),
{
    lemma_words_differ();
    reveal_strlit("back");
    reveal_strlit("home");
    reveal_strlit("enter");
    reveal_strlit("menu");
    assert("back"@[0] == 'b' && "home"@[0] == 'h' && "menu"@[0] == 'm');
    assert("enter"@.len() == 5);
}

/// The swipe goes its way within the area.
pub open spec fn drags_over(
    r: Rect,
    dir: SwipeDir,
    from: (i32, i32),
    to: (i32, i32),
) -> bool {
    &&& r.x1 <= from.0 <= r.x2 && r.y1 <= from.1 <= r.y2
    &&& r.x1 <= to.0 <= r.x2 && r.y1 <= to.1 <= r.y2
    &&& match dir {
        SwipeDir::Up => from.0 == to.0 && from.1 >= to.1 && (r.y2 - r.y1 >= 2 ==> from.1 > to.1),
        SwipeDir::Down => from.0 == to.0 && from.1 <= to.1 && (r.y2 - r.y1 >= 2 ==> from.1 < to.1),
        SwipeDir::Left => from.1 == to.1 && from.0 >= to.0 && (r.x2 - r.x1 >= 2 ==> from.0 > to.0),
        SwipeDir::Right => from.1 == to.1 && from.0 <= to.0 && (r.x2 - r.x1 >= 2 ==> from.0
            < to.0),
    }
}

proof fn lemma_drag(r: Rect, dir: SwipeDir)
    requires
        r.x1 <= r.x2,
        r.y1 <= r.y2,
    ensures
        drags_over(r, dir, drag_of(r, dir).0, drag_of(r, dir).1),
{
}

/// A step that swipes does so in the direction that it names, or up where it names none; an unknown
/// direction is refused. It swipes over the widget that it names, or over the whole screen where it
/// names no known element; where the element is not found as a widget, it is refused.
pub proof fn lemma_swipe_steps(
    s: Step,
    reg: Registry,
    h: HierarchyView,
    places: Seq<Option<(Single, Single)>>,
    dir: SwipeDir,
)
    requires
        s.action@ == "swipe"@,
        match s.direction {
            None => dir == SwipeDir::Up,
            Some(d) => d@ == match dir {
                SwipeDir::Up => "up"@,
                SwipeDir::Down => "down"@,
                SwipeDir::Left => "left"@,
                SwipeDir::Right => "right"@,
            },
        },
    ensures
        ({
            let r = action_for(s, reg, h, places);
            let e: Option<ElementDef> = match s.locator {
                Some(l) => match l.id {
                    Some(id) => reg.lookup(id@),
                    None => None,
                },
                None => None,
            };
            match e {
                None => r is Ok && match (r->Ok_0).0 {
                    ActionView::Swipe { target, from, to, dir: d, duration_ms } => d == dir
                        && duration_ms == 400 && drags_over(screen_of(h), dir, from, to),
                    _ => false,
                },
                Some(x) => match located(x, h, true, true, places) {
                    Some((HitView::Node(n), k)) => r is Ok && match (r->Ok_0).0 {
                        ActionView::Swipe { target, from, to, dir: d, duration_ms } => d == dir
                            && duration_ms == 400 && (n.bounds.x1 <= n.bounds.x2 && n.bounds.y1
                            <= n.bounds.y2 ==> drags_over(n.bounds, dir, from, to)),
                        _ => false,
                    },
                    _ => r is Err,
                },
            }
        }),
{
    lemma_words_differ();
    reveal_strlit("up");
    reveal_strlit("down");
    reveal_strlit("left");
    reveal_strlit("right");
    assert("up"@.len() == 2 && "down"@.len() == 4 && "left"@.len() == 4 && "right"@.len() == 5);
    assert("down"@[0] == 'd' && "left"@[0] == 'l');
    lemma_drag(screen_of(h), dir);
    let e: Option<ElementDef> = match s.locator {
        Some(l) => match l.id {
            Some(id) => reg.lookup(id@),
            None => None,
        },
        None => None,
    };
    assert(crate::script::steps::step_element(s, reg) == e);
    assert(crate::script::steps::direction_of(s.direction) == Some(dir));
    if let Some(x) = e {
        if let Some((HitView::Node(n), k)) = located(x, h, true, true, places) {
            if n.bounds.x1 <= n.bounds.x2 && n.bounds.y1 <= n.bounds.y2 {
                lemma_drag(n.bounds, dir);
            }
        }
    }
}

/// A direction that is none of the four is refused.
pub proof fn lemma_unknown_direction(
    s: Step,
    reg: Registry,
    h: HierarchyView,
    places: Seq<Option<(Single, Single)>>,
)
    requires
        s.action@ == "swipe"@,
        s.direction is Some,
        (s.direction->0)@ != "up"@,
        (s.direction->0)@ != "down"@,
        (s.direction->0)@ != "left"@,
        (s.direction->0)@ != "right"@,
    ensures
        action_for(s, reg, h, places) is Err,
{
    lemma_words_differ();
}

/// A step on an element is done if and only if the step names an element of the registry that is
/// found on the page. It is of the kind that the step says, at the middle of what was found; a text
/// is the value of the step. What is noted of it names the element, the kind of the locator that
/// found it, and the point; it counts as done.
pub proof fn lemma_element_steps(
    s: Step,
    reg: Registry,
    h: HierarchyView,
    places: Seq<Option<(Single, Single)>>,
)
    requires
        s.action@ == "click"@ || s.action@ == "long_click"@ || s.action@ == "input"@,
    ensures
        ({
            let r = action_for(s, reg, h, places);
            let e: Option<ElementDef> = match s.locator {
                Some(l) => match l.id {
                    Some(id) => reg.lookup(id@),
                    None => None,
                },
                None => None,
            };
            &&& r is Ok <==> e is Some && located(e->0, h, true, true, places) is Some
            &&& r is Ok ==> {
                let (hit, k) = located(e->0, h, true, true, places)->0;
                let (a, sr) = r->Ok_0;
                let p = center_of(hit);
                &&& match a {
                    ActionView::Click { point, .. } => s.action@ == "click"@ && point == p,
                    ActionView::LongClick { point, .. } => s.action@ == "long_click"@ && point == p,
                    ActionView::Input { point, text, .. } => s.action@ == "input"@ && point == p
                        && text == if s.value is Some {
                        (s.value->0)@
                    } else {
                        seq![]
                    },
                    _ => false,
                }
                &&& sr.ok
                &&& sr.action == s.action@
                &&& sr.element == Some((e->0).id@)
                &&& sr.locator == Some((e->0).locators@[k].kind@)
                &&& sr.confidence == Some((e->0).locators@[k].confidence)
                &&& sr.point == Some(p)
            }
        }),
{
    lemma_words_differ();
}

/// A step that waits waits as long as its value writes, in milliseconds, or else as long as things
/// take to settle. Steps behind the last and behind a failure do nothing; any other is looked at.
pub proof fn lemma_what_comes_next(run: StepRun, steps: Seq<Step>, settle_ms: u64)
    ensures
        run.failed || run.at >= steps.len() ==> task_of(run, steps, settle_ms)
            == StepTask::Finished,
        !run.failed && run.at < steps.len() && steps[run.at as int].action@ != "wait"@ ==> task_of(
            run,
            steps,
            settle_ms,
        ) == StepTask::Look,
        !run.failed && run.at < steps.len() && steps[run.at as int].action@ == "wait"@ ==> {
            let s = steps[run.at as int];
            let v = if s.value is Some {
                trimmed((s.value->0)@)
            } else {
                seq![]
            };
            match task_of(run, steps, settle_ms) {
                StepTask::Sleep(ms) => match u64_of(v) {
                    Some(n) => ms == n,
                    None => ms == settle_ms,
                },
                _ => false,
            }
        },
{
}

// ---------------------------------------------------------------- before a case runs

/// The element that an id names is in the registry and can be found in some way.
pub open spec fn findable(reg: Registry, id: Seq<char>) -> bool {
    reg.lookup(id) is Some && (reg.lookup(id)->0).locators@.len() > 0
}

/// There is nothing wrong with a step.
pub open spec fn good_step(s: Step, reg: Registry) -> bool {
    let a = s.action@;
    ||| a == "back"@
    ||| a == "wait"@
    ||| a == "launch"@ && s.component is Some && (s.component->0)@.len() > 0
    ||| a == "key"@ && (s.code is Some || s.value is Some)
    ||| (a == "click"@ || a == "long_click"@ || a == "input"@ || a == "swipe"@) && s.locator is Some
        && match (s.locator->0).id {
        Some(id) => findable(reg, id@),
        None => (s.locator->0).kind is Some && (s.locator->0).value is Some,
    }
}

/// There is nothing wrong with an assertion.
pub open spec fn good_assertion(a: Assertion, reg: Registry) -> bool {
    let k = a.kind@;
    ||| k == "no_crash"@
    ||| (k == "text_visible"@ || k == "text_contains"@ || k == "text_equals"@ || k
        == "activity_is"@) && a.expect is Some && (a.expect->0)@.len() > 0
    ||| (k == "element_exists"@ || k == "element_absent"@) && a.locator is Some && (
    a.locator->0).id is Some && findable(reg, ((a.locator->0).id->0)@) && exists|i: int|
        0 <= i < (reg.lookup(((a.locator->0).id->0)@)->0).locators@.len() && (#[trigger] (
        reg.lookup(((a.locator->0).id->0)@)->0).locators@[i]).kind@ != "bounds_center"@ && (
        reg.lookup(((a.locator->0).id->0)@)->0).locators@[i].kind@ != "class_index"@
}

proof fn lemma_step_issue(at: Seq<char>, s: Step, reg: Registry)
    ensures
        step_issues(at, s, reg).len() == 0 <==> good_step(s, reg),
        step_issues(at, s, reg).len() <= 1,
        step_issues(at, s, reg).len() == 1 ==> step_issues(at, s, reg)[0].location == at,
{
    lemma_words_differ();
}

proof fn lemma_assertion_issue(at: Seq<char>, a: Assertion, reg: Registry)
    ensures
        assertion_issues(at, a, reg).len() == 0 <==> good_assertion(a, reg),
        assertion_issues(at, a, reg).len() <= 1,
        assertion_issues(at, a, reg).len() == 1 ==> assertion_issues(at, a, reg)[0].location == at,
{
    reveal_strlit("no_crash");
    reveal_strlit("text_visible");
    reveal_strlit("text_contains");
    reveal_strlit("text_equals");
    reveal_strlit("activity_is");
    reveal_strlit("element_exists");
    reveal_strlit("element_absent");
    assert("no_crash"@.len() == 8 && "text_visible"@.len() == 12 && "text_contains"@.len() == 13);
    assert("text_equals"@.len() == 11 && "activity_is"@.len() == 11);
    assert("element_exists"@.len() == 14 && "element_absent"@.len() == 14);
    assert("text_equals"@[0] == 't' && "activity_is"@[0] == 'a');
    if (a.kind@ == "element_exists"@ || a.kind@ == "element_absent"@) && a.locator is Some && (
    a.locator->0).id is Some && reg.lookup(((a.locator->0).id->0)@) is Some {
        let e = reg.lookup(((a.locator->0).id->0)@)->0;
        if crate::script::gate::tellable(e) {
            let i = choose|i: int|
                0 <= i < e.locators@.len() && crate::script::ir::semantic(#[trigger] e.locators@[i]);
            assert(e.locators@[i].kind@ != "bounds_center"@);
        }
        if exists|i: int|
            0 <= i < e.locators@.len() && (#[trigger] e.locators@[i]).kind@ != "bounds_center"@
                && e.locators@[i].kind@ != "class_index"@ {
            let i = choose|i: int|
                0 <= i < e.locators@.len() && (#[trigger] e.locators@[i]).kind@ != "bounds_center"@
                    && e.locators@[i].kind@ != "class_index"@;
            assert(crate::script::ir::semantic(e.locators@[i]));
        }
    }
}

/// The place of a step or an assertion in words, by its number or else its place.
pub open spec fn place_words(prefix: Seq<char>, n: Option<u32>, i: int) -> Seq<char> {
    prefix + dec(
        match n {
            Some(k) => k as int,
            None => i + 1,
        },
    )
}

/// Some issue is about the place.
pub open spec fn told_at(issues: Seq<IssueView>, at: Seq<char>) -> bool {
    exists|j: int| 0 <= j < issues.len() && (#[trigger] issues[j]).location == at
}

proof fn lemma_told_sum(x: Seq<IssueView>, y: Seq<IssueView>, at: Seq<char>)
    ensures
        told_at(x + y, at) <==> told_at(x, at) || told_at(y, at),
{
    let all = x + y;
    if told_at(x, at) {
        let j = choose|j: int| 0 <= j < x.len() && (#[trigger] x[j]).location == at;
        assert(all[j] == x[j]);
    }
    if told_at(y, at) {
        let j = choose|j: int| 0 <= j < y.len() && (#[trigger] y[j]).location == at;
        assert(all[x.len() + j] == y[j]);
    }
    if told_at(all, at) {
        let j = choose|j: int| 0 <= j < all.len() && (#[trigger] all[j]).location == at;
        if j < x.len() {
            assert(x[j] == all[j]);
        } else {
            assert(y[j - x.len()] == all[j]);
        }
    }
}

proof fn lemma_steps_issues(steps: Seq<Step>, prefix: Seq<char>, reg: Registry)
    ensures
        steps_issues(steps, prefix, reg).len() == 0 <==> forall|i: int|
            0 <= i < steps.len() ==> good_step(#[trigger] steps[i], reg),
        forall|i: int|
            0 <= i < steps.len() && !good_step(#[trigger] steps[i], reg) ==> told_at(
                steps_issues(steps, prefix, reg),
                place_words(prefix, steps[i].n, i),
            ),
    decreases steps.len(),
{
    if steps.len() > 0 {
        let d = steps.drop_last();
        let last = steps.len() - 1;
        let at = place_words(prefix, steps[last].n, last);
        lemma_steps_issues(d, prefix, reg);
        lemma_step_issue(at, steps[last], reg);
        let x = steps_issues(d, prefix, reg);
        let y = step_issues(at, steps[last], reg);
        assert(steps_issues(steps, prefix, reg) == x + y);
        assert forall|i: int| 0 <= i < d.len() implies d[i] == #[trigger] steps[i] by {}
        if x.len() == 0 {
            assert forall|i: int| 0 <= i < d.len() implies good_step(#[trigger] steps[i], reg) by {
                assert(good_step(d[i], reg));
            }
        }
        if forall|i: int| 0 <= i < steps.len() ==> good_step(#[trigger] steps[i], reg) {
            assert forall|i: int| 0 <= i < d.len() implies good_step(#[trigger] d[i], reg) by {
                assert(good_step(steps[i], reg));
            }
        }
        assert forall|i: int|
            0 <= i < steps.len() && !good_step(#[trigger] steps[i], reg) implies told_at(
            steps_issues(steps, prefix, reg),
            place_words(prefix, steps[i].n, i),
        ) by {
            lemma_told_sum(x, y, place_words(prefix, steps[i].n, i));
            if i < last {
                assert(!good_step(d[i], reg));
            } else {
                assert(y[0].location == at);
            }
        }
    }
}

proof fn lemma_assertions_issues(asserts: Seq<Assertion>, reg: Registry)
    ensures
        assertions_issues(asserts, reg).len() == 0 <==> forall|i: int|
            0 <= i < asserts.len() ==> good_assertion(#[trigger] asserts[i], reg),
        forall|i: int|
            0 <= i < asserts.len() && !good_assertion(#[trigger] asserts[i], reg) ==> told_at(
                assertions_issues(asserts, reg),
                place_words("assert "@, asserts[i].n, i),
            ),
    decreases asserts.len(),
{
    if asserts.len() > 0 {
        let d = asserts.drop_last();
        let last = asserts.len() - 1;
        let at = place_words("assert "@, asserts[last].n, last);
        lemma_assertions_issues(d, reg);
        lemma_assertion_issue(at, asserts[last], reg);
        let x = assertions_issues(d, reg);
        let y = assertion_issues(at, asserts[last], reg);
        assert(assertions_issues(asserts, reg) == x + y);
        assert forall|i: int| 0 <= i < d.len() implies d[i] == #[trigger] asserts[i] by {}
        if x.len() == 0 {
            assert forall|i: int| 0 <= i < d.len() implies good_assertion(
                #[trigger] asserts[i],
                reg,
            ) by {
                assert(good_assertion(d[i], reg));
            }
        }
        if forall|i: int| 0 <= i < asserts.len() ==> good_assertion(#[trigger] asserts[i], reg) {
            assert forall|i: int| 0 <= i < d.len() implies good_assertion(#[trigger] d[i], reg) by {
                assert(good_assertion(asserts[i], reg));
            }
        }
        assert forall|i: int|
            0 <= i < asserts.len() && !good_assertion(#[trigger] asserts[i], reg) implies told_at(
            assertions_issues(asserts, reg),
            place_words("assert "@, asserts[i].n, i),
        ) by {
            lemma_told_sum(x, y, place_words("assert "@, asserts[i].n, i));
            if i < last {
                assert(!good_assertion(d[i], reg));
            } else {
                assert(y[0].location == at);
            }
        }
    }
}

/// Nothing stops a case if and only if it has an assertion, and nothing is wrong with any of its
/// steps and assertions: known actions and assertions with what they need, elements that are in the
/// registry and can be found, and for the question whether an element is there one that can be told
/// by more than its place. What is wrong is told with its place.
pub proof fn lemma_what_stops_a_case(case: Case, reg: Registry)
    ensures
        case_issues(case, reg).len() == 0 <==> case.assertions@.len() > 0 && (forall|i: int|
            0 <= i < case.setup@.len() ==> good_step(#[trigger] case.setup@[i], reg)) && (forall|
            i: int,
        |
            0 <= i < case.steps@.len() ==> good_step(#[trigger] case.steps@[i], reg)) && (forall|
            i: int,
        |
            0 <= i < case.assertions@.len() ==> good_assertion(
                #[trigger] case.assertions@[i],
                reg,
            )) && (forall|i: int|
            0 <= i < case.teardown@.len() ==> good_step(#[trigger] case.teardown@[i], reg)),
        forall|i: int|
            0 <= i < case.setup@.len() && !good_step(#[trigger] case.setup@[i], reg) ==> told_at(
                case_issues(case, reg),
                place_words("setup "@, case.setup@[i].n, i),
            ),
        forall|i: int|
            0 <= i < case.steps@.len() && !good_step(#[trigger] case.steps@[i], reg) ==> told_at(
                case_issues(case, reg),
                place_words("step "@, case.steps@[i].n, i),
            ),
        forall|i: int|
            0 <= i < case.assertions@.len() && !good_assertion(#[trigger] case.assertions@[i], reg)
                ==> told_at(
                case_issues(case, reg),
                place_words("assert "@, case.assertions@[i].n, i),
            ),
        forall|i: int|
            0 <= i < case.teardown@.len() && !good_step(#[trigger] case.teardown@[i], reg)
                ==> told_at(
                case_issues(case, reg),
                place_words("teardown "@, case.teardown@[i].n, i),
            ),
{
    lemma_steps_issues(case.setup@, "setup "@, reg);
    lemma_steps_issues(case.steps@, "step "@, reg);
    lemma_assertions_issues(case.assertions@, reg);
    lemma_steps_issues(case.teardown@, "teardown "@, reg);
    let e = crate::script::gate::emptiness_issues(case);
    let a = steps_issues(case.setup@, "setup "@, reg);
    let b = steps_issues(case.steps@, "step "@, reg);
    let c = assertions_issues(case.assertions@, reg);
    let d = steps_issues(case.teardown@, "teardown "@, reg);
    let all = case_issues(case, reg);
    assert(all == e + a + b + c + d);
    assert forall|at: Seq<char>|
        told_at(a, at) || told_at(b, at) || told_at(c, at) || told_at(d, at) implies #[trigger]
        told_at(all, at) by {
        lemma_told_sum(e, a, at);
        lemma_told_sum(e + a, b, at);
        lemma_told_sum(e + a + b, c, at);
        lemma_told_sum(e + a + b + c, d, at);
    }
}

// ---------------------------------------------------------------- all cases

/// What is done with a case: nothing where a filter is given and neither its id nor its title
/// contains it; else it is blocked where something stops it; else it runs, or is found to be in
/// order where nothing is to run.
pub proof fn lemma_what_is_planned(
    case: Case,
    reg: Registry,
    filter: Option<Seq<char>>,
    dry_run: bool,
)
    ensures
        ({
            let p = plan_of(case, reg, filter, dry_run);
            let asked = filter is None || has(case.id@, filter->0) || has(case.title@, filter->0);
            let stopped = case_issues(case, reg).len() > 0;
            &&& p is PassOver <==> !asked
            &&& p is Execute <==> asked && !stopped && !dry_run
            &&& asked && stopped ==> p is Report && (p->Report_0).status == "blocked"@ && (
            p->Report_0).gate == case_issues(case, reg)
            &&& asked && !stopped && dry_run ==> p is Report && (p->Report_0).status
                == "verified"@ && (p->Report_0).gate.len() == 0
            &&& p is Report ==> (p->Report_0).id == case.id@ && (p->Report_0).title == case.title@
                && (p->Report_0).steps.len() == 0 && (p->Report_0).assertions.len() == 0
        }),
{
}

/// What a case comes to: a failure if a step before the assertions or an assertion failed; else
/// skipped if there are assertions and all of them were skipped; else a pass.
pub proof fn lemma_what_a_case_comes_to(ok: bool, asserts: Seq<AssertResultView>)
    ensures
        ({
            let failed = exists|i: int|
                0 <= i < asserts.len() && (#[trigger] asserts[i]).status == AssertStatus::Fail;
            let tested = exists|i: int|
                0 <= i < asserts.len() && (#[trigger] asserts[i]).status != AssertStatus::Skip;
            let v = verdict_of(ok, asserts);
            &&& !ok || failed ==> v == "fail"@
            &&& ok && !failed && asserts.len() > 0 && !tested ==> v == "skip"@
            &&& ok && !failed && (asserts.len() == 0 || tested) ==> v == "pass"@
        }),
{
}

proof fn lemma_count_by_status(
    cases: Seq<crate::script::case::CaseResultView>,
    o: Outcome,
    p: spec_fn(crate::script::case::CaseResultView) -> bool,
)
    requires
        forall|c: crate::script::case::CaseResultView|
            #[trigger] p(c) == (crate::script::suite::counts_as(c.status) == o),
    ensures
        how_many(cases, o) == cases.filter(p).len(),
    decreases cases.len(),
{
    reveal(Seq::filter);
    if cases.len() > 0 {
        lemma_count_by_status(cases.drop_last(), o, p);
        assert(p(cases.last()) == (crate::script::suite::counts_as(cases.last().status) == o));
    }
}

/// How cases are counted: as passed those that passed or were found to be in order, as failed those
/// that failed, as skipped those that were skipped, and as blocked all others.
pub proof fn lemma_how_cases_count(
    total: usize,
    cases: Seq<crate::script::case::CaseResultView>,
    duration_ms: u64,
)
    requires
        cases.len() <= usize::MAX,
    ensures
        ({
            let s = summary_of(total, cases, duration_ms);
            &&& s.total == total && s.duration_ms == duration_ms
            &&& s.pass == cases.filter(
                |c: crate::script::case::CaseResultView|
                    c.status == "pass"@ || c.status == "verified"@,
            ).len()
            &&& s.fail == cases.filter(
                |c: crate::script::case::CaseResultView| c.status == "fail"@,
            ).len()
            &&& s.skip == cases.filter(
                |c: crate::script::case::CaseResultView| c.status == "skip"@,
            ).len()
            &&& s.blocked == cases.filter(
                |c: crate::script::case::CaseResultView|
                    c.status != "pass"@ && c.status != "verified"@ && c.status != "fail"@
                        && c.status != "skip"@,
            ).len()
        }),
{
    reveal_strlit("pass");
    reveal_strlit("verified");
    reveal_strlit("skip");
    reveal_strlit("fail");
    assert("pass"@[0] == 'p' && "skip"@[0] == 's' && "fail"@[0] == 'f');
    assert("verified"@.len() == 8);
    let a = |c: crate::script::case::CaseResultView|
        c.status == "pass"@ || c.status == "verified"@;
    let b = |c: crate::script::case::CaseResultView| c.status == "fail"@;
    let d = |c: crate::script::case::CaseResultView| c.status == "skip"@;
    let e = |c: crate::script::case::CaseResultView|
        c.status != "pass"@ && c.status != "verified"@ && c.status != "fail"@ && c.status
            != "skip"@;
    lemma_count_by_status(cases, Outcome::Pass, a);
    lemma_count_by_status(cases, Outcome::Fail, b);
    lemma_count_by_status(cases, Outcome::Skip, d);
    lemma_count_by_status(cases, Outcome::Blocked, e);
    lemma_filter_len(cases, a);
    lemma_filter_len(cases, b);
    lemma_filter_len(cases, d);
    lemma_filter_len(cases, e);
}

proof fn lemma_filter_len(
    cases: Seq<crate::script::case::CaseResultView>,
    p: spec_fn(crate::script::case::CaseResultView) -> bool,
)
    ensures
        cases.filter(p).len() <= cases.len(),
    decreases cases.len(),
{
    reveal(Seq::filter);
    if cases.len() > 0 {
        lemma_filter_len(cases.drop_last(), p);
    }
}

/// Files of cases are those whose names end in `.yaml` or `.yml`, with something before it.
pub proof fn lemma_which_files_are_cases(stem: Seq<char>)
    requires
        stem.len() > 0,
    ensures
        yaml_name(stem + ".yaml"@),
        yaml_name(stem + ".yml"@),
        !yaml_name(stem + ".json"@),
        !yaml_name(stem + ".yaml.bak"@),
        !yaml_name(".yaml"@),
        !yaml_name(".yml"@),
{
    reveal_strlit(".yaml");
    reveal_strlit(".yml");
    reveal_strlit(".json");
    reveal_strlit(".yaml.bak");
    let a = stem + ".yaml"@;
    let b = stem + ".yml"@;
    let c = stem + ".json"@;
    let d = stem + ".yaml.bak"@;
    assert(a.subrange(a.len() - 5, a.len() as int) =~= ".yaml"@);
    assert(b.subrange(b.len() - 4, b.len() as int) =~= ".yml"@);
    assert(c.last() == 'n' && d.last() == 'k');
    assert(".yaml"@.last() == 'l' && ".yml"@.last() == 'l');
    assert(c.subrange(c.len() - 5, c.len() as int).last() == 'n');
    assert(c.subrange(c.len() - 4, c.len() as int).last() == 'n');
    assert(d.subrange(d.len() - 5, d.len() as int).last() == 'k');
    assert(d.subrange(d.len() - 4, d.len() as int).last() == 'k');
    assert(".yaml"@[1] == 'y' && ".yml"@[0] == '.');
    assert(".yaml"@.subrange(1, 5)[0] == 'y');
}

} // verus!
