//! The course of a case, from one event to the next, and the ways to find widgets by their place.

use vstd::arithmetic::power2::lemma2_to64;
use vstd::arithmetic::power2::lemma_pow2_strictly_increases;
use vstd::arithmetic::power2::lemma_pow2_unfold;
use vstd::arithmetic::power2::pow2;
use vstd::prelude::*;

use crate::model::node::HierarchyView;
use crate::model::node::NodeView;
use crate::model::node::all_nodes;
use crate::model::node::screen_of;
use crate::monitor::collect::Incident;
use crate::monitor::collect::incident_views;
use crate::monitor::line::option_text;
use crate::quotient::lemma_part_of_whole;
use crate::quotient::lemma_quotient_is_near;
use crate::quotient::lemma_rounding_is_small;
use crate::script::case::CaseRunView;
use crate::script::case::CaseTask;
use crate::script::case::Stage;
use crate::script::case::about_crashes;
use crate::script::case::case_task;
use crate::script::case::crash_results;
use crate::script::case::finished_case;
use crate::script::case::looked_in;
use crate::script::case::next_check;
use crate::script::case::performed_in;
use crate::script::case::polled_in;
use crate::script::case::refused_in;
use crate::script::case::slept_in;
use crate::script::case::started;
use crate::script::case::tried_in_case;
use crate::script::check::AssertStatus;
use crate::script::check::OutcomeView;
use crate::script::check::no_crash_of;
use crate::script::ir::Assertion;
use crate::script::ir::Case;
use crate::script::ir::ElementDef;
use crate::script::ir::LocatorDef;
use crate::script::ir::Registry;
use crate::script::ir::element_at;
use crate::script::ir::label_of_element;
use crate::script::ir::lemma_element_at;
use crate::script::ir::merged;
use crate::script::locate::HitView;
use crate::script::locate::found_by;
use crate::script::locate::nth_of_class;
use crate::script::locate::point_at;
use crate::script::steps::action_for;
use crate::script::suite::mode_of;
use crate::single::Single;
use crate::single::exponent;
use crate::single::half_even;
use crate::single::lemma_round24_exact;
use crate::single::mantissa;
use crate::single::quotient;
use crate::single::round24;
use crate::single::rounded_product;
use crate::single::rounded_size;
use crate::text::law::lemma_numbers_are_read_back;
use crate::text::law::lemma_numbers_are_words;
use crate::text::number::dec;
use crate::text::search::char_from;
use crate::text::search::lemma_char_from;
use crate::text::split::behind_last;

verus! {

/// The first thing that a case checks at a place or behind it that is not about crashes.
pub proof fn lemma_next_thing_to_check(s: Seq<Assertion>, i: int)
    requires
        0 <= i <= s.len(),
    ensures
        i <= next_check(s, i) <= s.len(),
        next_check(s, i) < s.len() ==> s[next_check(s, i)].kind@ != "no_crash"@,
        forall|j: int| i <= j < next_check(s, i) ==> (#[trigger] s[j]).kind@ == "no_crash"@,
    decreases s.len() - i,
{
    if i < s.len() && about_crashes(s[i]) {
        lemma_next_thing_to_check(s, i + 1);
    }
}

/// A case begins with what sets it up, else with its steps, else with what it checks.
pub proof fn lemma_how_a_case_begins(case: Case)
    ensures
        ({
            let c = started(case);
            &&& c.ok && c.attempts == 0
            &&& c.steps.len() == 0 && c.assertions.len() == 0 && c.incidents.len() == 0
            &&& case.setup@.len() > 0 ==> c.stage == Stage::Setup && c.run.at == 0 && !c.run.failed
            &&& case.setup@.len() == 0 && case.steps@.len() > 0 ==> c.stage == Stage::Steps
                && c.run.at == 0 && !c.run.failed
            &&& case.setup@.len() == 0 && case.steps@.len() == 0 ==> c.stage == Stage::Assertions
                || c.stage == Stage::Settle
        }),
{
}

/// After a step that was done comes the next one of the same kind. After the last one come: the
/// steps of the case after what sets it up, what it checks after its steps, and the end after what
/// cleans up. What came of the steps stays as it is.
pub proof fn lemma_after_a_step(c: CaseRunView, case: Case)
    requires
        c.run.at < usize::MAX,
        !c.run.failed,
        case.setup@.len() <= usize::MAX,
        case.steps@.len() <= usize::MAX,
        case.teardown@.len() <= usize::MAX,
        c.at <= case.assertions@.len(),
    ensures
        ({
            let d = performed_in(c, case, None);
            &&& d.steps == c.steps
            &&& d.assertions == c.assertions && d.incidents == c.incidents
            &&& c.stage == Stage::Setup && c.run.at + 1 < case.setup@.len() ==> d.stage
                == Stage::Setup && d.run.at == c.run.at + 1 && !d.run.failed
            &&& c.stage == Stage::Setup && c.run.at + 1 >= case.setup@.len() && case.steps@.len()
                > 0 ==> d.stage == Stage::Steps && d.run.at == 0 && !d.run.failed && d.ok
            &&& c.stage == Stage::Steps && c.run.at + 1 < case.steps@.len() ==> d.stage
                == Stage::Steps && d.run.at == c.run.at + 1 && !d.run.failed
            &&& c.stage == Stage::Steps && c.run.at + 1 >= case.steps@.len() ==> d.ok && (d.stage
                == Stage::Assertions || d.stage == Stage::Settle)
            &&& c.stage == Stage::Steps && c.run.at + 1 >= case.steps@.len() && c.at
                < case.assertions@.len() && case.assertions@[c.at as int].kind@ != "no_crash"@
                ==> d.stage == Stage::Assertions && d.at == c.at
            &&& c.stage == Stage::Teardown && c.run.at + 1 < case.teardown@.len() ==> d.stage
                == Stage::Teardown && d.run.at == c.run.at + 1
            &&& c.stage == Stage::Teardown && c.run.at + 1 >= case.teardown@.len() ==> d.stage
                == Stage::Done && d.ok == c.ok
        }),
{
}

/// A step that cannot be performed is marked as failed and says why. Before the assertions it
/// fails the case and none of them is tried; while cleaning up it only ends that.
pub proof fn lemma_after_a_failed_step(c: CaseRunView, case: Case, why: Seq<char>)
    requires
        c.steps.len() > 0,
    ensures
        ({
            let d = performed_in(c, case, Some(why));
            &&& d.steps.len() == c.steps.len()
            &&& !d.steps.last().ok
            &&& d.steps.last().detail == "动作下发失败: "@ + why
            &&& d.steps.drop_last() == c.steps.drop_last()
            &&& d.steps.last().n == c.steps.last().n && d.steps.last().action
                == c.steps.last().action && d.steps.last().stage == c.steps.last().stage
            &&& c.stage == Stage::Setup || c.stage == Stage::Steps ==> d.stage == Stage::Settle
                && !d.ok
            &&& c.stage == Stage::Teardown ==> d.stage == Stage::Done && d.ok == c.ok
            &&& d.assertions == c.assertions
        }),
{
    let d = performed_in(c, case, Some(why));
    assert(d.steps.drop_last() =~= c.steps.drop_last());
}

/// A step that cannot be built leaves a failed result with why, at its own place and stage. The
/// case goes on as after any step that failed.
pub proof fn lemma_after_a_refused_step(c: CaseRunView, case: Case, why: Seq<char>)
    requires
        c.run.at < u32::MAX,
    ensures
        ({
            let d = refused_in(c, case, why);
            let s = match c.stage {
                Stage::Setup => case.setup@[c.run.at as int],
                Stage::Teardown => case.teardown@[c.run.at as int],
                _ => case.steps@[c.run.at as int],
            };
            &&& d.steps.len() == c.steps.len() + 1
            &&& d.steps.drop_last() == c.steps
            &&& !d.steps.last().ok && d.steps.last().detail == why
            &&& d.steps.last().action == s.action@
            &&& s.n is Some ==> d.steps.last().n == s.n->0
            &&& s.n is None ==> d.steps.last().n == c.run.at + 1
            &&& c.stage == Stage::Setup ==> d.steps.last().stage == "setup"@
            &&& c.stage == Stage::Steps ==> d.steps.last().stage == "step"@
            &&& c.stage == Stage::Teardown ==> d.steps.last().stage == "teardown"@
            &&& c.stage == Stage::Setup || c.stage == Stage::Steps ==> d.stage == Stage::Settle
                && !d.ok
            &&& c.stage == Stage::Teardown ==> d.stage == Stage::Done && d.ok == c.ok
        }),
{
    let d = refused_in(c, case, why);
    assert(d.steps.drop_last() =~= c.steps);
}

/// A step that waits leaves a result that succeeded and says how long it was, and counts as done.
pub proof fn lemma_after_a_wait(c: CaseRunView, case: Case, settle_ms: u64)
    requires
        c.run.at < u32::MAX,
        c.stage == Stage::Steps,
        !c.run.failed,
        c.run.at + 1 < case.steps@.len(),
        case.steps@.len() <= usize::MAX,
        case.steps@[c.run.at as int].value is None,
    ensures
        ({
            let d = slept_in(c, case, settle_ms);
            &&& d.steps.len() == c.steps.len() + 1
            &&& d.steps.drop_last() == c.steps
            &&& d.steps.last().ok && d.steps.last().stage == "step"@
            &&& d.steps.last().action == "wait"@
            &&& d.steps.last().detail == "等待 "@ + dec(settle_ms as int) + "ms"@
            &&& d.stage == Stage::Steps && d.run.at == c.run.at + 1 && !d.run.failed
        }),
{
    let d = slept_in(c, case, settle_ms);
    assert(d.steps.drop_last() =~= c.steps);
    let none = Seq::<char>::empty();
    crate::text::search::lemma_trim_front(none);
    assert(crate::text::search::trimmed(none) =~= none);
    assert(crate::text::number::u64_of(none) is None);
}

/// A look at the screen for a step gives an action if and only if the step can be built on it; then
/// the result waits for what comes of the action. A screen that cannot be seen fails the step.
pub proof fn lemma_after_a_look(
    c: CaseRunView,
    case: Case,
    reg: Registry,
    h: HierarchyView,
    e: Seq<char>,
    places: Seq<Option<(Single, Single)>>,
)
    requires
        c.stage == Stage::Steps,
    ensures
        ({
            let s = case.steps@[c.run.at as int];
            let built = action_for(s, reg, h, places);
            let (a, d) = looked_in(c, case, reg, Ok(h), places);
            let (b, f) = looked_in(c, case, reg, Err(e), places);
            &&& a is Some <==> built is Ok
            &&& built is Ok ==> a->0 == (built->Ok_0).0 && d.steps.len() == c.steps.len() + 1
                && d.steps.last().stage == "step"@ && d.stage == c.stage && d.run == c.run
            &&& built is Err ==> d.stage == Stage::Settle && !d.ok && d.steps.last().detail
                == built->Err_0
            &&& b is None && f.stage == Stage::Settle && !f.ok
            &&& f.steps.last().detail == "dump 失败: "@ + e
        }),
{
}

/// A check that passes or is skipped is done; one that fails is tried again until its time is up.
/// Its result says how often it was tried, and the next check comes.
pub proof fn lemma_after_a_check(c: CaseRunView, case: Case, o: OutcomeView, expired: bool)
    requires
        c.stage == Stage::Assertions,
        c.at < case.assertions@.len() <= u32::MAX,
        c.attempts < u32::MAX,
    ensures
        ({
            let d = tried_in_case(c, case, o, expired);
            let a = case.assertions@[c.at as int];
            let again = !o.pass && !o.skipped && !expired;
            &&& again ==> d == CaseRunView { attempts: (c.attempts + 1) as u32, ..c }
            &&& !again ==> {
                let r = d.assertions.last();
                &&& d.assertions.len() == c.assertions.len() + 1
                &&& d.assertions.drop_last() == c.assertions
                &&& d.attempts == 0
                &&& r.kind == a.kind@ && r.expect == option_text(a.expect)
                &&& r.attempts == c.attempts + 1
                &&& a.n is Some ==> r.n == a.n->0
                &&& a.n is None ==> r.n == c.at + 1
                &&& r.status == AssertStatus::Skip <==> o.skipped
                &&& r.status == AssertStatus::Pass <==> o.pass && !o.skipped
                &&& r.status == AssertStatus::Fail <==> !o.pass && !o.skipped
                &&& o.pass || o.skipped ==> r.msg == o.msg
                &&& d.stage == Stage::Assertions || d.stage == Stage::Settle
                &&& c.at + 1 == case.assertions@.len() ==> d.stage == Stage::Settle
                &&& c.at + 1 < case.assertions@.len() && case.assertions@[c.at + 1].kind@
                    != "no_crash"@ ==> d.stage == Stage::Assertions && d.at == c.at + 1
                &&& d.ok == c.ok && d.steps == c.steps
            }
        }),
{
    let d = tried_in_case(c, case, o, expired);
    if o.pass || o.skipped || expired {
        assert(d.assertions.drop_last() =~= c.assertions);
    }
}

/// Every check about crashes has one result, and no other check has one among them.
pub proof fn lemma_crashes_are_checked(s: Seq<Assertion>, o: OutcomeView)
    ensures
        crash_results(s, o).len() == s.filter(|a: Assertion| a.kind@ == "no_crash"@).len(),
        forall|i: int|
            0 <= i < crash_results(s, o).len() ==> {
                let r = #[trigger] crash_results(s, o)[i];
                &&& r.kind == "no_crash"@ && r.msg == o.msg && r.attempts == 1
                &&& r.status == AssertStatus::Skip <==> o.skipped
                &&& r.status == AssertStatus::Pass <==> o.pass && !o.skipped
            },
    decreases s.len(),
{
    reveal(Seq::filter);
    if s.len() > 0 {
        lemma_crashes_are_checked(s.drop_last(), o);
    }
}

/// Once the incidents are known the case is cleaned up, with the results of the checks about crashes
/// behind the others; whether its steps succeeded stays.
pub proof fn lemma_after_the_incidents(
    c: CaseRunView,
    case: Case,
    monitored: bool,
    during: Seq<Incident>,
)
    ensures
        ({
            let d = polled_in(c, case, monitored, during);
            &&& d.incidents == incident_views(during)
            &&& d.assertions == c.assertions + crash_results(
                case.assertions@,
                no_crash_of(monitored, during),
            )
            &&& d.ok == c.ok && d.steps == c.steps
            &&& case.teardown@.len() > 0 ==> d.stage == Stage::Teardown && d.run.at == 0
                && !d.run.failed
            &&& case.teardown@.len() == 0 ==> d.stage == Stage::Done
        }),
{
}

/// What is to be done in a stage: an activity is asked for where the check is about it, and the
/// screen is looked at for any other check.
pub proof fn lemma_what_a_case_wants(c: CaseRunView, case: Case, settle_ms: u64)
    ensures
        c.stage == Stage::Done ==> case_task(c, case, settle_ms) == CaseTask::Finished,
        c.stage == Stage::Settle ==> case_task(c, case, settle_ms) == CaseTask::Poll,
        c.stage == Stage::Assertions && case.assertions@[c.at as int].kind@ == "activity_is"@
            ==> case_task(c, case, settle_ms) == CaseTask::TryActivity(c.at),
        c.stage == Stage::Assertions && case.assertions@[c.at as int].kind@ != "activity_is"@
            ==> case_task(c, case, settle_ms) == CaseTask::TryPage(c.at),
        c.stage == Stage::Teardown && !c.run.failed && c.run.at < case.teardown@.len()
            && case.teardown@[c.run.at as int].action@ != "wait"@ ==> case_task(c, case, settle_ms)
            == CaseTask::Look,
        c.stage == Stage::Setup && !c.run.failed && c.run.at < case.setup@.len()
            && case.setup@[c.run.at as int].action@ != "wait"@ ==> case_task(c, case, settle_ms)
            == CaseTask::Look,
{
}

/// The result of a case is made of the case and of what was recorded.
pub proof fn lemma_result_of_a_case(c: CaseRunView, case: Case, ms: u64)
    ensures
        ({
            let r = finished_case(c, case, ms);
            &&& r.id == case.id@ && r.title == case.title@ && r.priority == case.priority@
            &&& r.duration_ms == ms && r.gate.len() == 0
            &&& r.steps == c.steps && r.assertions == c.assertions && r.incidents == c.incidents
            &&& !c.ok ==> r.status == "fail"@
        }),
{
}

/// How a suite was run: nothing is said to have been executed on a device that was made up.
pub proof fn lemma_how_a_suite_was_run(kind: Seq<char>)
    ensures
        mode_of(true, kind) == "dry-run"@,
        mode_of(false, "mock"@) == "mock"@,
        kind != "mock"@ ==> mode_of(false, kind) == "execute:"@ + kind,
{
}

// ---------------------------------------------------------------- places

/// The widgets of a class in front of a place.
pub open spec fn of_class(nodes: Seq<NodeView>, class: Seq<char>) -> int
    decreases nodes.len(),
{
    if nodes.len() == 0 {
        0
    } else {
        of_class(nodes.drop_last(), class) + if behind_last(nodes.last().class, '.') == class {
            1int
        } else {
            0int
        }
    }
}

proof fn lemma_nth_of_class(nodes: Seq<NodeView>, class: Seq<char>, k: int, i: int)
    requires
        0 <= k,
        0 <= i <= nodes.len(),
    ensures
        match nth_of_class(nodes, class, k, i) {
            Some(j) => i <= j < nodes.len() && behind_last(nodes[j].class, '.') == class
                && of_class(nodes.take(j), class) == of_class(nodes.take(i), class) + k,
            None => of_class(nodes, class) <= of_class(nodes.take(i), class) + k,
        },
    decreases nodes.len() - i,
{
    if i < nodes.len() {
        assert(nodes.take(i + 1).drop_last() =~= nodes.take(i));
        assert(nodes.take(i + 1).last() == nodes[i]);
        if behind_last(nodes[i].class, '.') == class {
            if k > 0 {
                lemma_nth_of_class(nodes, class, k - 1, i + 1);
            }
        } else {
            lemma_nth_of_class(nodes, class, k, i + 1);
        }
    } else {
        assert(nodes.take(i) =~= nodes);
    }
}

/// A class and a number, where numbers count, find the widget of the class that has as many of them
/// in front of it. They find nothing where there are not so many, or where numbers do not count.
pub proof fn lemma_found_by_class_index(
    l: LocatorDef,
    h: HierarchyView,
    positional: bool,
    by_index: bool,
    place: Option<(Single, Single)>,
    class: Seq<char>,
    n: usize,
)
    requires
        l.kind@ == "class_index"@,
        !class.contains('#'),
        l.value@ == class + seq!['#'] + dec(n as int),
    ensures
        ({
            let nodes = all_nodes(h);
            match found_by(l, h, positional, by_index, place) {
                Some(HitView::Node(w)) => by_index && exists|j: int|
                    #![trigger nodes[j]]
                    0 <= j < nodes.len() && w == nodes[j] && behind_last(w.class, '.') == class
                        && of_class(nodes.take(j), class) == n,
                Some(HitView::Point(_, _)) => false,
                None => !by_index || of_class(nodes, class) <= n,
            }
        }),
{
    lemma_kinds_differ();
    let v = l.value@;
    let k = class.len() as int;
    lemma_char_from(v, '#', 0);
    assert(v[k] == '#');
    assert forall|i: int| 0 <= i < k implies v[i] != '#' by {
        assert(v[i] == class[i]);
        assert(class.contains(class[i]));
    }
    assert(char_from(v, '#', 0) == Some(k));
    assert(v.take(k) =~= class);
    assert(v.skip(k + 1) =~= dec(n as int));
    lemma_numbers_are_words(n as int);
    lemma_numbers_are_read_back(n as int);
    let nodes = all_nodes(h);
    lemma_nth_of_class(nodes, class, n as int, 0);
    assert(of_class(nodes.take(0), class) == 0);
    if by_index {
        if let Some(j) = nth_of_class(nodes, class, n as int, 0) {
            assert(found_by(l, h, positional, by_index, place) == Some(HitView::Node(nodes[j])));
        }
    }
}

/// A place finds its point of the screen where places count and the point is on the screen, and
/// nothing else.
pub proof fn lemma_found_by_place(
    l: LocatorDef,
    h: HierarchyView,
    positional: bool,
    by_index: bool,
    part: (Single, Single),
)
    requires
        l.kind@ == "bounds_center"@,
    ensures
        ({
            let (x, y) = point_at(part, screen_of(h));
            let w = if h.width >= 1 {
                h.width as int
            } else {
                1
            };
            let t = if h.height >= 1 {
                h.height as int
            } else {
                1
            };
            let r = found_by(l, h, positional, by_index, Some(part));
            &&& r is Some <==> positional && 0 <= x <= w && 0 <= y <= t
            &&& r is Some ==> r == Some(HitView::Point(x as i32, y as i32))
            &&& found_by(l, h, positional, by_index, None) is None
        }),
{
    lemma_kinds_differ();
}

proof fn lemma_rounded_is_near(n: int, a: int, b: int, m: int, l: int, p: int, x: int)
    requires
        0 <= n < 0x8_0000,
        0 < a <= b,
        0x40_0000 <= l,
        0x80_0000 <= m < 0x100_0000,
        2 * (m * b - a * l) <= b,
        2 * (a * l - m * b) <= b,
        0x100_0000 * (p - n * m) <= n * m,
        0x100_0000 * (n * m - p) <= n * m,
        2 * (x * l - p) <= l,
        2 * (p - x * l) <= l,
    ensures
        x * b <= n * a + b,
        n * a <= x * b + b,
{
    let nb = n * b;
    let bl = b * l;
    let nal = (n * a) * l;
    let nmb = (n * m) * b;
    let pb = p * b;
    let xlb = (x * l) * b;
    assert(2 * (nmb - nal) <= nb && 2 * (nal - nmb) <= nb) by (nonlinear_arith)
        requires
            n >= 0,
            nb == n * b,
            nal == (n * a) * l,
            nmb == (n * m) * b,
            2 * (m * b - a * l) <= b,
            2 * (a * l - m * b) <= b,
    ;
    assert(nal <= 0x8_0000 * bl) by (nonlinear_arith)
        requires
            nal == (n * a) * l,
            bl == b * l,
            0 <= n < 0x8_0000,
            0 < a <= b,
            l > 0,
    ;
    assert(8 * nb <= bl) by (nonlinear_arith)
        requires
            nb == n * b,
            bl == b * l,
            n < 0x8_0000,
            0x40_0000 <= l,
            b > 0,
    ;
    assert(0x100_0000 * (pb - nmb) <= nmb && 0x100_0000 * (nmb - pb) <= nmb) by (nonlinear_arith)
        requires
            pb == p * b,
            nmb == (n * m) * b,
            b > 0,
            0x100_0000 * (p - n * m) <= n * m,
            0x100_0000 * (n * m - p) <= n * m,
    ;
    assert(2 * (xlb - pb) <= bl && 2 * (pb - xlb) <= bl) by (nonlinear_arith)
        requires
            xlb == (x * l) * b,
            pb == p * b,
            bl == b * l,
            b > 0,
            2 * (x * l - p) <= l,
            2 * (p - x * l) <= l,
    ;
    assert(bl > 0) by (nonlinear_arith)
        requires
            bl == b * l,
            b > 0,
            l > 0,
    ;
    assert(xlb <= nal + bl);
    assert(nal <= xlb + bl);
    assert(x * b <= n * a + b) by (nonlinear_arith)
        requires
            xlb == (x * l) * b,
            nal == (n * a) * l,
            bl == b * l,
            l > 0,
            xlb <= nal + bl,
    ;
    assert(n * a <= x * b + b) by (nonlinear_arith)
        requires
            xlb == (x * l) * b,
            nal == (n * a) * l,
            bl == b * l,
            l > 0,
            nal <= xlb + bl,
    ;
}

proof fn lemma_divided(p: int, l: int, x: int)
    requires
        l > 0,
        x == (2 * p + l) / (2 * l),
    ensures
        2 * (x * l - p) <= l,
        2 * (p - x * l) <= l,
{
    assert(x * (2 * l) <= 2 * p + l < (x + 1) * (2 * l)) by (nonlinear_arith)
        requires
            l > 0,
            x == (2 * p + l) / (2 * l),
    ;
    assert(x * (2 * l) == 2 * (x * l) && (x + 1) * (2 * l) == 2 * (x * l) + 2 * l)
        by (nonlinear_arith);
}

proof fn lemma_part_of_side(n: int, a: int, b: int)
    requires
        0 <= n < 0x8_0000,
        0 < a <= b < 0x80_0000,
    ensures
        ({
            let x = rounded_product(n, Single { bits: quotient(a, b) as u32 });
            x * b <= n * a + b && n * a <= x * b + b
        }),
{
    lemma_part_of_whole(a, b);
    lemma_round24_exact(a);
    lemma_round24_exact(b);
    lemma_round24_exact(n);
    lemma2_to64();
    let k = lemma_quotient_is_near(a, b);
    let al = a * pow2(k);
    let m = half_even(al, b);
    let bits = quotient(a, b);
    let f = Single { bits: bits as u32 };
    let q = al / b;
    assert(al == q * b + al % b && 0 <= al % b < b) by (nonlinear_arith)
        requires
            b > 0,
            q == al / b,
    ;
    assert((q + 1) * b == q * b + b) by (nonlinear_arith);
    assert(2 * (m * b - al) <= b && 2 * (al - m * b) <= b);
    assert(k >= 23) by {
        if k < 23 {
            lemma_pow2_strictly_increases(k, 23);
            assert(al < b * 0x80_0000) by (nonlinear_arith)
                requires
                    al == a * pow2(k),
                    0 < a <= b,
                    pow2(k) < 0x80_0000,
            ;
        }
    }
    if k > 23 {
        lemma_pow2_strictly_increases(23, k);
    }
    if m < 0x100_0000 {
        lemma_part_of_side_by(n, a, b, f, m, k);
    } else {
        let j = (k - 1) as nat;
        lemma_pow2_unfold(k);
        let h = pow2(j) as int;
        assert(al == 2 * (a * h)) by (nonlinear_arith)
            requires
                al == a * pow2(k),
                pow2(k) == 2 * pow2(j),
                h == pow2(j),
        ;
        assert(m * b == 2 * (0x80_0000 * b)) by (nonlinear_arith)
            requires
                m == 0x100_0000,
        ;
        lemma_part_of_side_by(n, a, b, f, 0x80_0000, j);
    }
}

proof fn lemma_part_of_side_by(n: int, a: int, b: int, f: Single, m: int, k: nat)
    requires
        0 <= n < 0x8_0000,
        0 < a <= b < 0x80_0000,
        0x80_0000 <= m < 0x100_0000,
        22 <= k <= 88,
        pow2(k) >= 0x40_0000,
        2 * (m * b - a * pow2(k)) <= b,
        2 * (a * pow2(k) - m * b) <= b,
        f.bits < 0x8000_0000,
        exponent(f) == 150 - k,
        mantissa(f) == m,
    ensures
        ({
            let x = rounded_product(n, f);
            x * b <= n * a + b && n * a <= x * b + b
        }),
{
    lemma_round24_exact(n);
    let l = pow2(k) as int;
    let p = round24(n * m);
    assert(n * m >= 0) by (nonlinear_arith)
        requires
            n >= 0,
            m > 0,
    ;
    lemma_rounding_is_small(n * m);
    let x = (2 * p + l) / (2 * l);
    assert(rounded_size(n, f) == x);
    lemma_divided(p, l, x);
    lemma_rounded_is_near(n, a, b, m, l, p, x);
    assert(n * a <= n * b) by (nonlinear_arith)
        requires
            0 <= n,
            a <= b,
    ;
    assert(-1 <= x <= n + 1) by (nonlinear_arith)
        requires
            x * b <= n * a + b,
            n * a <= x * b + b,
            n * a <= n * b,
            0 <= n * a,
            b > 0,
    ;
}

/// A place is a part of the width, and a part of the height: the first number leads as far from the
/// left edge, and the second as far from the upper edge, up to one unit.
pub proof fn lemma_places_are_parts(h: HierarchyView, a: int, b: int, c: int, d: int)
    requires
        0 < h.width < 0x8_0000,
        0 < h.height < 0x8_0000,
        0 < a <= b < 0x80_0000,
        0 < c <= d < 0x80_0000,
    ensures
        ({
            let (x, y) = point_at(
                (
                    Single { bits: quotient(a, b) as u32 },
                    Single { bits: quotient(c, d) as u32 },
                ),
                screen_of(h),
            );
            &&& x * b <= h.width * a + b && h.width * a <= x * b + b
            &&& y * d <= h.height * c + d && h.height * c <= y * d + d
        }),
{
    lemma_part_of_side(h.width as int, a, b);
    lemma_part_of_side(h.height as int, c, d);
}

proof fn lemma_kinds_differ()
    ensures
        crate::script::locate::feature_of("class_index"@) is None,
        crate::script::locate::feature_of("bounds_center"@) is None,
        "class_index"@ != "bounds_center"@,
{
    reveal_strlit("class_index");
    reveal_strlit("bounds_center");
    reveal_strlit("resource_id");
    reveal_strlit("content_desc");
    reveal_strlit("text");
    reveal_strlit("content_desc_regex");
    reveal_strlit("text_regex");
    assert("class_index"@.len() == 11 && "bounds_center"@.len() == 13);
    assert("resource_id"@.len() == 11 && "content_desc"@.len() == 12 && "text"@.len() == 4);
    assert("content_desc_regex"@.len() == 18 && "text_regex"@.len() == 10);
    assert("class_index"@[0] == 'c' && "resource_id"@[0] == 'r');
}

// ---------------------------------------------------------------- elements

/// Of several files, the first that defines an element counts; every element is kept, and none is
/// kept twice.
pub proof fn lemma_first_definition_counts(s: Seq<ElementDef>, e: ElementDef, id: Seq<char>)
    ensures
        ({
            let m = merged(s, seq![e]);
            let known = exists|i: int| 0 <= i < s.len() && (#[trigger] s[i]).id@ == e.id@;
            &&& known ==> m == s
            &&& !known ==> m == s.push(e)
        }),
        element_at(s, id) < s.len() <==> exists|i: int|
            0 <= i < s.len() && (#[trigger] s[i]).id@ == id,
        element_at(s, id) < s.len() ==> s[element_at(s, id)].id@ == id && forall|j: int|
            0 <= j < element_at(s, id) ==> (#[trigger] s[j]).id@ != id,
{
    lemma_where_an_element_is(s, id);
    lemma_where_an_element_is(s, e.id@);
    assert(seq![e].drop_last() =~= seq![]);
    assert(seq![e].last() == e);
    assert(merged(s, seq![]) == s);
}

proof fn lemma_where_an_element_is(s: Seq<ElementDef>, id: Seq<char>)
    ensures
        0 <= element_at(s, id) <= s.len(),
        element_at(s, id) < s.len() <==> exists|i: int|
            0 <= i < s.len() && (#[trigger] s[i]).id@ == id,
        element_at(s, id) < s.len() ==> s[element_at(s, id)].id@ == id && forall|j: int|
            0 <= j < element_at(s, id) ==> (#[trigger] s[j]).id@ != id,
    decreases s.len(),
{
    lemma_element_at(s, id);
    if s.len() > 0 {
        let d = s.drop_last();
        lemma_where_an_element_is(d, id);
        assert forall|j: int| 0 <= j < d.len() implies d[j] == #[trigger] s[j] by {}
        if element_at(d, id) < d.len() {
            assert(s[element_at(d, id)].id@ == id);
        } else {
            assert forall|j: int| 0 <= j < d.len() implies (#[trigger] s[j]).id@ != id by {
                assert(d[j].id@ != id);
            }
            if s.last().id@ == id {
                assert(s[s.len() - 1].id@ == id);
            }
        }
    }
}

/// An element is called by what it means, or by its id where that is not known.
pub proof fn lemma_what_an_element_is_called(e: ElementDef)
    ensures
        e.semantic@.len() > 0 ==> label_of_element(e) == e.semantic@,
        e.semantic@.len() == 0 ==> label_of_element(e) == e.id@,
{
}

} // verus!
