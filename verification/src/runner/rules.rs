//! What a run does when, in plain numbers and words.

use vstd::prelude::*;

use crate::model::action::action_key_of;
use crate::model::action::kind_of;
use crate::model::action::label_of;
use crate::model::action::target_key_of;
use crate::model::action::ActionView;
use crate::model::action::SwipeDir;
use crate::model::action::TargetView;
use crate::model::node::tap_point;
use crate::model::node::HierarchyView;
use crate::model::node::NodeView;
use crate::model::rect::Rect;
use crate::monitor::collect::IncidentView;
use crate::monitor::line::IncidentKind;
use crate::runner::act::dismissal;
use crate::runner::incident::body_of;
use crate::runner::incident::evidence_for;
use crate::runner::incident::file_of;
use crate::runner::incident::findings_text;
use crate::runner::incident::shot_of;
use crate::runner::incident::thumb_of;
use crate::runner::incident::Evidence;
use crate::runner::incident::Finding;
use crate::runner::options::config_of;
use crate::runner::options::RunOptions;
use crate::runner::travel::arrived_at;
use crate::runner::travel::away_from;
use crate::runner::travel::begun;
use crate::runner::travel::deciding;
use crate::runner::travel::explored;
use crate::runner::travel::kept_incident;
use crate::runner::travel::led_to;
use crate::runner::travel::returning;
use crate::runner::travel::stepped;
use crate::runner::travel::stop_of;
use crate::runner::travel::DecisionView;
use crate::runner::travel::Glance;
use crate::runner::travel::PendingView;
use crate::runner::travel::Return;
use crate::runner::travel::Stop;
use crate::runner::travel::TraversalView;
use crate::session::anrs_in;
use crate::session::crashes_in;
use crate::session::record_of;
use crate::session::StepRecordView;
use crate::strategy::explorer::state_id;
use crate::strategy::explorer::ExplorerView;
use crate::strategy::states::lemma_has_in_sum;
use crate::text::number::dec;
use crate::text::number::zero_padded;
use crate::text::search::has;
use crate::text::search::space;
use crate::text::search::trimmed;

verus! {

/// A run ends by itself if and only if it was told to, a file says so, it has a time and that is
/// up, or it has a number of steps and has done them. What was asked for comes before what was
/// planned.
pub proof fn lemma_when_a_run_ends(
    steps: int,
    asked: bool,
    file: bool,
    elapsed: u64,
    limit: u64,
    max: usize,
)
    ensures
        ({
            let r = stop_of(steps, asked, file, elapsed, limit, max);
            let late = limit != 0 && elapsed >= limit;
            let done = max != 0 && steps >= max;
            &&& r is None <==> !asked && !file && !late && !done
            &&& r == Some(Stop::Asked) <==> asked
            &&& r == Some(Stop::File) <==> file && !asked
            &&& r == Some(Stop::Time) <==> late && !asked && !file
            &&& r == Some(Stop::Steps) <==> done && !late && !asked && !file
        }),
{
}

/// The app is in front if and only if the activity in front is one of it.
pub proof fn lemma_when_the_app_is_in_front(activity: Seq<char>, package: Seq<char>)
    requires
        package.len() > 0,
    ensures
        !away_from(activity, package) <==> package.len() <= activity.len() && activity.take(
            package.len() as int,
        ) == package,
{
    if package.len() <= activity.len() {
        assert(activity.take(package.len() as int) =~= activity.subrange(
            0,
            package.len() as int,
        ));
    }
}

/// Outside the app, the device is lost with the third look in a row that shows nothing. Else the
/// run waits three times and at the fourth time starts the app again, unless it did so as often as
/// it may, which ends it. It goes back each time unless a dialog was closed, and nothing else about
/// the run changes.
pub proof fn lemma_ways_back_into_the_app(v: TraversalView, glance: Glance, max: usize)
    requires
        0 <= v.away_count <= 3,
        0 <= v.dump_streak <= 2,
        0 <= v.relaunches < usize::MAX,
    ensures
        ({
            let (r, after) = returning(v, glance, max);
            let lost = glance == Glance::Blind && v.dump_streak == 2;
            let back = glance != Glance::Dismissed;
            &&& r == Return::Lost <==> lost
            &&& lost ==> after == v
            &&& !lost && v.away_count < 3 ==> r == Return::Wait { back } && after.away_count
                == v.away_count + 1 && after.relaunches == v.relaunches
            &&& !lost && v.away_count == 3 && v.relaunches < max ==> after.relaunches
                == v.relaunches + 1 && r == Return::Restart { back, nth: after.relaunches as usize }
                && after.away_count == 0
            &&& !lost && v.away_count == 3 && v.relaunches >= max ==> r == Return::End { back }
                && after.away_count == 0 && after.relaunches == v.relaunches
            &&& !lost && glance == Glance::Blind ==> after.dump_streak == v.dump_streak + 1
            &&& glance != Glance::Blind ==> after.dump_streak == 0
            &&& after.steps == v.steps && after.incidents == v.incidents && after.pending
                == v.pending && after.step_index == v.step_index && after.back_streak
                == v.back_streak && after.dump_fails == v.dump_fails && after.incident_seq
                == v.incident_seq
        }),
{
}

/// Inside the app the action that was chosen is taken; where the run is stuck it goes back in its
/// place, and so it does where none was chosen. At the eighth time in a row with none it starts the
/// app again, unless it did so as often as it may, which ends it.
pub proof fn lemma_what_is_decided(
    v: TraversalView,
    chosen: Option<ActionView>,
    stuck: bool,
    max: usize,
)
    requires
        0 <= v.back_streak <= 7,
        0 <= v.relaunches < usize::MAX,
    ensures
        ({
            let (d, after) = deciding(v, chosen, stuck, max);
            &&& chosen is Some && !stuck ==> d == DecisionView::Act(chosen->0)
            &&& chosen is Some && stuck ==> d == DecisionView::Act(ActionView::Back)
            &&& chosen is Some ==> after.back_streak == 0 && after.relaunches == v.relaunches
            &&& chosen is None && v.back_streak < 7 ==> d == DecisionView::Act(ActionView::Back)
                && after.back_streak == v.back_streak + 1 && after.relaunches == v.relaunches
            &&& chosen is None && v.back_streak == 7 && v.relaunches < max ==> after.relaunches
                == v.relaunches + 1 && d == DecisionView::Restart(after.relaunches as usize)
                && after.back_streak == 0
            &&& chosen is None && v.back_streak == 7 && v.relaunches >= max ==> d
                == DecisionView::End && after.relaunches == v.relaunches && after.back_streak == 0
            &&& after.steps == v.steps && after.incidents == v.incidents && after.pending
                == v.pending && after.step_index == v.step_index && after.away_count
                == v.away_count && after.dump_fails == v.dump_fails && after.dump_streak
                == v.dump_streak && after.incident_seq == v.incident_seq
        }),
{
}

/// At its start nothing has happened in a run.
pub proof fn lemma_nothing_has_happened()
    ensures
        begun().step_index == 0 && begun().relaunches == 0 && begun().incident_seq == 0,
        begun().back_streak == 0 && begun().away_count == 0,
        begun().dump_fails == 0 && begun().dump_streak == 0,
        begun().pending is None && begun().steps.len() == 0 && begun().incidents.len() == 0,
{
}

/// A step adds its record behind the others and waits for where it leads.
pub proof fn lemma_steps_are_counted(
    v: TraversalView,
    a: ActionView,
    state: u64,
    rec: StepRecordView,
)
    requires
        0 <= v.step_index < usize::MAX,
    ensures
        ({
            let after = stepped(v, a, state, rec);
            &&& after.step_index == v.step_index + 1
            &&& after.steps.len() == v.steps.len() + 1
            &&& after.steps.last() == rec
            &&& forall|i: int|
                0 <= i < v.steps.len() ==> #[trigger] after.steps[i] == v.steps[i]
            &&& after.pending is Some
            &&& after.pending->0.from == state
            &&& after.pending->0.step == v.step_index + 1
            &&& after.pending->0.key == action_key_of(a)
            &&& after.incidents == v.incidents && after.relaunches == v.relaunches
                && after.back_streak == v.back_streak && after.away_count == v.away_count
        }),
{
}

/// Where a step led is written into the last record, and into no other.
pub proof fn lemma_where_a_step_led(
    s: Seq<StepRecordView>,
    activity: Seq<char>,
    id: u64,
    is_new: bool,
    i: int,
)
    requires
        0 <= i < s.len(),
    ensures
        arrived_at(s, activity).len() == s.len(),
        led_to(s, id, is_new).len() == s.len(),
        ({
            let a = arrived_at(s, activity)[i];
            let b = led_to(s, id, is_new)[i];
            let last = i == s.len() - 1;
            &&& a.activity_after == if last {
                activity
            } else {
                s[i].activity_after
            }
            &&& b.state_after == if last {
                id
            } else {
                s[i].state_after
            }
            &&& b.new_state == if last {
                is_new
            } else {
                s[i].new_state
            }
            &&& a == StepRecordView { activity_after: a.activity_after, ..s[i] }
            &&& b == StepRecordView {
                state_after: b.state_after,
                new_state: b.new_state,
                ..s[i]
            }
        }),
{
}

/// A look at a screen ends the step that was waiting: one transition is added, from the state that
/// the step was done in to the one that is looked at. Without a step there is none.
pub proof fn lemma_looks_add_transitions(
    v: ExplorerView,
    h: HierarchyView,
    activity: Seq<char>,
    step: usize,
    from: u64,
    key: Seq<char>,
    nth: usize,
)
    ensures
        ({
            let none: Option<PendingView> = None;
            let some = Some(PendingView { from, key, step: nth });
            let a = explored(v, h, activity, step, none);
            let b = explored(v, h, activity, step, some);
            &&& a.transitions == v.transitions
            &&& b.transitions.len() == v.transitions.len() + 1
            &&& b.transitions.drop_last() == v.transitions
            &&& b.transitions.last().from == from
            &&& b.transitions.last().to == state_id(v.cfg.mode, h, activity)
            &&& b.transitions.last().action == key
            &&& b.transitions.last().step == nth
            &&& b.states == a.states && b.activities == a.activities
            &&& b.last_state == Some(b.transitions.last().to)
        }),
{
    let some = Some(PendingView { from, key, step: nth });
    let b = explored(v, h, activity, step, some);
    assert(b.transitions.drop_last() =~= v.transitions);
}

/// The record of a step says what was done, to which widget, where, and from where.
pub proof fn lemma_what_a_record_says(
    nth: usize,
    p: (i32, i32),
    q: (i32, i32),
    t: TargetView,
    text: Seq<char>,
    code: i32,
    dir: SwipeDir,
    ms: u32,
    activity: Seq<char>,
    state: u64,
    elapsed: u64,
    time: Seq<char>,
)
    ensures
        ({
            let r = record_of(
                nth,
                ActionView::Click { target: t, point: p },
                activity,
                state,
                elapsed,
                time,
            );
            &&& r.action_kind == "click"@ && r.target == Some(t) && r.point == Some(p)
            &&& r.points is None && r.text is None
            &&& r.index == nth && r.time == time && r.elapsed_ms == elapsed
            &&& r.activity_before == activity && r.activity_after.len() == 0
            &&& r.state_before == state && r.state_after == state && !r.new_state
            &&& r.screenshot is None && r.thumb is None && r.error is None && r.duration_ms == 0
        }),
        ({
            let r = record_of(
                nth,
                ActionView::LongClick { target: t, point: p },
                activity,
                state,
                elapsed,
                time,
            );
            &&& r.action_kind == "long_click"@ && r.target == Some(t) && r.point == Some(p)
            &&& r.points is None && r.text is None
        }),
        ({
            let r = record_of(
                nth,
                ActionView::Input { target: t, point: p, text },
                activity,
                state,
                elapsed,
                time,
            );
            &&& r.action_kind == "input"@ && r.target == Some(t) && r.point == Some(p)
            &&& r.points is None && r.text == Some(text)
        }),
        ({
            let r = record_of(
                nth,
                ActionView::Swipe { target: Some(t), from: p, to: q, dir, duration_ms: ms },
                activity,
                state,
                elapsed,
                time,
            );
            &&& r.action_kind == "swipe"@ && r.target == Some(t) && r.point is None
            &&& r.points == Some(seq![p, q]) && r.text is None
        }),
        ({
            let r = record_of(nth, ActionView::Back, activity, state, elapsed, time);
            &&& r.action_kind == "back"@ && r.target is None && r.point is None
            &&& r.points is None && r.text is None
        }),
        ({
            let r = record_of(
                nth,
                ActionView::Key { code, name: text },
                activity,
                state,
                elapsed,
                time,
            );
            &&& r.action_kind == "key"@ && r.target is None && r.point is None
            &&& r.points is None && r.text is None
        }),
        ({
            let r = record_of(
                nth,
                ActionView::Launch { component: text },
                activity,
                state,
                elapsed,
                time,
            );
            &&& r.action_kind == "launch"@ && r.target is None && r.point is None
            &&& r.points is None && r.text is None
        }),
{
}

/// A record is called as its action is, and its key is the one by which the action is counted.
pub proof fn lemma_records_are_told_apart(
    nth: usize,
    a: ActionView,
    activity: Seq<char>,
    state: u64,
    elapsed: u64,
    time: Seq<char>,
)
    ensures
        ({
            let r = record_of(nth, a, activity, state, elapsed, time);
            &&& r.action_kind == kind_of(a)
            &&& r.action_label == label_of(a)
            &&& r.action_key == action_key_of(a)
            &&& r.target is Some <==> target_key_of(a) is Some
        }),
{
}

// ---------------------------------------------------------------- incidents

/// Every incident is a crash or an app that did not respond, and is counted once.
pub proof fn lemma_how_incidents_count(s: Seq<IncidentView>)
    ensures
        crashes_in(s) == s.filter(|i: IncidentView| !(i.kind is Anr)).len(),
        anrs_in(s) == s.filter(|i: IncidentView| i.kind is Anr).len(),
        crashes_in(s) + anrs_in(s) == s.len(),
    decreases s.len(),
{
    reveal(Seq::filter);
    if s.len() > 0 {
        lemma_how_incidents_count(s.drop_last());
    }
}

/// An incident is kept with its step, its file and its pictures; what was known of it stays.
pub proof fn lemma_what_is_kept_of_an_incident(
    i: IncidentView,
    step: usize,
    file: Seq<char>,
    big: Seq<char>,
    small: Seq<char>,
)
    ensures
        ({
            let a = kept_incident(i, step, file, Some((big, small)));
            let b = kept_incident(i, step, file, None);
            &&& a.step == Some(step) && b.step == Some(step)
            &&& a.file == Some(file) && b.file == Some(file)
            &&& a.shot == Some(big) && b.shot == i.shot
            &&& small.len() > 0 ==> a.shot_thumb == Some(small)
            &&& small.len() == 0 ==> a.shot_thumb == i.shot_thumb
            &&& b.shot_thumb == i.shot_thumb
            &&& a.kind == i.kind && b.kind == i.kind
            &&& a.time == i.time && b.time == i.time
            &&& a.package == i.package && b.package == i.package
            &&& a.summary == i.summary && b.summary == i.summary
            &&& a.detail == i.detail && b.detail == i.detail
        }),
{
}

/// More is found out about the first three incidents, each where its kind leaves traces.
pub proof fn lemma_where_more_is_found(seq: usize)
    ensures
        seq > 3 ==> evidence_for(IncidentKind::Anr, seq).len() == 0 && evidence_for(
            IncidentKind::Crash,
            seq,
        ).len() == 0 && evidence_for(IncidentKind::NativeCrash, seq).len() == 0,
        seq <= 3 ==> evidence_for(IncidentKind::Anr, seq) == seq![
            Evidence::AnrTraces,
            Evidence::AnrRecords,
        ],
        seq <= 3 ==> evidence_for(IncidentKind::Crash, seq) == seq![Evidence::CrashRecords],
        seq <= 3 ==> evidence_for(IncidentKind::NativeCrash, seq) == seq![
            Evidence::NativeRecords,
            Evidence::Tombstones,
        ],
{
}

/// The files of an incident are told apart by its kind and its number.
pub proof fn lemma_files_of_an_incident(kind: IncidentKind, seq: usize, stamp: Seq<char>)
    ensures
        ({
            let name = match kind {
                IncidentKind::Crash => "crash"@,
                IncidentKind::Anr => "anr"@,
                IncidentKind::NativeCrash => "native_crash"@,
            };
            let digits = if seq < 10 {
                seq!['0'] + dec(seq as int)
            } else {
                dec(seq as int)
            };
            let stem = name + "_"@ + digits;
            &&& file_of(kind, seq, stamp) == "incidents/"@ + stem + "_"@ + stamp + ".txt"@
            &&& shot_of(kind, seq) == "incidents/"@ + stem + ".png"@
            &&& thumb_of(kind, seq) == "thumbs/"@ + stem + ".png"@
        }),
{
    lemma_digits(seq as int);
    reveal_with_fuel(zero_padded, 2);
}

proof fn lemma_digits(n: int)
    requires
        n >= 0,
    ensures
        n < 10 ==> dec(n).len() == 1,
        n >= 10 ==> dec(n).len() >= 2,
{
    reveal_with_fuel(dec, 2);
}

/// The file about an incident holds its summary, its log, its app and its time, what was found out
/// and where its picture is.
pub proof fn lemma_what_the_file_says(i: IncidentView, found: Seq<Finding>, shot: Seq<char>)
    ensures
        ({
            let b = body_of(i, found, Some(shot));
            &&& has(b, "摘要: "@ + i.summary)
            &&& has(b, "---- logcat ----\n"@ + i.detail)
            &&& has(b, "包名: "@ + i.package)
            &&& has(b, "时间: "@ + i.time)
            &&& has(b, findings_text(found))
            &&& has(b, shot)
            &&& forall|n: usize| i.step == Some(n) ==> has(b, "步骤: #"@ + #[trigger] dec(n as int))
        }),
{
    lemma_body(i, found, shot);
}

proof fn lemma_body(i: IncidentView, found: Seq<Finding>, shot: Seq<char>)
    ensures
        ({
            let b = body_of(i, found, Some(shot));
            &&& has(b, "摘要: "@ + i.summary)
            &&& has(b, "---- logcat ----\n"@ + i.detail)
            &&& has(b, "包名: "@ + i.package)
            &&& has(b, "时间: "@ + i.time)
            &&& has(b, findings_text(found))
            &&& has(b, shot)
            &&& forall|n: usize| i.step == Some(n) ==> has(b, "步骤: #"@ + #[trigger] dec(n as int))
        }),
{
    reveal_strlit("\n时间: ");
    reveal_strlit("时间: ");
    reveal_strlit("\n包名: ");
    reveal_strlit("包名: ");
    reveal_strlit("\n\n---- logcat ----\n");
    reveal_strlit("---- logcat ----\n");
    let line = crate::runner::incident::step_line(i.step);
    let f = findings_text(found);
    let p = crate::runner::incident::shot_line(Some(shot));
    let b = body_of(i, found, Some(shot));
    let h0 = "类型: "@ + crate::monitor::line::kind_cn_text(i.kind) + seq!['\n'];
    let t1 = "\n"@ + line + "摘要: "@ + i.summary + "\n\n---- logcat ----\n"@ + i.detail + "\n"@ + f
        + p;
    lemma_within(b, h0, "时间: "@ + i.time, "\n包名: "@ + i.package + t1);
    lemma_within(b, h0 + "时间: "@ + i.time + seq!['\n'], "包名: "@ + i.package, t1);
    let h1 = "类型: "@ + crate::monitor::line::kind_cn_text(i.kind) + "\n时间: "@ + i.time
        + "\n包名: "@ + i.package + "\n"@;
    let t2 = "\n\n---- logcat ----\n"@ + i.detail + "\n"@ + f + p;
    lemma_within(b, h1 + line, "摘要: "@ + i.summary, t2);
    let h2 = h1 + line + "摘要: "@ + i.summary + seq!['\n', '\n'];
    lemma_within(b, h2, "---- logcat ----\n"@ + i.detail, "\n"@ + f + p);
    let h3 = h1 + line + "摘要: "@ + i.summary + "\n\n---- logcat ----\n"@ + i.detail + "\n"@;
    lemma_within(b, h3, f, p);
    lemma_within(b, h3 + f + "\n---- 现场截图 ----\n"@, shot, "\n"@);
    assert forall|n: usize| i.step == Some(n) implies has(
        b,
        "步骤: #"@ + #[trigger] dec(n as int),
    ) by {
        lemma_within(b, h1, "步骤: #"@ + dec(n as int), "\n"@ + "摘要: "@ + i.summary + t2);
    }
}

/// What stands between two parts of a text is in it.
pub proof fn lemma_within(b: Seq<char>, front: Seq<char>, x: Seq<char>, back: Seq<char>)
    requires
        b =~= front + x + back,
    ensures
        has(b, x),
{
    assert(crate::text::search::occurs_at(b, x, front.len() as int)) by {
        assert(b.subrange(front.len() as int, front.len() as int + x.len()) =~= x);
    }
}

/// A finding stands under its heading, unless it is nothing but white space.
pub proof fn lemma_findings_are_kept(s: Seq<Finding>, i: int, k: int)
    requires
        0 <= i < s.len(),
        0 <= k < s[i].text@.len(),
        !space(s[i].text@[k]),
    ensures
        ({
            let heading = match s[i].source {
                Evidence::AnrTraces => "\n---- /data/anr/traces.txt ----\n"@,
                Evidence::AnrRecords => "\n---- dropbox data_app_anr ----\n"@,
                Evidence::CrashRecords => "\n---- dropbox data_app_crash ----\n"@,
                Evidence::NativeRecords => "\n---- dropbox native ----\n"@,
                Evidence::Tombstones => "\n---- tombstone ----\n"@,
            };
            has(findings_text(s), heading + s[i].text@)
        }),
    decreases s.len(),
{
    let heading = crate::runner::incident::heading_of(s[i].source);
    let d = s.drop_last();
    let x = heading + s[i].text@;
    if i == s.len() - 1 {
        lemma_within(findings_text(s), findings_text(d), x, seq![]);
    } else {
        assert(d[i] == s[i]);
        lemma_findings_are_kept(d, i, k);
        let last = s.last();
        if !crate::text::search::blank(last.text@) {
            let h = crate::runner::incident::heading_of(last.source);
            lemma_has_in_sum(findings_text(d), h, x);
            lemma_has_in_sum(findings_text(d) + h, last.text@, x);
        }
    }
}

// ---------------------------------------------------------------- dialogs

/// The words on a button that lets an app go on.
pub open spec fn lets_go_on(id: Seq<char>, words: Seq<char>) -> bool {
    ||| has(id, "permission_allow_button"@)
    ||| has(id, "permission_allow_foreground_only_button"@)
    ||| has(id, "permission_allow_one_time_button"@)
    ||| has(id, "com.android.packageinstaller:id/ok_button"@)
    ||| has(id, "android:id/button1"@)
    ||| words == "允许"@
    ||| words == "始终允许"@
    ||| words == "仅在使用该应用时允许"@
    ||| words == "确定"@
    ||| words == "ALLOW"@
    ||| words == "Allow"@
    ||| words == "OK"@
    ||| words == "关闭应用"@
}

/// The widget is a button of a dialog that can be tapped at the place.
pub open spec fn tapped_at(n: NodeView, screen: Rect, p: (i32, i32)) -> bool {
    &&& lets_go_on(n.resource_id, trimmed(n.text))
    &&& n.clickable || (n.children.len() == 0 && (n.text.len() > 0 || n.content_desc.len() > 0))
    &&& tap_point(n, screen) == Some(p)
}

/// A dialog is closed by the first of its buttons; none is closed where there is no such button.
pub proof fn lemma_which_dialogs_are_closed(s: Seq<NodeView>, screen: Rect)
    ensures
        match dismissal(s, screen) {
            Some(p) => exists|i: int|
                #![trigger s[i]]
                0 <= i < s.len() && tapped_at(s[i], screen, p) && forall|j: int, q: (i32, i32)|
                    0 <= j < i ==> !(#[trigger] tapped_at(s[j], screen, q)),
            None => forall|j: int, q: (i32, i32)|
                0 <= j < s.len() ==> !(#[trigger] tapped_at(s[j], screen, q)),
        },
    decreases s.len(),
{
    if s.len() > 0 {
        let t = s.skip(1);
        assert forall|j: int| 0 <= j < t.len() implies t[j] == #[trigger] s[j + 1] by {}
        lemma_which_dialogs_are_closed(t, screen);
        if crate::runner::act::closes_dialog(s[0]) && tap_point(s[0], screen) is Some {
            assert(tapped_at(s[0], screen, tap_point(s[0], screen)->0));
        } else {
            assert forall|q: (i32, i32)| !(#[trigger] tapped_at(s[0], screen, q)) by {}
            match dismissal(t, screen) {
                Some(p) => {
                    let i = choose|i: int|
                        #![trigger t[i]]
                        0 <= i < t.len() && tapped_at(t[i], screen, p) && forall|
                            j: int,
                            q: (i32, i32),
                        |
                            0 <= j < i ==> !(#[trigger] tapped_at(t[j], screen, q));
                    assert(s[i + 1] == t[i]);
                    assert forall|j: int, q: (i32, i32)| 0 <= j < i + 1 implies !(
                    #[trigger] tapped_at(s[j], screen, q)) by {
                        if j > 0 {
                            assert(t[j - 1] == s[j]);
                            assert(!(tapped_at(t[j - 1], screen, q)));
                        }
                    }
                },
                None => {
                    assert forall|j: int, q: (i32, i32)| 0 <= j < s.len() implies !(
                    #[trigger] tapped_at(s[j], screen, q)) by {
                        if j > 0 {
                            assert(t[j - 1] == s[j]);
                            assert(!(tapped_at(t[j - 1], screen, q)));
                        }
                    }
                },
            }
        }
    }
}

// ---------------------------------------------------------------- settings

/// A run explores the app it is asked for, with all kinds of actions, the texts it is given, and at
/// least two looks at a state in a row.
pub proof fn lemma_settings_of_a_run(o: RunOptions)
    ensures
        ({
            let c = config_of(o);
            &&& c.package == o.package@
            &&& c.mode == o.state_mode
            &&& c.long_click && c.input && c.horizontal
            &&& o.max_same_state >= 2 ==> c.max_same_state == o.max_same_state
            &&& o.max_same_state < 2 ==> c.max_same_state == 2
            &&& o.text_pool@.len() > 0 ==> c.pool.len() == o.text_pool@.len()
            &&& forall|i: int|
                0 <= i < o.text_pool@.len() ==> #[trigger] c.pool[i] == o.text_pool@[i]@
        }),
{
}

} // verus!
