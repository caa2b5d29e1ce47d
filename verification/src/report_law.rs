//! What the report on a run shows.

use vstd::arithmetic::power2::lemma2_to64;
use vstd::prelude::*;

use crate::decimal::percent;
use crate::markup::escaped;
use crate::model::action::TargetView;
use crate::monitor::collect::IncidentView;
use crate::monitor::line::kind_cn_text;
use crate::monitor::line::IncidentKind;
use crate::quotient::bits_of;
use crate::quotient::lemma_part_of_whole;
use crate::quotient::lemma_quotient_against;
use crate::quotient::lemma_quotient_is_near;
use crate::report::activity_block;
use crate::report::activity_row;
use crate::report::activity_rows;
use crate::report::button_of;
use crate::report::card_of;
use crate::report::coverage_sub;
use crate::report::error_block;
use crate::report::incident_block;
use crate::report::incident_blocks;
use crate::report::incident_sub;
use crate::report::incidents_of;
use crate::report::level_of;
use crate::report::log_link;
use crate::report::metrics_of;
use crate::report::name_of_kind;
use crate::report::new_chip;
use crate::report::open_of;
use crate::report::picture_of;
use crate::report::scene_of;
use crate::report::shot_link;
use crate::report::shots_in;
use crate::report::step_block;
use crate::report::step_blocks;
use crate::report::step_chip;
use crate::report::tag_of;
use crate::report::target_block;
use crate::report::timeline_of;
use crate::report::untouched_of;
use crate::report::widget_row;
use crate::report::widget_rows;
use crate::runner::rules::lemma_within;
use crate::session::anrs_in;
use crate::session::crashes_in;
use crate::session::SessionView;
use crate::session::StepRecordView;
use crate::single::exponent;
use crate::single::lemma_round24_exact;
use crate::single::quotient;
use crate::single::Single;
use crate::strategy::coverage::ActivityCoverageView;
use crate::strategy::coverage::CoverageView;
use crate::strategy::record::StatView;
use crate::strategy::states::lemma_has_in_sum;
use crate::text::law::lemma_has_part;
use crate::text::law::lemma_has_two;
use crate::text::law::lemma_run_on_more;
use crate::text::law::lemma_run_on_one;
use crate::text::law::run_on;
use crate::text::number::dec;
use crate::text::search::has;

verus! {

/// A share of three fifths is good, one of three tenths is fair, and less is bad, but for what a
/// number of single precision cannot tell.
pub proof fn lemma_how_good_a_share_is(part: int, whole: int)
    requires
        0 <= part <= whole,
        0 < whole < 0x80_0000,
    ensures
        ({
            let l = level_of(Single { bits: quotient(part, whole) as u32 });
            &&& 1000 * part >= 601 * whole ==> l == "ok"@
            &&& 301 * whole <= 1000 * part <= 599 * whole ==> l == "warn"@
            &&& 1000 * part <= 299 * whole ==> l == "bad"@
        }),
{
    lemma_part_of_whole(part, whole);
    lemma_round24_exact(part);
    lemma_round24_exact(whole);
    lemma2_to64();
    let f = Single { bits: quotient(part, whole) as u32 };
    if part > 0 {
        let k = lemma_quotient_is_near(part, whole);
        lemma_quotient_against(part, whole, 0x99_999a, 24);
        lemma_quotient_against(part, whole, 0x99_999a, 25);
        assert(bits_of(0x99_999a, 24) == 0x3f19_999a);
        assert(bits_of(0x99_999a, 25) == 0x3e99_999a);
    }
    assert(f.bits == quotient(part, whole));
    assert(exponent(f) < 255);
}

/// The pictures are counted that were taken.
pub proof fn lemma_pictures_are_counted(s: Seq<StepRecordView>)
    ensures
        shots_in(s) == s.filter(|r: StepRecordView| r.screenshot is Some).len(),
    decreases s.len(),
{
    reveal(Seq::filter);
    if s.len() > 0 {
        lemma_pictures_are_counted(s.drop_last());
    }
}

/// A card shows its title, its value and what is said below.
pub proof fn lemma_what_a_card_shows(title: Seq<char>, value: Seq<char>, sub: Seq<char>, class: Seq<char>)
    ensures
        has(card_of(title, value, sub, class), "<div class=\"card "@ + class),
        has(card_of(title, value, sub, class), "\"><div class=\"card-t\">"@ + escaped(title)),
        has(card_of(title, value, sub, class), "</div><div class=\"card-v\">"@ + escaped(value)),
        has(card_of(title, value, sub, class), "</div><div class=\"card-s\">"@ + escaped(sub)),
{
    let q1 = seq!["<div class=\"card "@];
    lemma_run_on_one("<div class=\"card "@);
    let q2 = q1.push(class);
    lemma_run_on_more(q1, class);
    let q3 = q2.push("\"><div class=\"card-t\">"@);
    lemma_run_on_more(q2, "\"><div class=\"card-t\">"@);
    let q4 = q3.push(escaped(title));
    lemma_run_on_more(q3, escaped(title));
    let q5 = q4.push("</div><div class=\"card-v\">"@);
    lemma_run_on_more(q4, "</div><div class=\"card-v\">"@);
    let q6 = q5.push(escaped(value));
    lemma_run_on_more(q5, escaped(value));
    let q7 = q6.push("</div><div class=\"card-s\">"@);
    lemma_run_on_more(q6, "</div><div class=\"card-s\">"@);
    let q8 = q7.push(escaped(sub));
    lemma_run_on_more(q7, escaped(sub));
    let q9 = q8.push("</div></div>"@);
    lemma_run_on_more(q8, "</div></div>"@);
    assert(card_of(title, value, sub, class) == run_on(q9));
    assert(q9[0] == "<div class=\"card "@);
    assert(q9[1] == class);
    assert(q9[2] == "\"><div class=\"card-t\">"@);
    assert(q9[3] == escaped(title));
    assert(q9[4] == "</div><div class=\"card-v\">"@);
    assert(q9[5] == escaped(value));
    assert(q9[6] == "</div><div class=\"card-s\">"@);
    assert(q9[7] == escaped(sub));
    lemma_has_two(q9, 0);
    lemma_has_two(q9, 2);
    lemma_has_two(q9, 4);
    lemma_has_two(q9, 6);
}

/// Under the coverage stand the widgets that were used and those that there were, of those that can
/// be used and of all.
pub proof fn lemma_what_coverage_says(c: CoverageView)
    ensures
        has(coverage_sub(c), dec(c.interactive_touched) + " / "@),
        has(coverage_sub(c), " / "@ + dec(c.interactive_nodes)),
        has(coverage_sub(c), " · 全部节点 "@ + dec( c.touched_nodes, )),
        has(coverage_sub(c), " / "@ + dec(c.total_nodes)),
        has(coverage_sub(c), " = "@ + percent(Single { bits: c.node_coverage as u32 })),
{
    let q1 = seq![dec(c.interactive_touched)];
    lemma_run_on_one(dec(c.interactive_touched));
    let q2 = q1.push(" / "@);
    lemma_run_on_more(q1, " / "@);
    let q3 = q2.push(dec(c.interactive_nodes));
    lemma_run_on_more(q2, dec(c.interactive_nodes));
    let q4 = q3.push(" · 全部节点 "@);
    lemma_run_on_more(q3, " · 全部节点 "@);
    let q5 = q4.push(dec( c.touched_nodes, ));
    lemma_run_on_more(q4, dec( c.touched_nodes, ));
    let q6 = q5.push(" / "@);
    lemma_run_on_more(q5, " / "@);
    let q7 = q6.push(dec(c.total_nodes));
    lemma_run_on_more(q6, dec(c.total_nodes));
    let q8 = q7.push(" = "@);
    lemma_run_on_more(q7, " = "@);
    let q9 = q8.push(percent(Single { bits: c.node_coverage as u32 }));
    lemma_run_on_more(q8, percent(Single { bits: c.node_coverage as u32 }));
    assert(coverage_sub(c) == run_on(q9));
    assert(q9[0] == dec(c.interactive_touched));
    assert(q9[1] == " / "@);
    assert(q9[2] == dec(c.interactive_nodes));
    assert(q9[3] == " · 全部节点 "@);
    assert(q9[4] == dec( c.touched_nodes, ));
    assert(q9[5] == " / "@);
    assert(q9[6] == dec(c.total_nodes));
    assert(q9[7] == " = "@);
    assert(q9[8] == percent(Single { bits: c.node_coverage as u32 }));
    lemma_has_two(q9, 0);
    lemma_has_two(q9, 1);
    lemma_has_two(q9, 3);
    lemma_has_two(q9, 5);
    lemma_has_two(q9, 7);
}

/// Crashes and apps that did not respond are counted apart.
pub proof fn lemma_what_incidents_say(s: Seq<IncidentView>)
    ensures
        has(incident_sub(s), "crash "@ + dec(crashes_in(s))),
        has(incident_sub(s), " / anr "@ + dec(anrs_in(s))),
{
    let q1 = seq!["crash "@];
    lemma_run_on_one("crash "@);
    let q2 = q1.push(dec(crashes_in(s)));
    lemma_run_on_more(q1, dec(crashes_in(s)));
    let q3 = q2.push(" / anr "@);
    lemma_run_on_more(q2, " / anr "@);
    let q4 = q3.push(dec(anrs_in(s)));
    lemma_run_on_more(q3, dec(anrs_in(s)));
    assert(incident_sub(s) == run_on(q4));
    assert(q4[0] == "crash "@);
    assert(q4[1] == dec(crashes_in(s)));
    assert(q4[2] == " / anr "@);
    assert(q4[3] == dec(anrs_in(s)));
    lemma_has_two(q4, 0);
    lemma_has_two(q4, 2);
}

/// The cards show the steps, the activities, the states, the coverage of the widgets that can be
/// used, the pictures and the incidents, in that order; incidents are bad.
pub proof fn lemma_what_the_cards_are(s: SessionView)
    ensures
        ({
            let t = metrics_of(s);
            let reached = Single { bits: s.coverage.interactive_coverage as u32 };
            &&& has(t, card_of("执行步骤"@, dec(s.steps.len() as int), "步"@, ""@))
            &&& has(t, card_of("Activity 覆盖"@, dec(s.coverage.activity_count), "个"@, "accent"@))
            &&& has(t, card_of("状态去重"@, dec(s.state_count as int), "个"@, ""@))
            &&& has(
                t,
                card_of("控件覆盖率"@, percent(reached), coverage_sub(s.coverage), level_of(reached)),
            )
            &&& has(t, card_of("截图"@, dec(shots_in(s.steps)), "张"@, ""@))
            &&& s.incidents.len() == 0 ==> has(
                t,
                card_of("异常"@, dec(0), incident_sub(s.incidents), "ok"@),
            )
            &&& s.incidents.len() > 0 ==> has(
                t,
                card_of("异常"@, dec(s.incidents.len() as int), incident_sub(s.incidents), "bad"@),
            )
        }),
{
    let reached = Single { bits: s.coverage.interactive_coverage as u32 };
    let c1 = card_of("执行步骤"@, dec(s.steps.len() as int), "步"@, ""@);
    let c2 = card_of("Activity 覆盖"@, dec(s.coverage.activity_count), "个"@, "accent"@);
    let c3 = card_of("状态去重"@, dec(s.state_count as int), "个"@, ""@);
    let c4 = card_of("控件覆盖率"@, percent(reached), coverage_sub(s.coverage), level_of(reached));
    let c5 = card_of("截图"@, dec(shots_in(s.steps)), "张"@, ""@);
    let c6 = card_of(
        "异常"@,
        dec(s.incidents.len() as int),
        incident_sub(s.incidents),
        if s.incidents.len() == 0 {
            "ok"@
        } else {
            "bad"@
        },
    );
    let q1 = seq![c1];
    lemma_run_on_one(c1);
    let q2 = q1.push(c2);
    lemma_run_on_more(q1, c2);
    let q3 = q2.push(c3);
    lemma_run_on_more(q2, c3);
    let q4 = q3.push(c4);
    lemma_run_on_more(q3, c4);
    let q5 = q4.push(c5);
    lemma_run_on_more(q4, c5);
    let q6 = q5.push(c6);
    lemma_run_on_more(q5, c6);
    assert(metrics_of(s) == run_on(q6));
    assert(q6[0] == c1 && q6[1] == c2 && q6[2] == c3);
    assert(q6[3] == c4 && q6[4] == c5 && q6[5] == c6);
    lemma_has_part(q6, 0);
    lemma_has_part(q6, 1);
    lemma_has_part(q6, 2);
    lemma_has_part(q6, 3);
    lemma_has_part(q6, 4);
    lemma_has_part(q6, 5);
}

/// An incident is shown with its kind, its summary, its time, its step, its log, the scene and the
/// file about it.
pub proof fn lemma_what_an_incident_shows(i: IncidentView, first: bool)
    ensures
        has(incident_block(i, first), "<details class=\"inc\" "@ + open_of(first)),
        has(incident_block(i, first), "><summary><span class=\"tag "@ + tag_of(i.kind)),
        has(incident_block(i, first), "\">"@ + escaped(kind_cn_text(i.kind))),
        has(incident_block(i, first), "</span><span class=\"inc-sum\">"@ + escaped(i.summary)),
        has(incident_block(i, first), "</span><span class=\"inc-time\">"@ + escaped(i.time)),
        has(incident_block(i, first), "</span>"@ + step_chip(i.step)),
        has(incident_block(i, first), "</summary><pre class=\"stack\">"@ + escaped(i.detail)),
        has(incident_block(i, first), "</pre>"@ + scene_of(i.shot, i.shot_thumb)),
        has(incident_block(i, first), scene_of(i.shot, i.shot_thumb) + log_link(i.file)),
{
    let q1 = seq!["<details class=\"inc\" "@];
    lemma_run_on_one("<details class=\"inc\" "@);
    let q2 = q1.push(open_of(first));
    lemma_run_on_more(q1, open_of(first));
    let q3 = q2.push("><summary><span class=\"tag "@);
    lemma_run_on_more(q2, "><summary><span class=\"tag "@);
    let q4 = q3.push(tag_of(i.kind));
    lemma_run_on_more(q3, tag_of(i.kind));
    let q5 = q4.push("\">"@);
    lemma_run_on_more(q4, "\">"@);
    let q6 = q5.push(escaped(kind_cn_text(i.kind)));
    lemma_run_on_more(q5, escaped(kind_cn_text(i.kind)));
    let q7 = q6.push("</span><span class=\"inc-sum\">"@);
    lemma_run_on_more(q6, "</span><span class=\"inc-sum\">"@);
    let q8 = q7.push(escaped(i.summary));
    lemma_run_on_more(q7, escaped(i.summary));
    let q9 = q8.push("</span><span class=\"inc-time\">"@);
    lemma_run_on_more(q8, "</span><span class=\"inc-time\">"@);
    let q10 = q9.push(escaped(i.time));
    lemma_run_on_more(q9, escaped(i.time));
    let q11 = q10.push("</span>"@);
    lemma_run_on_more(q10, "</span>"@);
    let q12 = q11.push(step_chip(i.step));
    lemma_run_on_more(q11, step_chip(i.step));
    let q13 = q12.push("</summary><pre class=\"stack\">"@);
    lemma_run_on_more(q12, "</summary><pre class=\"stack\">"@);
    let q14 = q13.push(escaped(i.detail));
    lemma_run_on_more(q13, escaped(i.detail));
    let q15 = q14.push("</pre>"@);
    lemma_run_on_more(q14, "</pre>"@);
    let q16 = q15.push(scene_of(i.shot, i.shot_thumb));
    lemma_run_on_more(q15, scene_of(i.shot, i.shot_thumb));
    let q17 = q16.push(log_link(i.file));
    lemma_run_on_more(q16, log_link(i.file));
    let q18 = q17.push("</details>"@);
    lemma_run_on_more(q17, "</details>"@);
    assert(incident_block(i, first) == run_on(q18));
    assert(q18[0] == "<details class=\"inc\" "@);
    assert(q18[1] == open_of(first));
    assert(q18[2] == "><summary><span class=\"tag "@);
    assert(q18[3] == tag_of(i.kind));
    assert(q18[4] == "\">"@);
    assert(q18[5] == escaped(kind_cn_text(i.kind)));
    assert(q18[6] == "</span><span class=\"inc-sum\">"@);
    assert(q18[7] == escaped(i.summary));
    assert(q18[8] == "</span><span class=\"inc-time\">"@);
    assert(q18[9] == escaped(i.time));
    assert(q18[10] == "</span>"@);
    assert(q18[11] == step_chip(i.step));
    assert(q18[12] == "</summary><pre class=\"stack\">"@);
    assert(q18[13] == escaped(i.detail));
    assert(q18[14] == "</pre>"@);
    assert(q18[15] == scene_of(i.shot, i.shot_thumb));
    assert(q18[16] == log_link(i.file));
    lemma_has_two(q18, 0);
    lemma_has_two(q18, 2);
    lemma_has_two(q18, 4);
    lemma_has_two(q18, 6);
    lemma_has_two(q18, 8);
    lemma_has_two(q18, 10);
    lemma_has_two(q18, 12);
    lemma_has_two(q18, 14);
    lemma_has_two(q18, 15);
}

/// An app that did not respond has a mark of its own; only the first incident is open at first; what
/// is not known is not shown.
pub proof fn lemma_marks_of_incidents(k: IncidentKind, f: Seq<char>, t: Seq<char>, n: usize)
    ensures
        tag_of(k) == "tag-anr"@ <==> k is Anr,
        tag_of(k) == "tag-crash"@ <==> !(k is Anr),
        open_of(true) == "open"@,
        open_of(false) == ""@,
        step_chip(None).len() == 0,
        log_link(None).len() == 0,
        scene_of(None, Some(t)).len() == 0,
        has(step_chip(Some(n)), "步骤 #"@ + dec(n as int)),
        has(log_link(Some(f)), escaped(f)),
        has(scene_of(Some(f), Some(t)), "src=\"../"@ + escaped(t)),
        has(scene_of(Some(f), None), "src=\"../"@ + escaped(f)),
        has(scene_of(Some(f), Some(t)), "href=\"../"@ + escaped(f)),
{
    reveal_strlit("tag-anr");
    reveal_strlit("tag-crash");
    assert("tag-anr"@.len() != "tag-crash"@.len());
    reveal_strlit("<span class=\"chip\">步骤 #");
    reveal_strlit("步骤 #");
    let a = "<span class=\"chip\">步骤 #"@;
    let d = dec(n as int);
    assert(a =~= a.take(19) + "步骤 #"@);
    lemma_within(step_chip(Some(n)), a.take(19), "步骤 #"@ + d, "</span>"@);
    lemma_within(
        log_link(Some(f)),
        "<a class=\"lnk\" href=\"../"@,
        escaped(f),
        "\" target=\"_blank\">查看完整日志</a>"@,
    );
    lemma_scene(f, t);
    lemma_scene(f, f);
}

proof fn lemma_scene(f: Seq<char>, t: Seq<char>)
    ensures
        ({
            let x = "<a class=\"inc-shot\" href=\"../"@ + escaped(f)
                + "\" target=\"_blank\"><img loading=\"lazy\" src=\"../"@ + escaped(t)
                + "\" alt=\"现场截图\"></a>"@;
            has(x, "src=\"../"@ + escaped(t)) && has(x, "href=\"../"@ + escaped(f))
        }),
{
    reveal_strlit("<a class=\"inc-shot\" href=\"../");
    reveal_strlit("href=\"../");
    reveal_strlit("\" target=\"_blank\"><img loading=\"lazy\" src=\"../");
    reveal_strlit("src=\"../");
    let a = "<a class=\"inc-shot\" href=\"../"@;
    let b = "\" target=\"_blank\"><img loading=\"lazy\" src=\"../"@;
    let c = "\" alt=\"现场截图\"></a>"@;
    let x = a + escaped(f) + b + escaped(t) + c;
    let h = "href=\"../"@;
    let r = "src=\"../"@;
    let ea = escaped(f);
    let eb = escaped(t);
    assert(a =~= a.take(a.len() - h.len()) + h);
    assert(b =~= b.take(b.len() - r.len()) + r);
    lemma_within(x, a.take(a.len() - h.len()), h + ea, b + eb + c);
    lemma_within(x, a + ea + b.take(b.len() - r.len()), r + eb, c);
}

/// An activity is shown with its name, how often it was met, its first step, the widgets that were
/// seen and used on it, and the share of the two.
pub proof fn lemma_what_an_activity_shows(a: ActivityCoverageView, width: Seq<char>)
    ensures
        has(activity_row(a, width), "<tr>\n<td class=\"mono\">"@ + escaped(a.name)),
        has(activity_row(a, width), "</td>\n<td class=\"num\">"@ + dec(a.visits as int)),
        has(activity_row(a, width), "</td>\n<td class=\"num\">#"@ + dec(a.first_step as int)),
        has(activity_row(a, width), "</td>\n<td class=\"num\">"@ + dec(a.nodes_seen)),
        has(activity_row(a, width), "</td>\n<td class=\"num\">"@ + dec(a.nodes_touched)),
        has(activity_row(a, width), "</td>\n<td><div class=\"bar\"><div class=\"bar-in "@ + level_of(Single { bits: a.coverage as u32 })),
        has(activity_row(a, width), " \" style=\"width:"@ + width),
        has(activity_row(a, width), "%\"></div></div><span class=\"pct "@ + level_of(Single { bits: a.coverage as u32 })),
        has(activity_row(a, width), " \">"@ + percent(Single { bits: a.coverage as u32 })),
{
    let q1 = seq!["<tr>\n<td class=\"mono\">"@];
    lemma_run_on_one("<tr>\n<td class=\"mono\">"@);
    let q2 = q1.push(escaped(a.name));
    lemma_run_on_more(q1, escaped(a.name));
    let q3 = q2.push("</td>\n<td class=\"num\">"@);
    lemma_run_on_more(q2, "</td>\n<td class=\"num\">"@);
    let q4 = q3.push(dec(a.visits as int));
    lemma_run_on_more(q3, dec(a.visits as int));
    let q5 = q4.push("</td>\n<td class=\"num\">#"@);
    lemma_run_on_more(q4, "</td>\n<td class=\"num\">#"@);
    let q6 = q5.push(dec(a.first_step as int));
    lemma_run_on_more(q5, dec(a.first_step as int));
    let q7 = q6.push("</td>\n<td class=\"num\">"@);
    lemma_run_on_more(q6, "</td>\n<td class=\"num\">"@);
    let q8 = q7.push(dec(a.nodes_seen));
    lemma_run_on_more(q7, dec(a.nodes_seen));
    let q9 = q8.push("</td>\n<td class=\"num\">"@);
    lemma_run_on_more(q8, "</td>\n<td class=\"num\">"@);
    let q10 = q9.push(dec(a.nodes_touched));
    lemma_run_on_more(q9, dec(a.nodes_touched));
    let q11 = q10.push("</td>\n<td><div class=\"bar\"><div class=\"bar-in "@);
    lemma_run_on_more(q10, "</td>\n<td><div class=\"bar\"><div class=\"bar-in "@);
    let q12 = q11.push(level_of(Single { bits: a.coverage as u32 }));
    lemma_run_on_more(q11, level_of(Single { bits: a.coverage as u32 }));
    let q13 = q12.push(" \" style=\"width:"@);
    lemma_run_on_more(q12, " \" style=\"width:"@);
    let q14 = q13.push(width);
    lemma_run_on_more(q13, width);
    let q15 = q14.push("%\"></div></div><span class=\"pct "@);
    lemma_run_on_more(q14, "%\"></div></div><span class=\"pct "@);
    let q16 = q15.push(level_of(Single { bits: a.coverage as u32 }));
    lemma_run_on_more(q15, level_of(Single { bits: a.coverage as u32 }));
    let q17 = q16.push(" \">"@);
    lemma_run_on_more(q16, " \">"@);
    let q18 = q17.push(percent(Single { bits: a.coverage as u32 }));
    lemma_run_on_more(q17, percent(Single { bits: a.coverage as u32 }));
    let q19 = q18.push("</span></td>\n</tr>"@);
    lemma_run_on_more(q18, "</span></td>\n</tr>"@);
    assert(activity_row(a, width) == run_on(q19));
    assert(q19[0] == "<tr>\n<td class=\"mono\">"@);
    assert(q19[1] == escaped(a.name));
    assert(q19[2] == "</td>\n<td class=\"num\">"@);
    assert(q19[3] == dec(a.visits as int));
    assert(q19[4] == "</td>\n<td class=\"num\">#"@);
    assert(q19[5] == dec(a.first_step as int));
    assert(q19[6] == "</td>\n<td class=\"num\">"@);
    assert(q19[7] == dec(a.nodes_seen));
    assert(q19[8] == "</td>\n<td class=\"num\">"@);
    assert(q19[9] == dec(a.nodes_touched));
    assert(q19[10] == "</td>\n<td><div class=\"bar\"><div class=\"bar-in "@);
    assert(q19[11] == level_of(Single { bits: a.coverage as u32 }));
    assert(q19[12] == " \" style=\"width:"@);
    assert(q19[13] == width);
    assert(q19[14] == "%\"></div></div><span class=\"pct "@);
    assert(q19[15] == level_of(Single { bits: a.coverage as u32 }));
    assert(q19[16] == " \">"@);
    assert(q19[17] == percent(Single { bits: a.coverage as u32 }));
    lemma_has_two(q19, 0);
    lemma_has_two(q19, 2);
    lemma_has_two(q19, 4);
    lemma_has_two(q19, 6);
    lemma_has_two(q19, 8);
    lemma_has_two(q19, 10);
    lemma_has_two(q19, 12);
    lemma_has_two(q19, 14);
    lemma_has_two(q19, 16);
}

/// A widget that was not used is shown with its class, its name, its id and how often it was seen.
pub proof fn lemma_what_a_widget_shows(n: StatView)
    ensures
        has(widget_row(n), "<tr><td class=\"mono\">"@ + escaped(n.class)),
        has(widget_row(n), "</td><td>"@ + escaped(n.label)),
        has(widget_row(n), "</td><td class=\"mono dim\">"@ + escaped(n.resource_id)),
        has(widget_row(n), "</td><td class=\"num\">"@ + dec(n.seen as int)),
{
    let q1 = seq!["<tr><td class=\"mono\">"@];
    lemma_run_on_one("<tr><td class=\"mono\">"@);
    let q2 = q1.push(escaped(n.class));
    lemma_run_on_more(q1, escaped(n.class));
    let q3 = q2.push("</td><td>"@);
    lemma_run_on_more(q2, "</td><td>"@);
    let q4 = q3.push(escaped(n.label));
    lemma_run_on_more(q3, escaped(n.label));
    let q5 = q4.push("</td><td class=\"mono dim\">"@);
    lemma_run_on_more(q4, "</td><td class=\"mono dim\">"@);
    let q6 = q5.push(escaped(n.resource_id));
    lemma_run_on_more(q5, escaped(n.resource_id));
    let q7 = q6.push("</td><td class=\"num\">"@);
    lemma_run_on_more(q6, "</td><td class=\"num\">"@);
    let q8 = q7.push(dec(n.seen as int));
    lemma_run_on_more(q7, dec(n.seen as int));
    let q9 = q8.push("</td></tr>"@);
    lemma_run_on_more(q8, "</td></tr>"@);
    assert(widget_row(n) == run_on(q9));
    assert(q9[0] == "<tr><td class=\"mono\">"@);
    assert(q9[1] == escaped(n.class));
    assert(q9[2] == "</td><td>"@);
    assert(q9[3] == escaped(n.label));
    assert(q9[4] == "</td><td class=\"mono dim\">"@);
    assert(q9[5] == escaped(n.resource_id));
    assert(q9[6] == "</td><td class=\"num\">"@);
    assert(q9[7] == dec(n.seen as int));
    lemma_has_two(q9, 0);
    lemma_has_two(q9, 2);
    lemma_has_two(q9, 4);
    lemma_has_two(q9, 6);
}

/// The small picture leads to the large one.
pub proof fn lemma_what_a_picture_shows(full: Seq<char>, shown: Seq<char>, index: usize)
    ensures
        has(shot_link(full, shown, index), "<a class=\"shot\" href=\"../"@ + escaped(full)),
        has(shot_link(full, shown, index), "\" target=\"_blank\"><img loading=\"lazy\" src=\"../"@ + escaped(shown)),
        has(shot_link(full, shown, index), "\" alt=\"step "@ + dec(index as int)),
{
    let q1 = seq!["<a class=\"shot\" href=\"../"@];
    lemma_run_on_one("<a class=\"shot\" href=\"../"@);
    let q2 = q1.push(escaped(full));
    lemma_run_on_more(q1, escaped(full));
    let q3 = q2.push("\" target=\"_blank\"><img loading=\"lazy\" src=\"../"@);
    lemma_run_on_more(q2, "\" target=\"_blank\"><img loading=\"lazy\" src=\"../"@);
    let q4 = q3.push(escaped(shown));
    lemma_run_on_more(q3, escaped(shown));
    let q5 = q4.push("\" alt=\"step "@);
    lemma_run_on_more(q4, "\" alt=\"step "@);
    let q6 = q5.push(dec(index as int));
    lemma_run_on_more(q5, dec(index as int));
    let q7 = q6.push("\"></a>"@);
    lemma_run_on_more(q6, "\"></a>"@);
    assert(shot_link(full, shown, index) == run_on(q7));
    assert(q7[0] == "<a class=\"shot\" href=\"../"@);
    assert(q7[1] == escaped(full));
    assert(q7[2] == "\" target=\"_blank\"><img loading=\"lazy\" src=\"../"@);
    assert(q7[3] == escaped(shown));
    assert(q7[4] == "\" alt=\"step "@);
    assert(q7[5] == dec(index as int));
    lemma_has_two(q7, 0);
    lemma_has_two(q7, 2);
    lemma_has_two(q7, 4);
}

/// A step is shown with its kind, its number, when it was done and how long it took, its picture,
/// what was done, to which widget, where it led and what went wrong.
pub proof fn lemma_what_a_step_shows(s: StepRecordView)
    ensures
        has(step_block(s), "<div class=\"step\" data-kind=\""@ + escaped(s.action_kind)),
        has(step_block(s), "\">\n  <div class=\"t-head\"><span class=\"t-idx\">#"@ + dec(s.index as int)),
        has(step_block(s), "</span><span class=\"t-kind k-"@ + escaped(s.action_kind)),
        has(step_block(s), "\">"@ + escaped(s.action_kind_cn)),
        has(step_block(s), "</span>"@ + new_chip(s.new_state)),
        has(step_block(s), "\n    <span class=\"t-time\">"@ + escaped(s.time)),
        has(step_block(s), " · "@ + dec(s.duration_ms as int)),
        has(step_block(s), "ms</span></div>\n  <div class=\"t-body\">"@ + picture_of(s)),
        has(step_block(s), "<div class=\"t-main\"><div class=\"t-label\">"@ + escaped(s.action_label)),
        has(step_block(s), "</div>"@ + target_block(s.target)),
        has(step_block(s), target_block(s.target) + activity_block(s.activity_before, s.activity_after)),
        has(step_block(s), activity_block(s.activity_before, s.activity_after) + error_block(s.error)),
{
    let q1 = seq!["<div class=\"step\" data-kind=\""@];
    lemma_run_on_one("<div class=\"step\" data-kind=\""@);
    let q2 = q1.push(escaped(s.action_kind));
    lemma_run_on_more(q1, escaped(s.action_kind));
    let q3 = q2.push("\">\n  <div class=\"t-head\"><span class=\"t-idx\">#"@);
    lemma_run_on_more(q2, "\">\n  <div class=\"t-head\"><span class=\"t-idx\">#"@);
    let q4 = q3.push(dec(s.index as int));
    lemma_run_on_more(q3, dec(s.index as int));
    let q5 = q4.push("</span><span class=\"t-kind k-"@);
    lemma_run_on_more(q4, "</span><span class=\"t-kind k-"@);
    let q6 = q5.push(escaped(s.action_kind));
    lemma_run_on_more(q5, escaped(s.action_kind));
    let q7 = q6.push("\">"@);
    lemma_run_on_more(q6, "\">"@);
    let q8 = q7.push(escaped(s.action_kind_cn));
    lemma_run_on_more(q7, escaped(s.action_kind_cn));
    let q9 = q8.push("</span>"@);
    lemma_run_on_more(q8, "</span>"@);
    let q10 = q9.push(new_chip(s.new_state));
    lemma_run_on_more(q9, new_chip(s.new_state));
    let q11 = q10.push("\n    <span class=\"t-time\">"@);
    lemma_run_on_more(q10, "\n    <span class=\"t-time\">"@);
    let q12 = q11.push(escaped(s.time));
    lemma_run_on_more(q11, escaped(s.time));
    let q13 = q12.push(" · "@);
    lemma_run_on_more(q12, " · "@);
    let q14 = q13.push(dec(s.duration_ms as int));
    lemma_run_on_more(q13, dec(s.duration_ms as int));
    let q15 = q14.push("ms</span></div>\n  <div class=\"t-body\">"@);
    lemma_run_on_more(q14, "ms</span></div>\n  <div class=\"t-body\">"@);
    let q16 = q15.push(picture_of(s));
    lemma_run_on_more(q15, picture_of(s));
    let q17 = q16.push("<div class=\"t-main\"><div class=\"t-label\">"@);
    lemma_run_on_more(q16, "<div class=\"t-main\"><div class=\"t-label\">"@);
    let q18 = q17.push(escaped(s.action_label));
    lemma_run_on_more(q17, escaped(s.action_label));
    let q19 = q18.push("</div>"@);
    lemma_run_on_more(q18, "</div>"@);
    let q20 = q19.push(target_block(s.target));
    lemma_run_on_more(q19, target_block(s.target));
    let q21 = q20.push(activity_block(s.activity_before, s.activity_after));
    lemma_run_on_more(q20, activity_block(s.activity_before, s.activity_after));
    let q22 = q21.push(error_block(s.error));
    lemma_run_on_more(q21, error_block(s.error));
    let q23 = q22.push("</div></div>\n</div>"@);
    lemma_run_on_more(q22, "</div></div>\n</div>"@);
    assert(step_block(s) == run_on(q23));
    assert(q23[0] == "<div class=\"step\" data-kind=\""@);
    assert(q23[1] == escaped(s.action_kind));
    assert(q23[2] == "\">\n  <div class=\"t-head\"><span class=\"t-idx\">#"@);
    assert(q23[3] == dec(s.index as int));
    assert(q23[4] == "</span><span class=\"t-kind k-"@);
    assert(q23[5] == escaped(s.action_kind));
    assert(q23[6] == "\">"@);
    assert(q23[7] == escaped(s.action_kind_cn));
    assert(q23[8] == "</span>"@);
    assert(q23[9] == new_chip(s.new_state));
    assert(q23[10] == "\n    <span class=\"t-time\">"@);
    assert(q23[11] == escaped(s.time));
    assert(q23[12] == " · "@);
    assert(q23[13] == dec(s.duration_ms as int));
    assert(q23[14] == "ms</span></div>\n  <div class=\"t-body\">"@);
    assert(q23[15] == picture_of(s));
    assert(q23[16] == "<div class=\"t-main\"><div class=\"t-label\">"@);
    assert(q23[17] == escaped(s.action_label));
    assert(q23[18] == "</div>"@);
    assert(q23[19] == target_block(s.target));
    assert(q23[20] == activity_block(s.activity_before, s.activity_after));
    assert(q23[21] == error_block(s.error));
    lemma_has_two(q23, 0);
    lemma_has_two(q23, 2);
    lemma_has_two(q23, 4);
    lemma_has_two(q23, 6);
    lemma_has_two(q23, 8);
    lemma_has_two(q23, 10);
    lemma_has_two(q23, 12);
    lemma_has_two(q23, 14);
    lemma_has_two(q23, 16);
    lemma_has_two(q23, 18);
    lemma_has_two(q23, 19);
    lemma_has_two(q23, 20);
}

/// The button for a kind of step picks the steps of the kind.
pub proof fn lemma_what_a_button_shows(s: Seq<StepRecordView>, kind: Seq<char>)
    ensures
        has(button_of(s, kind), "<button class=\"fbtn\" data-f=\""@ + escaped(kind)),
        has(button_of(s, kind), "\">"@ + escaped(name_of_kind(s, kind))),
{
    let q1 = seq!["<button class=\"fbtn\" data-f=\""@];
    lemma_run_on_one("<button class=\"fbtn\" data-f=\""@);
    let q2 = q1.push(escaped(kind));
    lemma_run_on_more(q1, escaped(kind));
    let q3 = q2.push("\">"@);
    lemma_run_on_more(q2, "\">"@);
    let q4 = q3.push(escaped(name_of_kind(s, kind)));
    lemma_run_on_more(q3, escaped(name_of_kind(s, kind)));
    let q5 = q4.push("</button>"@);
    lemma_run_on_more(q4, "</button>"@);
    assert(button_of(s, kind) == run_on(q5));
    assert(q5[0] == "<button class=\"fbtn\" data-f=\""@);
    assert(q5[1] == escaped(kind));
    assert(q5[2] == "\">"@);
    assert(q5[3] == escaped(name_of_kind(s, kind)));
    lemma_has_two(q5, 0);
    lemma_has_two(q5, 2);
}

/// What was done to a widget is shown by its name and its id; where nothing went wrong, nothing is
/// said; a state is new where it was not met before; an arrow shows that a step led to another
/// activity.
pub proof fn lemma_parts_of_a_step(t: TargetView, e: Seq<char>, a: Seq<char>, b: Seq<char>)
    ensures
        has(target_block(Some(t)), escaped(t.label) + "</span><span class=\"mono dim\">"@),
        has(target_block(Some(t)), escaped(t.resource_id) + "</span></div>"@),
        target_block(None).len() == 0,
        has(error_block(Some(e)), "执行失败："@ + escaped(e)),
        error_block(None).len() == 0,
        new_chip(false).len() == 0,
        new_chip(true) == "<span class=\"chip new\">新状态</span>"@,
        has(activity_block(a, b), escaped(a) + "</span>"@),
        b.len() > 0 && a != b ==> has(
            activity_block(a, b),
            "→ <span class=\"mono\">"@ + escaped(b) + "</span></div>"@,
        ),
        b.len() == 0 ==> activity_block(a, b) == activity_block(a, a),
{
    reveal_strlit("<div class=\"t-err\">执行失败：");
    reveal_strlit("执行失败：");
    reveal_strlit("</span> → <span class=\"mono\">");
    reveal_strlit("→ <span class=\"mono\">");
    reveal_strlit("</span>");
    reveal_strlit("</span></div>");
    let s1 = "<div class=\"t-target\"><span class=\"chip\">"@;
    let s2 = "</span><span class=\"mono dim\">"@;
    let s3 = "</span></div>"@;
    let l = escaped(t.label);
    let r = escaped(t.resource_id);
    lemma_within(target_block(Some(t)), s1, l + s2, r + s3);
    lemma_within(target_block(Some(t)), s1 + l + s2, r + s3, seq![]);
    let f = "<div class=\"t-err\">执行失败："@;
    let g = "执行失败："@;
    assert(f =~= f.take(f.len() - g.len()) + g);
    lemma_within(error_block(Some(e)), f.take(f.len() - g.len()), g + escaped(e), "</div>"@);
    let h = "<div class=\"t-act\"><span class=\"mono dim\">"@;
    let m = "</span> → <span class=\"mono\">"@;
    let k = "→ <span class=\"mono\">"@;
    let z = "</span>"@;
    let ea = escaped(a);
    let eb = escaped(b);
    if b.len() > 0 && a != b {
        assert(m =~= z + m.skip(7));
        assert(m =~= m.take(8) + k);
        lemma_within(activity_block(a, b), h, ea + z, m.skip(7) + eb + s3);
        lemma_within(activity_block(a, b), h + ea + m.take(8), k + eb + s3, seq![]);
    } else {
        assert(s3 =~= z + s3.skip(7));
        lemma_within(activity_block(a, b), h, ea + z, s3.skip(7));
    }
}

/// A step without a picture says so; with one, the small picture is shown where there is one.
pub proof fn lemma_picture_of_a_step(s: StepRecordView)
    ensures
        s.screenshot is None ==> picture_of(s) == "<div class=\"shot none\">无截图</div>"@,
        s.screenshot is Some && s.thumb is Some ==> picture_of(s) == shot_link(
            s.screenshot->0,
            s.thumb->0,
            s.index,
        ),
        s.screenshot is Some && s.thumb is None ==> picture_of(s) == shot_link(
            s.screenshot->0,
            s.screenshot->0,
            s.index,
        ),
{
}

/// Every step is shown.
pub proof fn lemma_every_step_is_shown(s: Seq<StepRecordView>, i: int)
    requires
        0 <= i < s.len(),
    ensures
        has(step_blocks(s), step_block(s[i])),
    decreases s.len(),
{
    let x = step_block(s[i]);
    let d = s.drop_last();
    let front = step_blocks(d);
    let last = step_block(s.last());
    assert(step_blocks(s) == front + last);
    if i < s.len() - 1 {
        assert(d[i] == s[i]);
        lemma_every_step_is_shown(d, i);
    } else {
        lemma_within(last, seq![], x, seq![]);
    }
    lemma_has_in_sum(front, last, x);
}

/// Every widget of the sample is shown.
pub proof fn lemma_every_widget_is_shown(s: Seq<StatView>, i: int)
    requires
        0 <= i < s.len(),
    ensures
        has(widget_rows(s), widget_row(s[i])),
    decreases s.len(),
{
    let x = widget_row(s[i]);
    let d = s.drop_last();
    let front = widget_rows(d);
    let last = widget_row(s.last());
    assert(widget_rows(s) == front + last);
    if i < s.len() - 1 {
        assert(d[i] == s[i]);
        lemma_every_widget_is_shown(d, i);
    } else {
        lemma_within(last, seq![], x, seq![]);
    }
    lemma_has_in_sum(front, last, x);
}

/// Every incident is shown.
pub proof fn lemma_every_incident_is_shown(s: Seq<IncidentView>, i: int)
    requires
        0 <= i < s.len(),
    ensures
        has(incident_blocks(s), incident_block(s[i], i == 0)),
    decreases s.len(),
{
    let x = incident_block(s[i], i == 0);
    let d = s.drop_last();
    let front = incident_blocks(d);
    let last = incident_block(s.last(), s.len() == 1);
    assert(incident_blocks(s) == front + last);
    if i < s.len() - 1 {
        assert(d[i] == s[i]);
        lemma_every_incident_is_shown(d, i);
    } else {
        lemma_within(last, seq![], x, seq![]);
    }
    lemma_has_in_sum(front, last, x);
}

/// Every activity is shown.
pub proof fn lemma_every_activity_is_shown(s: Seq<ActivityCoverageView>, widths: Seq<Seq<char>>, i: int)
    requires
        0 <= i < s.len(),
    ensures
        has(activity_rows(s, widths), activity_row(s[i], widths[i])),
    decreases s.len(),
{
    let x = activity_row(s[i], widths[i]);
    let d = s.drop_last();
    let front = activity_rows(d, widths);
    let last = activity_row(s.last(), widths[s.len() - 1]);
    assert(activity_rows(s, widths) == front + last);
    if i < s.len() - 1 {
        assert(d[i] == s[i]);
        lemma_every_activity_is_shown(d, widths, i);
    } else {
        lemma_within(last, seq![], x, seq![]);
    }
    lemma_has_in_sum(front, last, x);
}

/// How many widgets were not used is what there were without what were used; nothing is said where
/// there is none to show.
pub proof fn lemma_what_was_left_out(c: CoverageView)
    ensures
        c.untouched_sample.len() == 0 ==> untouched_of(c).len() == 0,
        c.untouched_sample.len() > 0 ==> has(
            untouched_of(c),
            "<details class=\"more\"><summary>未被操作过的控件（最多 50 个，共 "@ + dec(
                c.total_nodes - c.touched_nodes,
            ),
        ),
        c.untouched_sample.len() > 0 ==> has(untouched_of(c), widget_rows(c.untouched_sample)),
        timeline_of(seq![]) == "<div class=\"empty\">没有记录到任何步骤。</div>"@,
        incidents_of(seq![]) == "<div class=\"empty\">本次遍历未发现 crash / ANR 异常。</div>"@,
{
    if c.untouched_sample.len() > 0 {
        let a = "<details class=\"more\"><summary>未被操作过的控件（最多 50 个，共 "@;
        let b = dec(c.total_nodes - c.touched_nodes);
        let d = " 个）</summary><table class=\"tbl\"><thead><tr><th>类型</th><th>标识</th><th>resource-id</th><th>出现次数</th></tr></thead><tbody>"@;
        let e = widget_rows(c.untouched_sample);
        let f = "</tbody></table></details>"@;
        lemma_within(untouched_of(c), seq![], a + b, d + e + f);
        lemma_within(untouched_of(c), a + b + d, e, f);
    }
}

/// The name on the button for a kind is the one of the first step of the kind.
pub proof fn lemma_name_of_a_kind(s: Seq<StepRecordView>, kind: Seq<char>, i: int)
    requires
        0 <= i < s.len(),
        s[i].action_kind == kind,
        forall|j: int| 0 <= j < i ==> (#[trigger] s[j]).action_kind != kind,
    ensures
        name_of_kind(s, kind) == s[i].action_kind_cn,
    decreases s.len(),
{
    if i > 0 {
        let t = s.skip(1);
        assert(s[0].action_kind != kind);
        assert forall|j: int| 0 <= j < i - 1 implies (#[trigger] t[j]).action_kind != kind by {
            assert(t[j] == s[j + 1]);
        }
        lemma_name_of_a_kind(t, kind, i - 1);
    }
}

} // verus!
