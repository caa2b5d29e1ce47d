//! What the report on a run of cases shows.

use vstd::prelude::*;

use crate::decimal::two_places;
use crate::markup::escaped;
use crate::monitor::collect::IncidentView;
use crate::monitor::line::kind_cn_text;
use crate::runner::rules::lemma_within;
use crate::script::case::CaseResultView;
use crate::script::check::AssertResultView;
use crate::script::check::AssertStatus;
use crate::script::gate::IssueView;
use crate::script::html::assert_parts;
use crate::script::html::assert_row;
use crate::script::html::assert_rows;
use crate::script::html::card_of;
use crate::script::html::cards_of;
use crate::script::html::case_block;
use crate::script::html::case_blocks;
use crate::script::html::escaped_option;
use crate::script::html::incident_row;
use crate::script::html::incident_rows;
use crate::script::html::issue_row;
use crate::script::html::issue_rows;
use crate::script::html::locator_of;
use crate::script::html::meta_of;
use crate::script::html::mode_words;
use crate::script::html::note_of;
use crate::script::html::package_words;
use crate::script::html::page_head;
use crate::script::html::page_of;
use crate::script::html::pill_of;
use crate::script::html::pill_parts;
use crate::script::html::place_of;
use crate::script::html::role_of;
use crate::script::html::said_if;
use crate::script::html::step_class;
use crate::script::html::step_row;
use crate::script::html::step_rows;
use crate::script::html::step_verdict;
use crate::script::html::table_of;
use crate::script::html::title_of;
use crate::script::steps::StepResultView;
use crate::script::suite::ScriptRunView;
use crate::script::suite::Summary;
use crate::single::Single;
use crate::strategy::states::lemma_has_in_sum;
use crate::text::law::lemma_has_two;
use crate::text::law::lemma_run_on_more;
use crate::text::law::lemma_run_on_one;
use crate::text::law::run_on;
use crate::text::number::dec;
use crate::text::number::dec_signed;
use crate::text::search::has;
use crate::text::split::joined;
use crate::util::duration_text;

verus! {

/// Each verdict on a case has its own word and its own colour; what is good is green and what is bad
/// is red.
pub proof fn lemma_verdicts_are_told_apart()
    ensures
        pill_parts("pass"@) == ("ok"@, "PASS"@),
        pill_parts("verified"@) == ("ok"@, "VERIFIED"@),
        pill_parts("fail"@) == ("bad"@, "FAIL"@),
        pill_parts("blocked"@) == ("warn"@, "BLOCKED"@),
        pill_parts("skip"@) == ("muted"@, "SKIP"@),
        assert_parts(AssertStatus::Pass) == ("ok-t"@, "PASS"@),
        assert_parts(AssertStatus::Fail) == ("bad-t"@, "FAIL"@),
        assert_parts(AssertStatus::Skip) == ("warn-t"@, "SKIP"@),
        step_class(true) == "ok-t"@,
        step_class(false) == "bad-t"@,
{
    reveal_strlit("pass");
    reveal_strlit("verified");
    reveal_strlit("fail");
    reveal_strlit("blocked");
    reveal_strlit("skip");
    assert("pass"@.len() == 4 && "fail"@.len() == 4 && "skip"@.len() == 4);
    assert("pass"@[0] == 'p' && "fail"@[0] == 'f' && "skip"@[0] == 's');
    assert("blocked"@.len() == 7 && "verified"@.len() == 8);
}

/// A step that went well says so, and another says why it did not.
pub proof fn lemma_what_a_step_says(s: StepResultView)
    ensures
        s.ok ==> step_verdict(s) == "OK"@,
        !s.ok ==> step_verdict(s) == escaped(s.detail),
{
}

/// Where a run of cases took place.
pub proof fn lemma_where_cases_ran()
    ensures
        mode_words("dry-run"@) == "定位器校验（未连设备）"@,
        mode_words("mock"@) == "模拟设备执行（无真机）"@,
        mode_words("execute:host"@) == "真机执行（PC 端 adb 驱动）"@,
        mode_words("execute:device"@) == "真机执行（端上执行）"@,
        package_words(seq![]) == "(未指定)"@,
        forall|p: Seq<char>| p.len() > 0 ==> #[trigger] package_words(p) == p,
{
    reveal_strlit("dry-run");
    reveal_strlit("mock");
    reveal_strlit("execute:host");
    reveal_strlit("execute:device");
    assert("dry-run"@.len() == 7 && "mock"@.len() == 4);
    assert("execute:host"@.len() == 12 && "execute:device"@.len() == 14);
}

/// The title says when the run was, where it took place, with which knowledge and for which app.
pub proof fn lemma_what_the_title_says(run: ScriptRunView)
    ensures
        has(title_of(run), "<h1>用例执行报告</h1><div class=\"sub\">"@ + escaped(run.generated)),
        has(title_of(run), " · "@ + mode_words(run.mode)),
        has(title_of(run), " · 知识库 "@ + escaped(run.kb)),
        has(title_of(run), " · 包名 "@ + package_words(run.package)),
{
    let q1 = seq!["<h1>用例执行报告</h1><div class=\"sub\">"@];
    lemma_run_on_one("<h1>用例执行报告</h1><div class=\"sub\">"@);
    let q2 = q1.push(escaped(run.generated));
    lemma_run_on_more(q1, escaped(run.generated));
    let q3 = q2.push(" · "@);
    lemma_run_on_more(q2, " · "@);
    let q4 = q3.push(mode_words(run.mode));
    lemma_run_on_more(q3, mode_words(run.mode));
    let q5 = q4.push(" · 知识库 "@);
    lemma_run_on_more(q4, " · 知识库 "@);
    let q6 = q5.push(escaped(run.kb));
    lemma_run_on_more(q5, escaped(run.kb));
    let q7 = q6.push(" · 包名 "@);
    lemma_run_on_more(q6, " · 包名 "@);
    let q8 = q7.push(package_words(run.package));
    lemma_run_on_more(q7, package_words(run.package));
    let q9 = q8.push("</div>"@);
    lemma_run_on_more(q8, "</div>"@);
    assert(title_of(run) == run_on(q9));
    assert(q9[0] == "<h1>用例执行报告</h1><div class=\"sub\">"@);
    assert(q9[1] == escaped(run.generated));
    assert(q9[2] == " · "@);
    assert(q9[3] == mode_words(run.mode));
    assert(q9[4] == " · 知识库 "@);
    assert(q9[5] == escaped(run.kb));
    assert(q9[6] == " · 包名 "@);
    assert(q9[7] == package_words(run.package));
    lemma_has_two(q9, 0);
    lemma_has_two(q9, 2);
    lemma_has_two(q9, 4);
    lemma_has_two(q9, 6);
}

/// A card shows a value over its name.
pub proof fn lemma_what_a_card_says(value: Seq<char>, name: Seq<char>)
    ensures
        has(card_of(value, name), "<div class=\"card\"><b>"@ + value),
        has(card_of(value, name), "</b><span>"@ + name),
{
    let q1 = seq!["<div class=\"card\"><b>"@];
    lemma_run_on_one("<div class=\"card\"><b>"@);
    let q2 = q1.push(value);
    lemma_run_on_more(q1, value);
    let q3 = q2.push("</b><span>"@);
    lemma_run_on_more(q2, "</b><span>"@);
    let q4 = q3.push(name);
    lemma_run_on_more(q3, name);
    let q5 = q4.push("</span></div>"@);
    lemma_run_on_more(q4, "</span></div>"@);
    assert(card_of(value, name) == run_on(q5));
    assert(q5[0] == "<div class=\"card\"><b>"@);
    assert(q5[1] == value);
    assert(q5[2] == "</b><span>"@);
    assert(q5[3] == name);
    lemma_has_two(q5, 0);
    lemma_has_two(q5, 2);
}

/// The cards show how many cases there were, passed, failed, were blocked and, where there are any,
/// were skipped, and the time.
pub proof fn lemma_what_the_cards_say(s: Summary)
    ensures
        has(cards_of(s), "<div class=\"cards\">"@ + card_of(dec(s.total as int), "用例总数"@)),
        has(cards_of(s), card_of(dec(s.total as int), "用例总数"@) + card_of( dec(s.pass as int), "通过"@, )),
        has(cards_of(s), card_of( dec(s.pass as int), "通过"@, ) + card_of(dec(s.fail as int), "失败"@)),
        has(cards_of(s), card_of(dec(s.fail as int), "失败"@) + card_of(dec(s.blocked as int), "阻塞"@)),
        has(cards_of(s), card_of(dec(s.blocked as int), "阻塞"@) + ( if s.skip > 0 { card_of(dec(s.skip as int), "跳过"@) } else { seq![] })),
        has(cards_of(s), ( if s.skip > 0 { card_of(dec(s.skip as int), "跳过"@) } else { seq![] }) + card_of(duration_text(s.duration_ms as int), "耗时"@)),
{
    let q1 = seq!["<div class=\"cards\">"@];
    lemma_run_on_one("<div class=\"cards\">"@);
    let q2 = q1.push(card_of(dec(s.total as int), "用例总数"@));
    lemma_run_on_more(q1, card_of(dec(s.total as int), "用例总数"@));
    let q3 = q2.push(card_of( dec(s.pass as int), "通过"@, ));
    lemma_run_on_more(q2, card_of( dec(s.pass as int), "通过"@, ));
    let q4 = q3.push(card_of(dec(s.fail as int), "失败"@));
    lemma_run_on_more(q3, card_of(dec(s.fail as int), "失败"@));
    let q5 = q4.push(card_of(dec(s.blocked as int), "阻塞"@));
    lemma_run_on_more(q4, card_of(dec(s.blocked as int), "阻塞"@));
    let q6 = q5.push(( if s.skip > 0 { card_of(dec(s.skip as int), "跳过"@) } else { seq![] }));
    lemma_run_on_more(q5, ( if s.skip > 0 { card_of(dec(s.skip as int), "跳过"@) } else { seq![] }));
    let q7 = q6.push(card_of(duration_text(s.duration_ms as int), "耗时"@));
    lemma_run_on_more(q6, card_of(duration_text(s.duration_ms as int), "耗时"@));
    let q8 = q7.push("</div>"@);
    lemma_run_on_more(q7, "</div>"@);
    assert(cards_of(s) == run_on(q8));
    assert(q8[0] == "<div class=\"cards\">"@);
    assert(q8[1] == card_of(dec(s.total as int), "用例总数"@));
    assert(q8[2] == card_of( dec(s.pass as int), "通过"@, ));
    assert(q8[3] == card_of(dec(s.fail as int), "失败"@));
    assert(q8[4] == card_of(dec(s.blocked as int), "阻塞"@));
    assert(q8[5] == ( if s.skip > 0 { card_of(dec(s.skip as int), "跳过"@) } else { seq![] }));
    assert(q8[6] == card_of(duration_text(s.duration_ms as int), "耗时"@));
    lemma_has_two(q8, 0);
    lemma_has_two(q8, 1);
    lemma_has_two(q8, 2);
    lemma_has_two(q8, 3);
    lemma_has_two(q8, 4);
    lemma_has_two(q8, 5);
}

/// A verdict is shown by its word, in its colour.
pub proof fn lemma_what_a_verdict_shows(status: Seq<char>)
    ensures
        has(pill_of(status), "<span class=\"pill "@ + pill_parts(status).0),
        has(pill_of(status), "\">"@ + pill_parts(status).1),
{
    let q1 = seq!["<span class=\"pill "@];
    lemma_run_on_one("<span class=\"pill "@);
    let q2 = q1.push(pill_parts(status).0);
    lemma_run_on_more(q1, pill_parts(status).0);
    let q3 = q2.push("\">"@);
    lemma_run_on_more(q2, "\">"@);
    let q4 = q3.push(pill_parts(status).1);
    lemma_run_on_more(q3, pill_parts(status).1);
    let q5 = q4.push("</span>"@);
    lemma_run_on_more(q4, "</span>"@);
    assert(pill_of(status) == run_on(q5));
    assert(q5[0] == "<span class=\"pill "@);
    assert(q5[1] == pill_parts(status).0);
    assert(q5[2] == "\">"@);
    assert(q5[3] == pill_parts(status).1);
    lemma_has_two(q5, 0);
    lemma_has_two(q5, 2);
}

/// What blocks a case is shown with its place, the element and the reason.
pub proof fn lemma_what_an_issue_shows(g: IssueView)
    ensures
        has(issue_row(g), "<tr><td class=\"mono warn-t\">"@ + escaped(g.location)),
        has(issue_row(g), "</td><td class=\"mono\">"@ + escaped(g.element)),
        has(issue_row(g), "</td><td>"@ + escaped(g.reason)),
{
    let q1 = seq!["<tr><td class=\"mono warn-t\">"@];
    lemma_run_on_one("<tr><td class=\"mono warn-t\">"@);
    let q2 = q1.push(escaped(g.location));
    lemma_run_on_more(q1, escaped(g.location));
    let q3 = q2.push("</td><td class=\"mono\">"@);
    lemma_run_on_more(q2, "</td><td class=\"mono\">"@);
    let q4 = q3.push(escaped(g.element));
    lemma_run_on_more(q3, escaped(g.element));
    let q5 = q4.push("</td><td>"@);
    lemma_run_on_more(q4, "</td><td>"@);
    let q6 = q5.push(escaped(g.reason));
    lemma_run_on_more(q5, escaped(g.reason));
    let q7 = q6.push("</td></tr>"@);
    lemma_run_on_more(q6, "</td></tr>"@);
    assert(issue_row(g) == run_on(q7));
    assert(q7[0] == "<tr><td class=\"mono warn-t\">"@);
    assert(q7[1] == escaped(g.location));
    assert(q7[2] == "</td><td class=\"mono\">"@);
    assert(q7[3] == escaped(g.element));
    assert(q7[4] == "</td><td>"@);
    assert(q7[5] == escaped(g.reason));
    lemma_has_two(q7, 0);
    lemma_has_two(q7, 2);
    lemma_has_two(q7, 4);
}

/// A step is shown with its number, its stage, its action and note, its element, how it was found,
/// where, and what came of it.
pub proof fn lemma_what_a_row_of_a_step_shows(s: StepResultView)
    ensures
        has(step_row(s), "<tr><td class=\"mono\">"@ + dec(s.n as int)),
        has(step_row(s), "</td><td>"@ + escaped(s.stage)),
        has(step_row(s), "</td><td>"@ + escaped(s.action)),
        has(step_row(s), escaped(s.action) + note_of(s.note)),
        has(step_row(s), "</td><td>"@ + escaped_option(s.label)),
        has(step_row(s), "<br><span class=\"dim mono\">"@ + escaped_option(s.element)),
        has(step_row(s), escaped_option(s.element) + role_of(s.role)),
        has(step_row(s), "</span></td><td class=\"mono\">"@ + escaped(locator_of(s.locator, s.confidence))),
        has(step_row(s), "</td><td class=\"mono\">"@ + place_of(s.point)),
        has(step_row(s), "</td><td class=\""@ + step_class(s.ok)),
        has(step_row(s), "\">"@ + step_verdict(s)),
{
    let q1 = seq!["<tr><td class=\"mono\">"@];
    lemma_run_on_one("<tr><td class=\"mono\">"@);
    let q2 = q1.push(dec(s.n as int));
    lemma_run_on_more(q1, dec(s.n as int));
    let q3 = q2.push("</td><td>"@);
    lemma_run_on_more(q2, "</td><td>"@);
    let q4 = q3.push(escaped(s.stage));
    lemma_run_on_more(q3, escaped(s.stage));
    let q5 = q4.push("</td><td>"@);
    lemma_run_on_more(q4, "</td><td>"@);
    let q6 = q5.push(escaped(s.action));
    lemma_run_on_more(q5, escaped(s.action));
    let q7 = q6.push(note_of(s.note));
    lemma_run_on_more(q6, note_of(s.note));
    let q8 = q7.push("</td><td>"@);
    lemma_run_on_more(q7, "</td><td>"@);
    let q9 = q8.push(escaped_option(s.label));
    lemma_run_on_more(q8, escaped_option(s.label));
    let q10 = q9.push("<br><span class=\"dim mono\">"@);
    lemma_run_on_more(q9, "<br><span class=\"dim mono\">"@);
    let q11 = q10.push(escaped_option(s.element));
    lemma_run_on_more(q10, escaped_option(s.element));
    let q12 = q11.push(role_of(s.role));
    lemma_run_on_more(q11, role_of(s.role));
    let q13 = q12.push("</span></td><td class=\"mono\">"@);
    lemma_run_on_more(q12, "</span></td><td class=\"mono\">"@);
    let q14 = q13.push(escaped(locator_of(s.locator, s.confidence)));
    lemma_run_on_more(q13, escaped(locator_of(s.locator, s.confidence)));
    let q15 = q14.push("</td><td class=\"mono\">"@);
    lemma_run_on_more(q14, "</td><td class=\"mono\">"@);
    let q16 = q15.push(place_of(s.point));
    lemma_run_on_more(q15, place_of(s.point));
    let q17 = q16.push("</td><td class=\""@);
    lemma_run_on_more(q16, "</td><td class=\""@);
    let q18 = q17.push(step_class(s.ok));
    lemma_run_on_more(q17, step_class(s.ok));
    let q19 = q18.push("\">"@);
    lemma_run_on_more(q18, "\">"@);
    let q20 = q19.push(step_verdict(s));
    lemma_run_on_more(q19, step_verdict(s));
    let q21 = q20.push("</td></tr>"@);
    lemma_run_on_more(q20, "</td></tr>"@);
    assert(step_row(s) == run_on(q21));
    assert(q21[0] == "<tr><td class=\"mono\">"@);
    assert(q21[1] == dec(s.n as int));
    assert(q21[2] == "</td><td>"@);
    assert(q21[3] == escaped(s.stage));
    assert(q21[4] == "</td><td>"@);
    assert(q21[5] == escaped(s.action));
    assert(q21[6] == note_of(s.note));
    assert(q21[7] == "</td><td>"@);
    assert(q21[8] == escaped_option(s.label));
    assert(q21[9] == "<br><span class=\"dim mono\">"@);
    assert(q21[10] == escaped_option(s.element));
    assert(q21[11] == role_of(s.role));
    assert(q21[12] == "</span></td><td class=\"mono\">"@);
    assert(q21[13] == escaped(locator_of(s.locator, s.confidence)));
    assert(q21[14] == "</td><td class=\"mono\">"@);
    assert(q21[15] == place_of(s.point));
    assert(q21[16] == "</td><td class=\""@);
    assert(q21[17] == step_class(s.ok));
    assert(q21[18] == "\">"@);
    assert(q21[19] == step_verdict(s));
    lemma_has_two(q21, 0);
    lemma_has_two(q21, 2);
    lemma_has_two(q21, 4);
    lemma_has_two(q21, 5);
    lemma_has_two(q21, 7);
    lemma_has_two(q21, 9);
    lemma_has_two(q21, 10);
    lemma_has_two(q21, 12);
    lemma_has_two(q21, 14);
    lemma_has_two(q21, 16);
    lemma_has_two(q21, 18);
}

/// An assertion is shown with its number, its kind, what was expected, its verdict and why.
pub proof fn lemma_what_an_assertion_shows(a: AssertResultView)
    ensures
        has(assert_row(a), "<tr><td class=\"mono\">"@ + dec(a.n as int)),
        has(assert_row(a), "</td><td class=\"mono\">"@ + escaped(a.kind)),
        has(assert_row(a), "</td><td class=\"mono\">"@ + escaped_option(a.expect)),
        has(assert_row(a), escaped_option(a.expect) + note_of(a.note)),
        has(assert_row(a), "</td><td class=\""@ + assert_parts(a.status).0),
        has(assert_row(a), "\">"@ + assert_parts(a.status).1),
        has(assert_row(a), "</td><td>"@ + escaped(a.msg)),
{
    let q1 = seq!["<tr><td class=\"mono\">"@];
    lemma_run_on_one("<tr><td class=\"mono\">"@);
    let q2 = q1.push(dec(a.n as int));
    lemma_run_on_more(q1, dec(a.n as int));
    let q3 = q2.push("</td><td class=\"mono\">"@);
    lemma_run_on_more(q2, "</td><td class=\"mono\">"@);
    let q4 = q3.push(escaped(a.kind));
    lemma_run_on_more(q3, escaped(a.kind));
    let q5 = q4.push("</td><td class=\"mono\">"@);
    lemma_run_on_more(q4, "</td><td class=\"mono\">"@);
    let q6 = q5.push(escaped_option(a.expect));
    lemma_run_on_more(q5, escaped_option(a.expect));
    let q7 = q6.push(note_of(a.note));
    lemma_run_on_more(q6, note_of(a.note));
    let q8 = q7.push("</td><td class=\""@);
    lemma_run_on_more(q7, "</td><td class=\""@);
    let q9 = q8.push(assert_parts(a.status).0);
    lemma_run_on_more(q8, assert_parts(a.status).0);
    let q10 = q9.push("\">"@);
    lemma_run_on_more(q9, "\">"@);
    let q11 = q10.push(assert_parts(a.status).1);
    lemma_run_on_more(q10, assert_parts(a.status).1);
    let q12 = q11.push("</td><td>"@);
    lemma_run_on_more(q11, "</td><td>"@);
    let q13 = q12.push(escaped(a.msg));
    lemma_run_on_more(q12, escaped(a.msg));
    let q14 = q13.push("</td></tr>"@);
    lemma_run_on_more(q13, "</td></tr>"@);
    assert(assert_row(a) == run_on(q14));
    assert(q14[0] == "<tr><td class=\"mono\">"@);
    assert(q14[1] == dec(a.n as int));
    assert(q14[2] == "</td><td class=\"mono\">"@);
    assert(q14[3] == escaped(a.kind));
    assert(q14[4] == "</td><td class=\"mono\">"@);
    assert(q14[5] == escaped_option(a.expect));
    assert(q14[6] == note_of(a.note));
    assert(q14[7] == "</td><td class=\""@);
    assert(q14[8] == assert_parts(a.status).0);
    assert(q14[9] == "\">"@);
    assert(q14[10] == assert_parts(a.status).1);
    assert(q14[11] == "</td><td>"@);
    assert(q14[12] == escaped(a.msg));
    lemma_has_two(q14, 0);
    lemma_has_two(q14, 2);
    lemma_has_two(q14, 4);
    lemma_has_two(q14, 5);
    lemma_has_two(q14, 7);
    lemma_has_two(q14, 9);
    lemma_has_two(q14, 11);
}

/// An incident is shown with its kind, its app and its summary.
pub proof fn lemma_what_a_row_of_an_incident_shows(i: IncidentView)
    ensures
        has(incident_row(i), "<tr><td class=\"bad-t\">"@ + escaped(kind_cn_text(i.kind))),
        has(incident_row(i), "</td><td class=\"mono\">"@ + escaped(i.package)),
        has(incident_row(i), "</td><td>"@ + escaped(i.summary)),
{
    let q1 = seq!["<tr><td class=\"bad-t\">"@];
    lemma_run_on_one("<tr><td class=\"bad-t\">"@);
    let q2 = q1.push(escaped(kind_cn_text(i.kind)));
    lemma_run_on_more(q1, escaped(kind_cn_text(i.kind)));
    let q3 = q2.push("</td><td class=\"mono\">"@);
    lemma_run_on_more(q2, "</td><td class=\"mono\">"@);
    let q4 = q3.push(escaped(i.package));
    lemma_run_on_more(q3, escaped(i.package));
    let q5 = q4.push("</td><td>"@);
    lemma_run_on_more(q4, "</td><td>"@);
    let q6 = q5.push(escaped(i.summary));
    lemma_run_on_more(q5, escaped(i.summary));
    let q7 = q6.push("</td></tr>"@);
    lemma_run_on_more(q6, "</td></tr>"@);
    assert(incident_row(i) == run_on(q7));
    assert(q7[0] == "<tr><td class=\"bad-t\">"@);
    assert(q7[1] == escaped(kind_cn_text(i.kind)));
    assert(q7[2] == "</td><td class=\"mono\">"@);
    assert(q7[3] == escaped(i.package));
    assert(q7[4] == "</td><td>"@);
    assert(q7[5] == escaped(i.summary));
    lemma_has_two(q7, 0);
    lemma_has_two(q7, 2);
    lemma_has_two(q7, 4);
}

/// A case is shown with its verdict, its id, what is known of it, and its tables.
pub proof fn lemma_what_a_case_shows(c: CaseResultView)
    ensures
        has(case_block(c), "<div class=\"case\"><h2>"@ + pill_of(c.status)),
        has(case_block(c), " "@ + escaped(c.id)),
        has(case_block(c), "</h2><div class=\"meta\">"@ + joined(meta_of(c), " · "@)),
        has(case_block(c), "</div>"@ + table_of( c.gate.len() as int, "<table><tr><th>位置</th><th>元素</th><th>阻断原因</th></tr>"@, issue_rows(c.gate), )),
        has(case_block(c), table_of( c.gate.len() as int, "<table><tr><th>位置</th><th>元素</th><th>阻断原因</th></tr>"@, issue_rows(c.gate), ) + table_of( c.steps.len() as int, "<table><tr><th>#</th><th>阶段</th><th>动作 / 说明</th><th>元素</th><th>定位器</th><th>坐标</th><th>结果</th></tr>"@, step_rows(c.steps), )),
        has(case_block(c), table_of( c.steps.len() as int, "<table><tr><th>#</th><th>阶段</th><th>动作 / 说明</th><th>元素</th><th>定位器</th><th>坐标</th><th>结果</th></tr>"@, step_rows(c.steps), ) + table_of( c.assertions.len() as int, "<table><tr><th>#</th><th>断言</th><th>期望 / 说明</th><th>结果</th><th>说明</th></tr>"@, assert_rows(c.assertions), )),
        has(case_block(c), table_of( c.assertions.len() as int, "<table><tr><th>#</th><th>断言</th><th>期望 / 说明</th><th>结果</th><th>说明</th></tr>"@, assert_rows(c.assertions), ) + table_of( c.incidents.len() as int, "<table><tr><th>类型</th><th>包名</th><th>摘要</th></tr>"@, incident_rows(c.incidents), )),
{
    let q1 = seq!["<div class=\"case\"><h2>"@];
    lemma_run_on_one("<div class=\"case\"><h2>"@);
    let q2 = q1.push(pill_of(c.status));
    lemma_run_on_more(q1, pill_of(c.status));
    let q3 = q2.push(" "@);
    lemma_run_on_more(q2, " "@);
    let q4 = q3.push(escaped(c.id));
    lemma_run_on_more(q3, escaped(c.id));
    let q5 = q4.push("</h2><div class=\"meta\">"@);
    lemma_run_on_more(q4, "</h2><div class=\"meta\">"@);
    let q6 = q5.push(joined(meta_of(c), " · "@));
    lemma_run_on_more(q5, joined(meta_of(c), " · "@));
    let q7 = q6.push("</div>"@);
    lemma_run_on_more(q6, "</div>"@);
    let q8 = q7.push(table_of( c.gate.len() as int, "<table><tr><th>位置</th><th>元素</th><th>阻断原因</th></tr>"@, issue_rows(c.gate), ));
    lemma_run_on_more(q7, table_of( c.gate.len() as int, "<table><tr><th>位置</th><th>元素</th><th>阻断原因</th></tr>"@, issue_rows(c.gate), ));
    let q9 = q8.push(table_of( c.steps.len() as int, "<table><tr><th>#</th><th>阶段</th><th>动作 / 说明</th><th>元素</th><th>定位器</th><th>坐标</th><th>结果</th></tr>"@, step_rows(c.steps), ));
    lemma_run_on_more(q8, table_of( c.steps.len() as int, "<table><tr><th>#</th><th>阶段</th><th>动作 / 说明</th><th>元素</th><th>定位器</th><th>坐标</th><th>结果</th></tr>"@, step_rows(c.steps), ));
    let q10 = q9.push(table_of( c.assertions.len() as int, "<table><tr><th>#</th><th>断言</th><th>期望 / 说明</th><th>结果</th><th>说明</th></tr>"@, assert_rows(c.assertions), ));
    lemma_run_on_more(q9, table_of( c.assertions.len() as int, "<table><tr><th>#</th><th>断言</th><th>期望 / 说明</th><th>结果</th><th>说明</th></tr>"@, assert_rows(c.assertions), ));
    let q11 = q10.push(table_of( c.incidents.len() as int, "<table><tr><th>类型</th><th>包名</th><th>摘要</th></tr>"@, incident_rows(c.incidents), ));
    lemma_run_on_more(q10, table_of( c.incidents.len() as int, "<table><tr><th>类型</th><th>包名</th><th>摘要</th></tr>"@, incident_rows(c.incidents), ));
    let q12 = q11.push("</div>"@);
    lemma_run_on_more(q11, "</div>"@);
    assert(case_block(c) == run_on(q12));
    assert(q12[0] == "<div class=\"case\"><h2>"@);
    assert(q12[1] == pill_of(c.status));
    assert(q12[2] == " "@);
    assert(q12[3] == escaped(c.id));
    assert(q12[4] == "</h2><div class=\"meta\">"@);
    assert(q12[5] == joined(meta_of(c), " · "@));
    assert(q12[6] == "</div>"@);
    assert(q12[7] == table_of( c.gate.len() as int, "<table><tr><th>位置</th><th>元素</th><th>阻断原因</th></tr>"@, issue_rows(c.gate), ));
    assert(q12[8] == table_of( c.steps.len() as int, "<table><tr><th>#</th><th>阶段</th><th>动作 / 说明</th><th>元素</th><th>定位器</th><th>坐标</th><th>结果</th></tr>"@, step_rows(c.steps), ));
    assert(q12[9] == table_of( c.assertions.len() as int, "<table><tr><th>#</th><th>断言</th><th>期望 / 说明</th><th>结果</th><th>说明</th></tr>"@, assert_rows(c.assertions), ));
    assert(q12[10] == table_of( c.incidents.len() as int, "<table><tr><th>类型</th><th>包名</th><th>摘要</th></tr>"@, incident_rows(c.incidents), ));
    lemma_has_two(q12, 0);
    lemma_has_two(q12, 2);
    lemma_has_two(q12, 4);
    lemma_has_two(q12, 6);
    lemma_has_two(q12, 7);
    lemma_has_two(q12, 8);
    lemma_has_two(q12, 9);
}

/// The page shows the title, the cards and the cases.
pub proof fn lemma_what_the_page_shows(run: ScriptRunView)
    ensures
        has(page_of(run), page_head() + title_of(run)),
        has(page_of(run), page_head() + title_of(run)),
        has(page_of(run), title_of(run) + cards_of(run.summary)),
        has(page_of(run), cards_of(run.summary) + case_blocks(run.cases)),
{
    let q1 = seq![page_head()];
    lemma_run_on_one(page_head());
    let q2 = q1.push(title_of(run));
    lemma_run_on_more(q1, title_of(run));
    let q3 = q2.push(cards_of(run.summary));
    lemma_run_on_more(q2, cards_of(run.summary));
    let q4 = q3.push(case_blocks(run.cases));
    lemma_run_on_more(q3, case_blocks(run.cases));
    let q5 = q4.push("<div class=\"foot\">存在性断言只使用语义定位器（resource_id / content_desc / text / 正则）；位置与序号定位器不参与「控件在不在」的判断。</div>"@);
    lemma_run_on_more(q4, "<div class=\"foot\">存在性断言只使用语义定位器（resource_id / content_desc / text / 正则）；位置与序号定位器不参与「控件在不在」的判断。</div>"@);
    let q6 = q5.push("</body></html>"@);
    lemma_run_on_more(q5, "</body></html>"@);
    assert(page_of(run) == run_on(q6));
    assert(q6[0] == page_head());
    assert(q6[1] == title_of(run));
    assert(q6[2] == cards_of(run.summary));
    assert(q6[3] == case_blocks(run.cases));
    lemma_has_two(q6, 0);
    lemma_has_two(q6, 0);
    lemma_has_two(q6, 1);
    lemma_has_two(q6, 2);
}

/// A table is shown where it has rows.
pub proof fn lemma_tables_with_rows(count: int, header: Seq<char>, rows: Seq<char>)
    ensures
        count == 0 ==> table_of(count, header, rows).len() == 0,
        count != 0 ==> has(table_of(count, header, rows), header + rows),
{
    if count != 0 {
        lemma_within(table_of(count, header, rows), seq![], header + rows, "</table>"@);
    }
}

/// What is not known is not shown, and what is known is; a locator is shown with how sure it is.
pub proof fn lemma_what_is_known_is_shown(t: Seq<char>, c: Single, p: (i32, i32))
    ensures
        note_of(None).len() == 0,
        role_of(None).len() == 0,
        place_of(None).len() == 0,
        escaped_option(None).len() == 0,
        locator_of(None, Some(c)).len() == 0,
        escaped_option(Some(t)) == escaped(t),
        locator_of(Some(t), None) == t,
        locator_of(Some(t), Some(c)) == t + "("@ + two_places(c) + ")"@,
        place_of(Some(p)) == dec_signed(p.0 as int) + ","@ + dec_signed(p.1 as int),
        t.len() > 0 ==> has(note_of(Some(t)), escaped(t)) && has(role_of(Some(t)), "["@ + t + "]"@),
        t.len() == 0 ==> note_of(Some(t)).len() == 0 && role_of(Some(t)).len() == 0,
{
    if t.len() > 0 {
        lemma_within(note_of(Some(t)), "<br><span class=\"dim\">"@, escaped(t), "</span>"@);
        reveal_strlit(" <span class=\"dim\">[");
        reveal_strlit("[");
        reveal_strlit("]</span>");
        reveal_strlit("]");
        let a = " <span class=\"dim\">["@;
        let b = "]</span>"@;
        assert(a =~= a.drop_last() + "["@);
        assert(b =~= "]"@ + b.skip(1));
        lemma_within(role_of(Some(t)), a.drop_last(), "["@ + t + "]"@, b.skip(1));
    }
}

/// What is said of a case: its title, its priority, its tags, where it comes from and how long it
/// took, each where it is known.
pub proof fn lemma_what_is_said_of_a_case(c: CaseResultView)
    ensures
        ({
            let m = meta_of(c);
            &&& c.title.len() > 0 ==> m.contains(escaped(c.title))
            &&& c.priority.len() > 0 ==> m.contains("优先级 "@ + escaped(c.priority))
            &&& c.tags.len() > 0 ==> m.contains(escaped(joined(c.tags, ", "@)))
            &&& c.trace.requirement.len() > 0 ==> m.contains(
                "需求 "@ + escaped(c.trace.requirement),
            )
            &&& c.trace.dimension.len() > 0 ==> m.contains(escaped(c.trace.dimension))
            &&& c.duration_ms > 0 ==> m.contains(duration_text(c.duration_ms as int))
            &&& m.len() == count_if(c.title.len() > 0) + count_if(c.priority.len() > 0) + count_if(
                c.tags.len() > 0,
            ) + count_if(c.trace.requirement.len() > 0) + count_if(c.trace.dimension.len() > 0)
                + count_if(c.duration_ms > 0)
        }),
{
    let a = said_if(c.title.len() > 0, escaped(c.title));
    let b = said_if(c.priority.len() > 0, "优先级 "@ + escaped(c.priority));
    let d = said_if(c.tags.len() > 0, escaped(joined(c.tags, ", "@)));
    let e = said_if(c.trace.requirement.len() > 0, "需求 "@ + escaped(c.trace.requirement));
    let f = said_if(c.trace.dimension.len() > 0, escaped(c.trace.dimension));
    let g = said_if(c.duration_ms > 0, duration_text(c.duration_ms as int));
    assert(meta_of(c) == a + b + d + e + f + g);
    lemma_all_said(a, b, d, e, f, g);
    if c.title.len() > 0 {
        assert(a[0] == escaped(c.title));
    }
    if c.priority.len() > 0 {
        assert(b[0] == "优先级 "@ + escaped(c.priority));
    }
    if c.tags.len() > 0 {
        assert(d[0] == escaped(joined(c.tags, ", "@)));
    }
    if c.trace.requirement.len() > 0 {
        assert(e[0] == "需求 "@ + escaped(c.trace.requirement));
    }
    if c.trace.dimension.len() > 0 {
        assert(f[0] == escaped(c.trace.dimension));
    }
    if c.duration_ms > 0 {
        assert(g[0] == duration_text(c.duration_ms as int));
    }
}

/// One where it holds.
pub open spec fn count_if(b: bool) -> int {
    if b {
        1
    } else {
        0
    }
}

proof fn lemma_all_said(
    a: Seq<Seq<char>>,
    b: Seq<Seq<char>>,
    d: Seq<Seq<char>>,
    e: Seq<Seq<char>>,
    f: Seq<Seq<char>>,
    g: Seq<Seq<char>>,
)
    ensures
        ({
            let m = a + b + d + e + f + g;
            &&& m.len() == a.len() + b.len() + d.len() + e.len() + f.len() + g.len()
            &&& a.len() > 0 ==> m.contains(a[0])
            &&& b.len() > 0 ==> m.contains(b[0])
            &&& d.len() > 0 ==> m.contains(d[0])
            &&& e.len() > 0 ==> m.contains(e[0])
            &&& f.len() > 0 ==> m.contains(f[0])
            &&& g.len() > 0 ==> m.contains(g[0])
        }),
{
    let m = a + b + d + e + f + g;
    if a.len() > 0 {
        assert(m[0] == a[0]);
    }
    let k1 = a.len() as int;
    if b.len() > 0 {
        assert(m[k1] == b[0]);
    }
    let k2 = k1 + b.len();
    if d.len() > 0 {
        assert(m[k2] == d[0]);
    }
    let k3 = k2 + d.len();
    if e.len() > 0 {
        assert(m[k3] == e[0]);
    }
    let k4 = k3 + e.len();
    if f.len() > 0 {
        assert(m[k4] == f[0]);
    }
    let k5 = k4 + f.len();
    if g.len() > 0 {
        assert(m[k5] == g[0]);
    }
}

/// Everything that blocks a case is shown.
pub proof fn lemma_every_issue_is_shown(s: Seq<IssueView>, i: int)
    requires
        0 <= i < s.len(),
    ensures
        has(issue_rows(s), issue_row(s[i])),
    decreases s.len(),
{
    let x = issue_row(s[i]);
    let d = s.drop_last();
    let front = issue_rows(d);
    let last = issue_row(s.last());
    assert(issue_rows(s) == front + last);
    if i < s.len() - 1 {
        assert(d[i] == s[i]);
        lemma_every_issue_is_shown(d, i);
    } else {
        lemma_within(last, seq![], x, seq![]);
    }
    lemma_has_in_sum(front, last, x);
}

/// Every step has a row.
pub proof fn lemma_every_step_has_a_row(s: Seq<StepResultView>, i: int)
    requires
        0 <= i < s.len(),
    ensures
        has(step_rows(s), step_row(s[i])),
    decreases s.len(),
{
    let x = step_row(s[i]);
    let d = s.drop_last();
    let front = step_rows(d);
    let last = step_row(s.last());
    assert(step_rows(s) == front + last);
    if i < s.len() - 1 {
        assert(d[i] == s[i]);
        lemma_every_step_has_a_row(d, i);
    } else {
        lemma_within(last, seq![], x, seq![]);
    }
    lemma_has_in_sum(front, last, x);
}

/// Every assertion has a row.
pub proof fn lemma_every_assertion_has_a_row(s: Seq<AssertResultView>, i: int)
    requires
        0 <= i < s.len(),
    ensures
        has(assert_rows(s), assert_row(s[i])),
    decreases s.len(),
{
    let x = assert_row(s[i]);
    let d = s.drop_last();
    let front = assert_rows(d);
    let last = assert_row(s.last());
    assert(assert_rows(s) == front + last);
    if i < s.len() - 1 {
        assert(d[i] == s[i]);
        lemma_every_assertion_has_a_row(d, i);
    } else {
        lemma_within(last, seq![], x, seq![]);
    }
    lemma_has_in_sum(front, last, x);
}

/// Every incident has a row.
pub proof fn lemma_every_incident_has_a_row(s: Seq<IncidentView>, i: int)
    requires
        0 <= i < s.len(),
    ensures
        has(incident_rows(s), incident_row(s[i])),
    decreases s.len(),
{
    let x = incident_row(s[i]);
    let d = s.drop_last();
    let front = incident_rows(d);
    let last = incident_row(s.last());
    assert(incident_rows(s) == front + last);
    if i < s.len() - 1 {
        assert(d[i] == s[i]);
        lemma_every_incident_has_a_row(d, i);
    } else {
        lemma_within(last, seq![], x, seq![]);
    }
    lemma_has_in_sum(front, last, x);
}

/// Every case is shown.
pub proof fn lemma_every_case_is_shown(s: Seq<CaseResultView>, i: int)
    requires
        0 <= i < s.len(),
    ensures
        has(case_blocks(s), case_block(s[i])),
    decreases s.len(),
{
    let x = case_block(s[i]);
    let d = s.drop_last();
    let front = case_blocks(d);
    let last = case_block(s.last());
    assert(case_blocks(s) == front + last);
    if i < s.len() - 1 {
        assert(d[i] == s[i]);
        lemma_every_case_is_shown(d, i);
    } else {
        lemma_within(last, seq![], x, seq![]);
    }
    lemma_has_in_sum(front, last, x);
}

} // verus!
