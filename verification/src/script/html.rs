//! The report on a run of cases, as a page of HTML.

use vstd::prelude::*;

use crate::decimal::show_two_places;
use crate::decimal::two_places;
use crate::markup::esc;
use crate::markup::escaped;
use crate::model::node::is_empty;
use crate::monitor::collect::incident_views;
use crate::monitor::collect::Incident;
use crate::monitor::collect::IncidentView;
use crate::monitor::line::kind_cn_text;
use crate::monitor::line::option_text;
use crate::outside::upper_of;
use crate::script::case::CaseResult;
use crate::script::case::CaseResultView;
use crate::script::check::assert_views;
use crate::script::check::AssertResult;
use crate::script::check::AssertResultView;
use crate::script::check::AssertStatus;
use crate::script::gate::issue_views;
use crate::script::gate::GateIssue;
use crate::script::gate::IssueView;
use crate::script::ir::text_or_empty;
use crate::script::steps::step_views;
use crate::script::steps::StepResult;
use crate::script::steps::StepResultView;
use crate::script::suite::case_views;
use crate::script::suite::ScriptRun;
use crate::script::suite::ScriptRunView;
use crate::script::suite::Summary;
use crate::single::Single;
use crate::text::basic::same;
use crate::text::basic::texts;
use crate::text::number::dec;
use crate::text::number::dec_signed;
use crate::text::number::dec_signed_text;
use crate::text::number::dec_text;
use crate::text::split::join;
use crate::text::split::joined;
use crate::util::duration_text;
use crate::util::fmt_duration;

verus! {

/// The head of the page, with its style.
pub open spec fn page_head() -> Seq<char> {
    "<!DOCTYPE html><html lang=\"zh-CN\"><head><meta charset=\"utf-8\">\
<title>用例执行报告</title><style>\
:root{--bg:#0f1116;--card:#171a21;--line:#262b36;--fg:#e6e9ef;--dim:#98a2b3;\
--ok:#3fb950;--bad:#f85149;--warn:#d29922;--acc:#58a6ff}\
*{box-sizing:border-box}\
body{margin:0;padding:28px;background:var(--bg);color:var(--fg);\
font:14px/1.6 -apple-system,'Segoe UI','Microsoft YaHei',sans-serif}\
h1{font-size:20px;margin:0 0 4px}\
.sub{color:var(--dim);font-size:12px;margin-bottom:18px}\
.cards{display:flex;gap:10px;flex-wrap:wrap;margin-bottom:22px}\
.card{background:var(--card);border:1px solid var(--line);border-radius:10px;padding:12px 16px;min-width:96px}\
.card b{display:block;font-size:22px;line-height:1.2}\
.card span{color:var(--dim);font-size:12px}\
.case{background:var(--card);border:1px solid var(--line);border-radius:10px;\
padding:14px 16px;margin-bottom:14px}\
.case h2{font-size:15px;margin:0 0 2px}\
.case .meta{color:var(--dim);font-size:12px;margin-bottom:10px}\
.pill{display:inline-block;padding:1px 9px;border-radius:20px;font-size:11px;font-weight:600;\
border:1px solid currentColor}\
.pill.ok{color:var(--ok)}.pill.bad{color:var(--bad)}.pill.warn{color:var(--warn)}.pill.muted{color:var(--dim)}\
table{width:100%;border-collapse:collapse;margin:6px 0 10px;font-size:13px}\
th,td{text-align:left;padding:5px 8px;border-bottom:1px solid var(--line);vertical-align:top}\
th{color:var(--dim);font-weight:500;font-size:12px}\
td.mono,th.mono{font-family:ui-monospace,Consolas,monospace;font-size:12px}\
.dim{color:var(--dim);font-size:11px}\
.ok-t{color:var(--ok)}.bad-t{color:var(--bad)}.warn-t{color:var(--warn)}\
.foot{color:var(--dim);font-size:12px;margin-top:22px}\
</style></head><body>"@
}

fn show_head() -> (r: &'static str)
    ensures
        r@ == page_head(),
{
    "<!DOCTYPE html><html lang=\"zh-CN\"><head><meta charset=\"utf-8\">\
<title>用例执行报告</title><style>\
:root{--bg:#0f1116;--card:#171a21;--line:#262b36;--fg:#e6e9ef;--dim:#98a2b3;\
--ok:#3fb950;--bad:#f85149;--warn:#d29922;--acc:#58a6ff}\
*{box-sizing:border-box}\
body{margin:0;padding:28px;background:var(--bg);color:var(--fg);\
font:14px/1.6 -apple-system,'Segoe UI','Microsoft YaHei',sans-serif}\
h1{font-size:20px;margin:0 0 4px}\
.sub{color:var(--dim);font-size:12px;margin-bottom:18px}\
.cards{display:flex;gap:10px;flex-wrap:wrap;margin-bottom:22px}\
.card{background:var(--card);border:1px solid var(--line);border-radius:10px;padding:12px 16px;min-width:96px}\
.card b{display:block;font-size:22px;line-height:1.2}\
.card span{color:var(--dim);font-size:12px}\
.case{background:var(--card);border:1px solid var(--line);border-radius:10px;\
padding:14px 16px;margin-bottom:14px}\
.case h2{font-size:15px;margin:0 0 2px}\
.case .meta{color:var(--dim);font-size:12px;margin-bottom:10px}\
.pill{display:inline-block;padding:1px 9px;border-radius:20px;font-size:11px;font-weight:600;\
border:1px solid currentColor}\
.pill.ok{color:var(--ok)}.pill.bad{color:var(--bad)}.pill.warn{color:var(--warn)}.pill.muted{color:var(--dim)}\
table{width:100%;border-collapse:collapse;margin:6px 0 10px;font-size:13px}\
th,td{text-align:left;padding:5px 8px;border-bottom:1px solid var(--line);vertical-align:top}\
th{color:var(--dim);font-weight:500;font-size:12px}\
td.mono,th.mono{font-family:ui-monospace,Consolas,monospace;font-size:12px}\
.dim{color:var(--dim);font-size:11px}\
.ok-t{color:var(--ok)}.bad-t{color:var(--bad)}.warn-t{color:var(--warn)}\
.foot{color:var(--dim);font-size:12px;margin-top:22px}\
</style></head><body>"
}

/// How the cases were run, in words.
pub open spec fn mode_words(mode: Seq<char>) -> Seq<char> {
    if mode == "dry-run"@ {
        "定位器校验（未连设备）"@
    } else if mode == "mock"@ {
        "模拟设备执行（无真机）"@
    } else if mode == "execute:host"@ {
        "真机执行（PC 端 adb 驱动）"@
    } else if mode == "execute:device"@ {
        "真机执行（端上执行）"@
    } else {
        "真机执行"@
    }
}

fn show_mode(mode: &str) -> (r: &'static str)
    ensures
        r@ == mode_words(mode@),
{
    if same(mode, "dry-run") {
        "定位器校验（未连设备）"
    } else if same(mode, "mock") {
        "模拟设备执行（无真机）"
    } else if same(mode, "execute:host") {
        "真机执行（PC 端 adb 驱动）"
    } else if same(mode, "execute:device") {
        "真机执行（端上执行）"
    } else {
        "真机执行"
    }
}

/// The name of the app; a remark where there is none.
pub open spec fn package_words(package: Seq<char>) -> Seq<char> {
    if package.len() == 0 {
        "(未指定)"@
    } else {
        package
    }
}

fn show_package(package: &String) -> (r: String)
    ensures
        r@ == package_words(package@),
{
    if is_empty(package) {
        "(未指定)".to_string()
    } else {
        package.clone()
    }
}

/// What was run, and when.
pub open spec fn title_of(run: ScriptRunView) -> Seq<char> {
    "<h1>用例执行报告</h1><div class=\"sub\">"@ + escaped(run.generated) + " · "@ + mode_words(run.mode)
        + " · 知识库 "@ + escaped(run.kb) + " · 包名 "@ + package_words(run.package) + "</div>"@
}

fn show_title(run: &ScriptRun) -> (r: String)
    ensures
        r@ == title_of(run@),
{
    let mut h = "<h1>用例执行报告</h1><div class=\"sub\">".to_string();
    h.append(esc(run.generated.as_str()).as_str());
    h.append(" · ");
    h.append(show_mode(run.mode.as_str()));
    h.append(" · 知识库 ");
    h.append(esc(run.kb.as_str()).as_str());
    h.append(" · 包名 ");
    h.append(show_package(&run.package).as_str());
    h.append("</div>");
    h
}

/// A number with its name.
pub open spec fn card_of(value: Seq<char>, name: Seq<char>) -> Seq<char> {
    "<div class=\"card\"><b>"@ + value + "</b><span>"@ + name + "</span></div>"@
}

fn show_card(value: &str, name: &str) -> (r: String)
    ensures
        r@ == card_of(value@, name@),
{
    let mut h = "<div class=\"card\"><b>".to_string();
    h.append(value);
    h.append("</b><span>");
    h.append(name);
    h.append("</span></div>");
    h
}

/// How many cases came to what.
pub open spec fn cards_of(s: Summary) -> Seq<char> {
    "<div class=\"cards\">"@ + card_of(dec(s.total as int), "用例总数"@) + card_of(
        dec(s.pass as int),
        "通过"@,
    ) + card_of(dec(s.fail as int), "失败"@) + card_of(dec(s.blocked as int), "阻塞"@) + (
    if s.skip > 0 {
        card_of(dec(s.skip as int), "跳过"@)
    } else {
        seq![]
    }) + card_of(duration_text(s.duration_ms as int), "耗时"@) + "</div>"@
}

fn count_card(n: usize, name: &str) -> (r: String)
    ensures
        r@ == card_of(dec(n as int), name@),
{
    show_card(dec_text(n as u64).as_str(), name)
}

fn show_cards(s: &Summary) -> (r: String)
    ensures
        r@ == cards_of(*s),
{
    let mut h = "<div class=\"cards\">".to_string();
    h.append(count_card(s.total, "用例总数").as_str());
    h.append(count_card(s.pass, "通过").as_str());
    h.append(count_card(s.fail, "失败").as_str());
    h.append(count_card(s.blocked, "阻塞").as_str());
    let ghost four = h@;
    if s.skip > 0 {
        h.append(count_card(s.skip, "跳过").as_str());
    }
    assert(h@ =~= four + (if s.skip > 0 {
        card_of(dec(s.skip as int), "跳过"@)
    } else {
        seq![]
    }));
    h.append(show_card(fmt_duration(s.duration_ms).as_str(), "耗时").as_str());
    h.append("</div>");
    h
}

/// The class and the words for a status.
pub open spec fn pill_parts(status: Seq<char>) -> (Seq<char>, Seq<char>) {
    if status == "pass"@ {
        ("ok"@, "PASS"@)
    } else if status == "fail"@ {
        ("bad"@, "FAIL"@)
    } else if status == "blocked"@ {
        ("warn"@, "BLOCKED"@)
    } else if status == "skip"@ {
        ("muted"@, "SKIP"@)
    } else if status == "verified"@ {
        ("ok"@, "VERIFIED"@)
    } else {
        ("muted"@, upper_of(status))
    }
}

/// The mark for a status.
pub open spec fn pill_of(status: Seq<char>) -> Seq<char> {
    "<span class=\"pill "@ + pill_parts(status).0 + "\">"@ + pill_parts(status).1 + "</span>"@
}

/// The mark for a status.
pub fn status_pill(status: &str) -> (r: String)
    ensures
        r@ == pill_of(status@),
{
    let (class, words) = if same(status, "pass") {
        ("ok", "PASS".to_string())
    } else if same(status, "fail") {
        ("bad", "FAIL".to_string())
    } else if same(status, "blocked") {
        ("warn", "BLOCKED".to_string())
    } else if same(status, "skip") {
        ("muted", "SKIP".to_string())
    } else if same(status, "verified") {
        ("ok", "VERIFIED".to_string())
    } else {
        ("muted", status.to_uppercase())
    };
    let mut h = "<span class=\"pill ".to_string();
    h.append(class);
    h.append("\">");
    h.append(words.as_str());
    h.append("</span>");
    h
}

/// One text, if there is anything to say.
pub open spec fn said_if(said: bool, s: Seq<char>) -> Seq<Seq<char>> {
    if said {
        seq![s]
    } else {
        seq![]
    }
}

/// What is known of a case, besides its id.
pub open spec fn meta_of(c: CaseResultView) -> Seq<Seq<char>> {
    said_if(c.title.len() > 0, escaped(c.title)) + said_if(
        c.priority.len() > 0,
        "优先级 "@ + escaped(c.priority),
    ) + said_if(c.tags.len() > 0, escaped(joined(c.tags, ", "@))) + said_if(
        c.trace.requirement.len() > 0,
        "需求 "@ + escaped(c.trace.requirement),
    ) + said_if(c.trace.dimension.len() > 0, escaped(c.trace.dimension)) + said_if(
        c.duration_ms > 0,
        duration_text(c.duration_ms as int),
    )
}

fn say(out: &mut Vec<String>, said: bool, s: String)
    ensures
        texts(final(out)@) == texts(old(out)@) + said_if(said, s@),
{
    let ghost v = s@;
    if said {
        out.push(s);
    }
    assert(texts(out@) =~= texts(old(out)@) + said_if(said, v));
}

fn show_meta(c: &CaseResult) -> (r: String)
    ensures
        r@ == joined(meta_of(c@), " · "@),
{
    let mut meta: Vec<String> = Vec::new();
    assert(texts(meta@) + said_if(c@.title.len() > 0, escaped(c@.title)) =~= said_if(
        c@.title.len() > 0,
        escaped(c@.title),
    ));
    say(&mut meta, !is_empty(&c.title), esc(c.title.as_str()));
    let mut priority = "优先级 ".to_string();
    priority.append(esc(c.priority.as_str()).as_str());
    say(&mut meta, !is_empty(&c.priority), priority);
    assert(texts(c.tags@).len() == c.tags@.len());
    say(&mut meta, c.tags.len() > 0, esc(join(&c.tags, ", ").as_str()));
    let mut need = "需求 ".to_string();
    need.append(esc(c.trace.requirement.as_str()).as_str());
    say(&mut meta, !is_empty(&c.trace.requirement), need);
    say(&mut meta, !is_empty(&c.trace.dimension), esc(c.trace.dimension.as_str()));
    say(&mut meta, c.duration_ms > 0, fmt_duration(c.duration_ms));
    join(&meta, " · ")
}

/// One reason why a case is blocked.
pub open spec fn issue_row(g: IssueView) -> Seq<char> {
    "<tr><td class=\"mono warn-t\">"@ + escaped(g.location) + "</td><td class=\"mono\">"@
        + escaped(g.element) + "</td><td>"@ + escaped(g.reason) + "</td></tr>"@
}

fn show_issue(g: &GateIssue) -> (r: String)
    ensures
        r@ == issue_row(g@),
{
    let mut h = "<tr><td class=\"mono warn-t\">".to_string();
    h.append(esc(g.location.as_str()).as_str());
    h.append("</td><td class=\"mono\">");
    h.append(esc(g.element.as_str()).as_str());
    h.append("</td><td>");
    h.append(esc(g.reason.as_str()).as_str());
    h.append("</td></tr>");
    h
}

/// The reasons why a case is blocked.
pub open spec fn issue_rows(s: Seq<IssueView>) -> Seq<char>
    decreases s.len(),
{
    if s.len() == 0 {
        seq![]
    } else {
        issue_rows(s.drop_last()) + issue_row(s.last())
    }
}

fn show_issues(v: &Vec<GateIssue>) -> (r: String)
    ensures
        r@ == issue_rows(issue_views(v@)),
{
    let ghost all = issue_views(v@);
    let mut out = String::new();
    let mut i: usize = 0;
    assert(out@ =~= issue_rows(all.take(0)));
    while i < v.len()
        invariant
            i <= v@.len(),
            all == issue_views(v@),
            out@ == issue_rows(all.take(i as int)),
        decreases v@.len() - i,
    {
        out.append(show_issue(&v[i]).as_str());
        proof {
            assert(all.take(i + 1).drop_last() =~= all.take(i as int));
            assert(all.take(i + 1).last() == v@[i as int]@);
        }
        i = i + 1;
    }
    assert(all.take(i as int) =~= all);
    out
}

/// What the author of a case wrote, below what it is about.
pub open spec fn note_of(note: Option<Seq<char>>) -> Seq<char> {
    match note {
        Some(t) => if t.len() > 0 {
            "<br><span class=\"dim\">"@ + escaped(t) + "</span>"@
        } else {
            seq![]
        },
        None => seq![],
    }
}

fn show_note(note: &Option<String>) -> (r: String)
    ensures
        r@ == note_of(option_text(*note)),
{
    let text = text_or_empty(note);
    if is_empty(&text) {
        let e = String::new();
        assert(e@ =~= seq![]);
        return e;
    }
    let mut h = "<br><span class=\"dim\">".to_string();
    h.append(esc(text.as_str()).as_str());
    h.append("</span>");
    h
}

/// The role of an element.
pub open spec fn role_of(role: Option<Seq<char>>) -> Seq<char> {
    match role {
        Some(t) => if t.len() > 0 {
            " <span class=\"dim\">["@ + t + "]</span>"@
        } else {
            seq![]
        },
        None => seq![],
    }
}

fn show_role(role: &Option<String>) -> (r: String)
    ensures
        r@ == role_of(option_text(*role)),
{
    let text = text_or_empty(role);
    if is_empty(&text) {
        let e = String::new();
        assert(e@ =~= seq![]);
        return e;
    }
    let mut h = " <span class=\"dim\">[".to_string();
    h.append(text.as_str());
    h.append("]</span>");
    h
}

/// The locator that found an element, and how sure it is.
pub open spec fn locator_of(kind: Option<Seq<char>>, confidence: Option<Single>) -> Seq<char> {
    match kind {
        Some(k) => match confidence {
            Some(c) => k + "("@ + two_places(c) + ")"@,
            None => k,
        },
        None => seq![],
    }
}

fn show_locator(kind: &Option<String>, confidence: Option<Single>) -> (r: String)
    ensures
        r@ == locator_of(option_text(*kind), confidence),
{
    match kind {
        Some(k) => {
            let mut h = k.clone();
            if let Some(c) = confidence {
                h.append("(");
                h.append(show_two_places(c).as_str());
                h.append(")");
            }
            h
        },
        None => {
            let e = String::new();
            assert(e@ =~= seq![]);
            e
        },
    }
}

/// A place on the screen.
pub open spec fn place_of(p: Option<(i32, i32)>) -> Seq<char> {
    match p {
        Some((x, y)) => dec_signed(x as int) + ","@ + dec_signed(y as int),
        None => seq![],
    }
}

fn show_place(p: Option<(i32, i32)>) -> (r: String)
    ensures
        r@ == place_of(p),
{
    match p {
        Some((x, y)) => {
            let mut h = dec_signed_text(x as i64);
            h.append(",");
            h.append(dec_signed_text(y as i64).as_str());
            h
        },
        None => {
            let e = String::new();
            assert(e@ =~= seq![]);
            e
        },
    }
}

/// The text that there may be, escaped.
pub open spec fn escaped_option(o: Option<Seq<char>>) -> Seq<char> {
    match o {
        Some(t) => escaped(t),
        None => seq![],
    }
}

fn esc_option(o: &Option<String>) -> (r: String)
    ensures
        r@ == escaped_option(option_text(*o)),
{
    match o {
        Some(t) => esc(t.as_str()),
        None => {
            let e = String::new();
            assert(e@ =~= seq![]);
            e
        },
    }
}

/// What came of a step.
pub open spec fn step_verdict(s: StepResultView) -> Seq<char> {
    if s.ok {
        "OK"@
    } else {
        escaped(s.detail)
    }
}

fn show_step_verdict(s: &StepResult) -> (r: String)
    ensures
        r@ == step_verdict(s@),
{
    if s.ok {
        "OK".to_string()
    } else {
        esc(s.detail.as_str())
    }
}

/// The class of what came of a step.
pub open spec fn step_class(ok: bool) -> Seq<char> {
    if ok {
        "ok-t"@
    } else {
        "bad-t"@
    }
}

fn show_step_class(ok: bool) -> (r: &'static str)
    ensures
        r@ == step_class(ok),
{
    if ok {
        "ok-t"
    } else {
        "bad-t"
    }
}

/// One step.
pub open spec fn step_row(s: StepResultView) -> Seq<char> {
    "<tr><td class=\"mono\">"@ + dec(s.n as int) + "</td><td>"@ + escaped(s.stage) + "</td><td>"@
        + escaped(s.action) + note_of(s.note) + "</td><td>"@ + escaped_option(s.label)
        + "<br><span class=\"dim mono\">"@ + escaped_option(s.element) + role_of(s.role)
        + "</span></td><td class=\"mono\">"@ + escaped(locator_of(s.locator, s.confidence))
        + "</td><td class=\"mono\">"@ + place_of(s.point) + "</td><td class=\""@
        + step_class(s.ok) + "\">"@ + step_verdict(s) + "</td></tr>"@
}

fn show_step(s: &StepResult) -> (r: String)
    ensures
        r@ == step_row(s@),
{
    let mut h = "<tr><td class=\"mono\">".to_string();
    h.append(dec_text(s.n as u64).as_str());
    h.append("</td><td>");
    h.append(esc(s.stage.as_str()).as_str());
    h.append("</td><td>");
    h.append(esc(s.action.as_str()).as_str());
    h.append(show_note(&s.note).as_str());
    h.append("</td><td>");
    h.append(esc_option(&s.label).as_str());
    h.append("<br><span class=\"dim mono\">");
    h.append(esc_option(&s.element).as_str());
    h.append(show_role(&s.role).as_str());
    h.append("</span></td><td class=\"mono\">");
    h.append(esc(show_locator(&s.locator, s.confidence).as_str()).as_str());
    h.append("</td><td class=\"mono\">");
    h.append(show_place(s.point).as_str());
    h.append("</td><td class=\"");
    h.append(show_step_class(s.ok));
    h.append("\">");
    h.append(show_step_verdict(s).as_str());
    h.append("</td></tr>");
    h
}

/// The steps of a case.
pub open spec fn step_rows(s: Seq<StepResultView>) -> Seq<char>
    decreases s.len(),
{
    if s.len() == 0 {
        seq![]
    } else {
        step_rows(s.drop_last()) + step_row(s.last())
    }
}

fn show_steps(v: &Vec<StepResult>) -> (r: String)
    ensures
        r@ == step_rows(step_views(v@)),
{
    let ghost all = step_views(v@);
    let mut out = String::new();
    let mut i: usize = 0;
    assert(out@ =~= step_rows(all.take(0)));
    while i < v.len()
        invariant
            i <= v@.len(),
            all == step_views(v@),
            out@ == step_rows(all.take(i as int)),
        decreases v@.len() - i,
    {
        out.append(show_step(&v[i]).as_str());
        proof {
            assert(all.take(i + 1).drop_last() =~= all.take(i as int));
            assert(all.take(i + 1).last() == v@[i as int]@);
        }
        i = i + 1;
    }
    assert(all.take(i as int) =~= all);
    out
}

/// The class and the words for what became of an assertion.
pub open spec fn assert_parts(s: AssertStatus) -> (Seq<char>, Seq<char>) {
    match s {
        AssertStatus::Pass => ("ok-t"@, "PASS"@),
        AssertStatus::Fail => ("bad-t"@, "FAIL"@),
        AssertStatus::Skip => ("warn-t"@, "SKIP"@),
    }
}

fn show_assert_parts(s: AssertStatus) -> (r: (&'static str, &'static str))
    ensures
        r.0@ == assert_parts(s).0,
        r.1@ == assert_parts(s).1,
{
    match s {
        AssertStatus::Pass => ("ok-t", "PASS"),
        AssertStatus::Fail => ("bad-t", "FAIL"),
        AssertStatus::Skip => ("warn-t", "SKIP"),
    }
}

/// One assertion.
pub open spec fn assert_row(a: AssertResultView) -> Seq<char> {
    "<tr><td class=\"mono\">"@ + dec(a.n as int) + "</td><td class=\"mono\">"@ + escaped(a.kind)
        + "</td><td class=\"mono\">"@ + escaped_option(a.expect) + note_of(a.note)
        + "</td><td class=\""@ + assert_parts(a.status).0 + "\">"@ + assert_parts(a.status).1
        + "</td><td>"@ + escaped(a.msg) + "</td></tr>"@
}

fn show_assert(a: &AssertResult) -> (r: String)
    ensures
        r@ == assert_row(a@),
{
    let (class, words) = show_assert_parts(a.status);
    let mut h = "<tr><td class=\"mono\">".to_string();
    h.append(dec_text(a.n as u64).as_str());
    h.append("</td><td class=\"mono\">");
    h.append(esc(a.kind.as_str()).as_str());
    h.append("</td><td class=\"mono\">");
    h.append(esc_option(&a.expect).as_str());
    h.append(show_note(&a.note).as_str());
    h.append("</td><td class=\"");
    h.append(class);
    h.append("\">");
    h.append(words);
    h.append("</td><td>");
    h.append(esc(a.msg.as_str()).as_str());
    h.append("</td></tr>");
    h
}

/// The assertions of a case.
pub open spec fn assert_rows(s: Seq<AssertResultView>) -> Seq<char>
    decreases s.len(),
{
    if s.len() == 0 {
        seq![]
    } else {
        assert_rows(s.drop_last()) + assert_row(s.last())
    }
}

fn show_asserts(v: &Vec<AssertResult>) -> (r: String)
    ensures
        r@ == assert_rows(assert_views(v@)),
{
    let ghost all = assert_views(v@);
    let mut out = String::new();
    let mut i: usize = 0;
    assert(out@ =~= assert_rows(all.take(0)));
    while i < v.len()
        invariant
            i <= v@.len(),
            all == assert_views(v@),
            out@ == assert_rows(all.take(i as int)),
        decreases v@.len() - i,
    {
        out.append(show_assert(&v[i]).as_str());
        proof {
            assert(all.take(i + 1).drop_last() =~= all.take(i as int));
            assert(all.take(i + 1).last() == v@[i as int]@);
        }
        i = i + 1;
    }
    assert(all.take(i as int) =~= all);
    out
}

/// One incident.
pub open spec fn incident_row(i: IncidentView) -> Seq<char> {
    "<tr><td class=\"bad-t\">"@ + escaped(kind_cn_text(i.kind)) + "</td><td class=\"mono\">"@
        + escaped(i.package) + "</td><td>"@ + escaped(i.summary) + "</td></tr>"@
}

fn show_incident(i: &Incident) -> (r: String)
    ensures
        r@ == incident_row(i@),
{
    let mut h = "<tr><td class=\"bad-t\">".to_string();
    h.append(esc(i.kind.cn()).as_str());
    h.append("</td><td class=\"mono\">");
    h.append(esc(i.package.as_str()).as_str());
    h.append("</td><td>");
    h.append(esc(i.summary.as_str()).as_str());
    h.append("</td></tr>");
    h
}

/// The incidents noticed while a case ran.
pub open spec fn incident_rows(s: Seq<IncidentView>) -> Seq<char>
    decreases s.len(),
{
    if s.len() == 0 {
        seq![]
    } else {
        incident_rows(s.drop_last()) + incident_row(s.last())
    }
}

fn show_incidents(v: &Vec<Incident>) -> (r: String)
    ensures
        r@ == incident_rows(incident_views(v@)),
{
    let ghost all = incident_views(v@);
    let mut out = String::new();
    let mut i: usize = 0;
    assert(out@ =~= incident_rows(all.take(0)));
    while i < v.len()
        invariant
            i <= v@.len(),
            all == incident_views(v@),
            out@ == incident_rows(all.take(i as int)),
        decreases v@.len() - i,
    {
        out.append(show_incident(&v[i]).as_str());
        proof {
            assert(all.take(i + 1).drop_last() =~= all.take(i as int));
            assert(all.take(i + 1).last() == v@[i as int]@);
        }
        i = i + 1;
    }
    assert(all.take(i as int) =~= all);
    out
}

/// A table; nothing where it would hold no row.
pub open spec fn table_of(count: int, header: Seq<char>, rows: Seq<char>) -> Seq<char> {
    if count == 0 {
        seq![]
    } else {
        header + rows + "</table>"@
    }
}

fn show_table(count: usize, header: &str, rows: String) -> (r: String)
    ensures
        r@ == table_of(count as int, header@, rows@),
{
    if count == 0 {
        let e = String::new();
        assert(e@ =~= seq![]);
        return e;
    }
    let mut h = header.to_string();
    h.append(rows.as_str());
    h.append("</table>");
    h
}

/// One case.
pub open spec fn case_block(c: CaseResultView) -> Seq<char> {
    "<div class=\"case\"><h2>"@ + pill_of(c.status) + " "@ + escaped(c.id)
        + "</h2><div class=\"meta\">"@ + joined(meta_of(c), " · "@) + "</div>"@
        + table_of(
        c.gate.len() as int,
        "<table><tr><th>位置</th><th>元素</th><th>阻断原因</th></tr>"@,
        issue_rows(c.gate),
    )
        + table_of(
        c.steps.len() as int,
        "<table><tr><th>#</th><th>阶段</th><th>动作 / 说明</th><th>元素</th><th>定位器</th><th>坐标</th><th>结果</th></tr>"@,
        step_rows(c.steps),
    )
        + table_of(
        c.assertions.len() as int,
        "<table><tr><th>#</th><th>断言</th><th>期望 / 说明</th><th>结果</th><th>说明</th></tr>"@,
        assert_rows(c.assertions),
    )
        + table_of(
        c.incidents.len() as int,
        "<table><tr><th>类型</th><th>包名</th><th>摘要</th></tr>"@,
        incident_rows(c.incidents),
    )
        + "</div>"@
}

fn show_case(c: &CaseResult) -> (r: String)
    ensures
        r@ == case_block(c@),
{
    assert(c@.gate.len() == c.gate@.len());
    assert(c@.steps.len() == c.steps@.len());
    assert(c@.assertions.len() == c.assertions@.len());
    assert(c@.incidents.len() == c.incidents@.len());
    let mut h = "<div class=\"case\"><h2>".to_string();
    h.append(status_pill(c.status.as_str()).as_str());
    h.append(" ");
    h.append(esc(c.id.as_str()).as_str());
    h.append("</h2><div class=\"meta\">");
    h.append(show_meta(c).as_str());
    h.append("</div>");
    h.append(show_table(
            c.gate.len(),
            "<table><tr><th>位置</th><th>元素</th><th>阻断原因</th></tr>",
            show_issues(&c.gate),
        ).as_str());
    h.append(show_table(
            c.steps.len(),
            "<table><tr><th>#</th><th>阶段</th><th>动作 / 说明</th><th>元素</th><th>定位器</th><th>坐标</th><th>结果</th></tr>",
            show_steps(&c.steps),
        ).as_str());
    h.append(show_table(
            c.assertions.len(),
            "<table><tr><th>#</th><th>断言</th><th>期望 / 说明</th><th>结果</th><th>说明</th></tr>",
            show_asserts(&c.assertions),
        ).as_str());
    h.append(show_table(
            c.incidents.len(),
            "<table><tr><th>类型</th><th>包名</th><th>摘要</th></tr>",
            show_incidents(&c.incidents),
        ).as_str());
    h.append("</div>");
    h
}

/// All cases.
pub open spec fn case_blocks(s: Seq<CaseResultView>) -> Seq<char>
    decreases s.len(),
{
    if s.len() == 0 {
        seq![]
    } else {
        case_blocks(s.drop_last()) + case_block(s.last())
    }
}

fn show_cases(v: &Vec<CaseResult>) -> (r: String)
    ensures
        r@ == case_blocks(case_views(v@)),
{
    let ghost all = case_views(v@);
    let mut out = String::new();
    let mut i: usize = 0;
    assert(out@ =~= case_blocks(all.take(0)));
    while i < v.len()
        invariant
            i <= v@.len(),
            all == case_views(v@),
            out@ == case_blocks(all.take(i as int)),
        decreases v@.len() - i,
    {
        out.append(show_case(&v[i]).as_str());
        proof {
            assert(all.take(i + 1).drop_last() =~= all.take(i as int));
            assert(all.take(i + 1).last() == v@[i as int]@);
        }
        i = i + 1;
    }
    assert(all.take(i as int) =~= all);
    out
}

/// The page.
pub open spec fn page_of(run: ScriptRunView) -> Seq<char> {
    page_head() + title_of(run) + cards_of(run.summary) + case_blocks(run.cases)
        + "<div class=\"foot\">存在性断言只使用语义定位器（resource_id / content_desc / text / 正则）；位置与序号定位器不参与「控件在不在」的判断。</div>"@
        + "</body></html>"@
}

/// The report on a run of cases, as a page of HTML.
pub fn render_html(run: &ScriptRun) -> (r: String)
    ensures
        r@ == page_of(run@),
{
    let mut h = show_head().to_string();
    h.append(show_title(run).as_str());
    h.append(show_cards(&run.summary).as_str());
    h.append(show_cases(&run.cases).as_str());
    h.append("<div class=\"foot\">存在性断言只使用语义定位器（resource_id / content_desc / text / 正则）；位置与序号定位器不参与「控件在不在」的判断。</div>");
    h.append("</body></html>");
    h
}

} // verus!
