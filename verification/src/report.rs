//! The report on a run, as a page of HTML: numbers, incidents, the coverage of each activity and
//! the steps one after the other.

use vstd::prelude::*;

use crate::decimal::at_least;
use crate::decimal::pct;
use crate::decimal::percent;
use crate::decimal::reaches;
use crate::device::info::info_text;
use crate::markup::esc;
use crate::markup::escaped;
use crate::model::action::option_target;
use crate::model::action::TargetInfo;
use crate::model::action::TargetView;
use crate::model::node::is_empty;
use crate::monitor::collect::incident_views;
use crate::monitor::collect::Incident;
use crate::monitor::collect::IncidentView;
use crate::monitor::line::kind_cn_text;
use crate::monitor::line::option_text;
use crate::monitor::line::IncidentKind;
use crate::session::anrs_in;
use crate::session::crashes_in;
use crate::session::record_views;
use crate::session::Session;
use crate::session::SessionView;
use crate::session::StepRecord;
use crate::session::StepRecordView;
use crate::single::Single;
use crate::strategy::coverage::activity_coverage_views;
use crate::strategy::coverage::ActivityCoverage;
use crate::strategy::coverage::ActivityCoverageView;
use crate::strategy::coverage::CoverageReport;
use crate::strategy::coverage::CoverageView;
use crate::strategy::record::stat_views;
use crate::strategy::record::NodeStat;
use crate::strategy::record::StatView;
use crate::text::basic::same;
use crate::text::basic::texts;
use crate::text::number::dec;
use crate::text::number::dec_text;
use crate::text::order::put_text;
use crate::text::order::sorted_set;
use crate::text::split::all_replaced;
use crate::text::split::join;
use crate::text::split::joined;
use crate::text::split::replace_all;
use crate::util::duration_text;
use crate::util::fmt_duration;

verus! {

/// The bits of 0.6 in single precision.
pub const GOOD: u32 = 0x3f19_999a;

/// The bits of 0.3 in single precision.
pub const FAIR: u32 = 0x3e99_999a;

/// How good a coverage is.
pub open spec fn level_of(f: Single) -> Seq<char> {
    if reaches(f, GOOD) {
        "ok"@
    } else if reaches(f, FAIR) {
        "warn"@
    } else {
        "bad"@
    }
}

fn show_level(f: Single) -> (r: &'static str)
    ensures
        r@ == level_of(f),
{
    if at_least(f, GOOD) {
        "ok"
    } else if at_least(f, FAIR) {
        "warn"
    } else {
        "bad"
    }
}

// ---------------------------------------------------------------- numbers

/// A number with its name, what it is a part of, and its class.
pub open spec fn card_of(title: Seq<char>, value: Seq<char>, sub: Seq<char>, class: Seq<char>) -> Seq<char> {
    "<div class=\"card "@ + class + "\"><div class=\"card-t\">"@ + escaped(title)
        + "</div><div class=\"card-v\">"@ + escaped(value) + "</div><div class=\"card-s\">"@
        + escaped(sub) + "</div></div>"@
}

fn show_card(title: &str, value: &str, sub: &str, class: &str) -> (r: String)
    ensures
        r@ == card_of(title@, value@, sub@, class@),
{
    let mut h = "<div class=\"card ".to_string();
    h.append(class);
    h.append("\"><div class=\"card-t\">");
    h.append(esc(title).as_str());
    h.append("</div><div class=\"card-v\">");
    h.append(esc(value).as_str());
    h.append("</div><div class=\"card-s\">");
    h.append(esc(sub).as_str());
    h.append("</div></div>");
    h
}

/// How many of the steps have a picture.
pub open spec fn shots_in(s: Seq<StepRecordView>) -> int
    decreases s.len(),
{
    if s.len() == 0 {
        0
    } else {
        shots_in(s.drop_last()) + if s.last().screenshot is Some {
            1int
        } else {
            0int
        }
    }
}

fn count_shots(v: &Vec<StepRecord>) -> (r: usize)
    ensures
        r == shots_in(record_views(v@)),
{
    let ghost all = record_views(v@);
    let mut n: usize = 0;
    let mut i: usize = 0;
    while i < v.len()
        invariant
            i <= v@.len(),
            all == record_views(v@),
            n <= i,
            n == shots_in(all.take(i as int)),
        decreases v@.len() - i,
    {
        assert(all.take(i + 1).drop_last() =~= all.take(i as int));
        assert(all.take(i + 1).last() == v@[i as int]@);
        if v[i].screenshot.is_some() {
            n = n + 1;
        }
        i = i + 1;
    }
    assert(all.take(i as int) =~= all);
    n
}

/// How many of the widgets that count were used; for comparison, how many of all.
pub open spec fn coverage_sub(c: CoverageView) -> Seq<char> {
    dec(c.interactive_touched) + " / "@ + dec(c.interactive_nodes) + " · 全部节点 "@ + dec(
        c.touched_nodes,
    ) + " / "@ + dec(c.total_nodes) + " = "@ + percent(Single { bits: c.node_coverage as u32 })
}

fn show_coverage_sub(c: &CoverageReport) -> (r: String)
    ensures
        r@ == coverage_sub(c@),
{
    let mut h = dec_text(c.interactive_touched as u64);
    h.append(" / ");
    h.append(dec_text(c.interactive_nodes as u64).as_str());
    h.append(" · 全部节点 ");
    h.append(dec_text(c.touched_nodes as u64).as_str());
    h.append(" / ");
    h.append(dec_text(c.total_nodes as u64).as_str());
    h.append(" = ");
    assert(c.node_coverage == Single { bits: c@.node_coverage as u32 });
    h.append(pct(c.node_coverage).as_str());
    h
}

/// How many incidents there are of which kind.
pub open spec fn incident_sub(s: Seq<IncidentView>) -> Seq<char> {
    "crash "@ + dec(crashes_in(s)) + " / anr "@ + dec(anrs_in(s))
}

fn show_incident_sub(s: &Session) -> (r: String)
    ensures
        r@ == incident_sub(s@.incidents),
{
    let mut h = "crash ".to_string();
    h.append(dec_text(s.crash_count() as u64).as_str());
    h.append(" / anr ");
    h.append(dec_text(s.anr_count() as u64).as_str());
    h
}

/// The numbers of a run.
pub open spec fn metrics_of(s: SessionView) -> Seq<char> {
    let reached = Single { bits: s.coverage.interactive_coverage as u32 };
    card_of("执行步骤"@, dec(s.steps.len() as int), "步"@, ""@) + card_of(
        "Activity 覆盖"@,
        dec(s.coverage.activity_count),
        "个"@,
        "accent"@,
    ) + card_of("状态去重"@, dec(s.state_count as int), "个"@, ""@) + card_of(
        "控件覆盖率"@,
        percent(reached),
        coverage_sub(s.coverage),
        level_of(reached),
    ) + card_of("截图"@, dec(shots_in(s.steps)), "张"@, ""@) + card_of(
        "异常"@,
        dec(s.incidents.len() as int),
        incident_sub(s.incidents),
        if s.incidents.len() == 0 {
            "ok"@
        } else {
            "bad"@
        },
    )
}

fn show_metrics(s: &Session) -> (r: String)
    ensures
        r@ == metrics_of(s@),
{
    let reached = s.coverage.interactive_coverage;
    assert(reached == Single { bits: s@.coverage.interactive_coverage as u32 });
    assert(s@.steps.len() == s.steps@.len());
    assert(s@.incidents.len() == s.incidents@.len());
    let mut h = show_card("执行步骤", dec_text(s.steps.len() as u64).as_str(), "步", "");
    h.append(
        show_card(
            "Activity 覆盖",
            dec_text(s.coverage.activity_count as u64).as_str(),
            "个",
            "accent",
        ).as_str(),
    );
    h.append(show_card("状态去重", dec_text(s.state_count as u64).as_str(), "个", "").as_str());
    h.append(
        show_card(
            "控件覆盖率",
            pct(reached).as_str(),
            show_coverage_sub(&s.coverage).as_str(),
            show_level(reached),
        ).as_str(),
    );
    h.append(show_card("截图", dec_text(count_shots(&s.steps) as u64).as_str(), "张", "").as_str());
    h.append(
        show_card(
            "异常",
            dec_text(s.incidents.len() as u64).as_str(),
            show_incident_sub(s).as_str(),
            if s.incidents.len() == 0 {
                "ok"
            } else {
                "bad"
            },
        ).as_str(),
    );
    h
}

// ---------------------------------------------------------------- incidents

/// The class of an incident.
pub open spec fn tag_of(k: IncidentKind) -> Seq<char> {
    match k {
        IncidentKind::Anr => "tag-anr"@,
        _ => "tag-crash"@,
    }
}

fn show_tag(k: IncidentKind) -> (r: &'static str)
    ensures
        r@ == tag_of(k),
{
    match k {
        IncidentKind::Anr => "tag-anr",
        _ => "tag-crash",
    }
}

fn nothing() -> (r: String)
    ensures
        r@ == Seq::<char>::empty(),
{
    let e = String::new();
    assert(e@ =~= seq![]);
    e
}

/// A link to the whole log.
pub open spec fn log_link(file: Option<Seq<char>>) -> Seq<char> {
    match file {
        Some(f) => "<a class=\"lnk\" href=\"../"@ + escaped(f)
            + "\" target=\"_blank\">查看完整日志</a>"@,
        None => seq![],
    }
}

fn show_log_link(file: &Option<String>) -> (r: String)
    ensures
        r@ == log_link(option_text(*file)),
{
    match file {
        Some(f) => {
            let mut h = "<a class=\"lnk\" href=\"../".to_string();
            h.append(esc(f.as_str()).as_str());
            h.append("\" target=\"_blank\">查看完整日志</a>");
            h
        },
        None => nothing(),
    }
}

/// The picture of the scene: the small one, which leads to the large one; the large one itself
/// where there is no small one.
pub open spec fn scene_of(shot: Option<Seq<char>>, thumb: Option<Seq<char>>) -> Seq<char> {
    match shot {
        Some(big) => "<a class=\"inc-shot\" href=\"../"@ + escaped(big)
            + "\" target=\"_blank\"><img loading=\"lazy\" src=\"../"@ + escaped(
            match thumb {
                Some(t) => t,
                None => big,
            },
        ) + "\" alt=\"现场截图\"></a>"@,
        None => seq![],
    }
}

fn show_scene(shot: &Option<String>, thumb: &Option<String>) -> (r: String)
    ensures
        r@ == scene_of(option_text(*shot), option_text(*thumb)),
{
    match shot {
        Some(big) => {
            let mut h = "<a class=\"inc-shot\" href=\"../".to_string();
            h.append(esc(big.as_str()).as_str());
            h.append("\" target=\"_blank\"><img loading=\"lazy\" src=\"../");
            match thumb {
                Some(t) => {
                    h.append(esc(t.as_str()).as_str());
                },
                None => {
                    h.append(esc(big.as_str()).as_str());
                },
            }
            h.append("\" alt=\"现场截图\"></a>");
            h
        },
        None => nothing(),
    }
}

/// The step in which an incident happened.
pub open spec fn step_chip(step: Option<usize>) -> Seq<char> {
    match step {
        Some(n) => "<span class=\"chip\">步骤 #"@ + dec(n as int) + "</span>"@,
        None => seq![],
    }
}

fn show_step_chip(step: Option<usize>) -> (r: String)
    ensures
        r@ == step_chip(step),
{
    match step {
        Some(n) => {
            let mut h = "<span class=\"chip\">步骤 #".to_string();
            h.append(dec_text(n as u64).as_str());
            h.append("</span>");
            h
        },
        None => nothing(),
    }
}

/// The first incident is shown open.
pub open spec fn open_of(first: bool) -> Seq<char> {
    if first {
        "open"@
    } else {
        ""@
    }
}

fn show_open(first: bool) -> (r: &'static str)
    ensures
        r@ == open_of(first),
{
    if first {
        "open"
    } else {
        ""
    }
}

/// One incident.
pub open spec fn incident_block(i: IncidentView, first: bool) -> Seq<char> {
    "<details class=\"inc\" "@ + open_of(first) + "><summary><span class=\"tag "@ + tag_of(i.kind)
        + "\">"@ + escaped(kind_cn_text(i.kind)) + "</span><span class=\"inc-sum\">"@
        + escaped(i.summary) + "</span><span class=\"inc-time\">"@ + escaped(i.time) + "</span>"@
        + step_chip(i.step) + "</summary><pre class=\"stack\">"@ + escaped(i.detail) + "</pre>"@
        + scene_of(i.shot, i.shot_thumb) + log_link(i.file) + "</details>"@
}

fn show_incident(i: &Incident, first: bool) -> (r: String)
    ensures
        r@ == incident_block(i@, first),
{
    let mut h = "<details class=\"inc\" ".to_string();
    h.append(show_open(first));
    h.append("><summary><span class=\"tag ");
    h.append(show_tag(i.kind));
    h.append("\">");
    h.append(esc(i.kind_cn().as_str()).as_str());
    h.append("</span><span class=\"inc-sum\">");
    h.append(esc(i.summary.as_str()).as_str());
    h.append("</span><span class=\"inc-time\">");
    h.append(esc(i.time.as_str()).as_str());
    h.append("</span>");
    h.append(show_step_chip(i.step).as_str());
    h.append("</summary><pre class=\"stack\">");
    h.append(esc(i.detail.as_str()).as_str());
    h.append("</pre>");
    h.append(show_scene(&i.shot, &i.shot_thumb).as_str());
    h.append(show_log_link(&i.file).as_str());
    h.append("</details>");
    h
}

/// The incidents, the first of them open.
pub open spec fn incident_blocks(s: Seq<IncidentView>) -> Seq<char>
    decreases s.len(),
{
    if s.len() == 0 {
        seq![]
    } else {
        incident_blocks(s.drop_last()) + incident_block(s.last(), s.len() == 1)
    }
}

/// The part of the page about incidents.
pub open spec fn incidents_of(s: Seq<IncidentView>) -> Seq<char> {
    if s.len() == 0 {
        "<div class=\"empty\">本次遍历未发现 crash / ANR 异常。</div>"@
    } else {
        incident_blocks(s)
    }
}

fn show_incidents(v: &Vec<Incident>) -> (r: String)
    ensures
        r@ == incidents_of(incident_views(v@)),
{
    let ghost all = incident_views(v@);
    assert(all.len() == v@.len());
    if v.len() == 0 {
        return "<div class=\"empty\">本次遍历未发现 crash / ANR 异常。</div>".to_string();
    }
    let mut out = String::new();
    let mut i: usize = 0;
    assert(out@ =~= incident_blocks(all.take(0)));
    while i < v.len()
        invariant
            i <= v@.len(),
            all == incident_views(v@),
            out@ == incident_blocks(all.take(i as int)),
        decreases v@.len() - i,
    {
        out.append(show_incident(&v[i], i == 0).as_str());
        proof {
            assert(all.take(i + 1).drop_last() =~= all.take(i as int));
            assert(all.take(i + 1).last() == v@[i as int]@);
        }
        i = i + 1;
    }
    assert(all.take(i as int) =~= all);
    out
}

// ---------------------------------------------------------------- coverage

/// One activity. `width` is the length of its bar in hundredths, in digits.
pub open spec fn activity_row(a: ActivityCoverageView, width: Seq<char>) -> Seq<char> {
    "<tr>\n<td class=\"mono\">"@ + escaped(a.name) + "</td>\n<td class=\"num\">"@
        + dec(a.visits as int) + "</td>\n<td class=\"num\">#"@ + dec(a.first_step as int)
        + "</td>\n<td class=\"num\">"@ + dec(a.nodes_seen) + "</td>\n<td class=\"num\">"@
        + dec(a.nodes_touched) + "</td>\n<td><div class=\"bar\"><div class=\"bar-in "@
        + level_of(Single { bits: a.coverage as u32 }) + " \" style=\"width:"@ + width
        + "%\"></div></div><span class=\"pct "@ + level_of(Single { bits: a.coverage as u32 })
        + " \">"@ + percent(Single { bits: a.coverage as u32 }) + "</span></td>\n</tr>"@
}

fn show_activity(a: &ActivityCoverage, width: &str) -> (r: String)
    ensures
        r@ == activity_row(a@, width@),
{
    assert(a.coverage == Single { bits: a@.coverage as u32 });
    let mut h = "<tr>\n<td class=\"mono\">".to_string();
    h.append(esc(a.name.as_str()).as_str());
    h.append("</td>\n<td class=\"num\">");
    h.append(dec_text(a.visits as u64).as_str());
    h.append("</td>\n<td class=\"num\">#");
    h.append(dec_text(a.first_step as u64).as_str());
    h.append("</td>\n<td class=\"num\">");
    h.append(dec_text(a.nodes_seen as u64).as_str());
    h.append("</td>\n<td class=\"num\">");
    h.append(dec_text(a.nodes_touched as u64).as_str());
    h.append("</td>\n<td><div class=\"bar\"><div class=\"bar-in ");
    h.append(show_level(a.coverage));
    h.append(" \" style=\"width:");
    h.append(width);
    h.append("%\"></div></div><span class=\"pct ");
    h.append(show_level(a.coverage));
    h.append(" \">");
    h.append(pct(a.coverage).as_str());
    h.append("</span></td>\n</tr>");
    h
}

/// The activities.
pub open spec fn activity_rows(s: Seq<ActivityCoverageView>, widths: Seq<Seq<char>>) -> Seq<char>
    decreases s.len(),
{
    if s.len() == 0 {
        seq![]
    } else {
        activity_rows(s.drop_last(), widths) + activity_row(s.last(), widths[s.len() - 1])
    }
}

/// The table of the activities.
pub open spec fn activities_of(s: Seq<ActivityCoverageView>, widths: Seq<Seq<char>>) -> Seq<char> {
    if s.len() == 0 {
        "<tr><td colspan=\"6\" class=\"empty\">未采集到被测应用的 Activity</td></tr>"@
    } else {
        activity_rows(s, widths)
    }
}

fn show_activities(v: &Vec<ActivityCoverage>, widths: &Vec<String>) -> (r: String)
    requires
        widths@.len() == v@.len(),
    ensures
        r@ == activities_of(activity_coverage_views(v@), texts(widths@)),
{
    let ghost all = activity_coverage_views(v@);
    assert(all.len() == v@.len());
    if v.len() == 0 {
        return "<tr><td colspan=\"6\" class=\"empty\">未采集到被测应用的 Activity</td></tr>".to_string();
    }
    let mut out = String::new();
    let mut i: usize = 0;
    assert(out@ =~= activity_rows(all.take(0), texts(widths@)));
    while i < v.len()
        invariant
            i <= v@.len(),
            widths@.len() == v@.len(),
            all == activity_coverage_views(v@),
            out@ == activity_rows(all.take(i as int), texts(widths@)),
        decreases v@.len() - i,
    {
        out.append(show_activity(&v[i], widths[i].as_str()).as_str());
        proof {
            assert(all.take(i + 1).drop_last() =~= all.take(i as int));
            assert(all.take(i + 1).last() == v@[i as int]@);
            assert(texts(widths@)[i as int] == widths@[i as int]@);
        }
        i = i + 1;
    }
    assert(all.take(i as int) =~= all);
    out
}

/// One widget that nothing was done with.
pub open spec fn widget_row(n: StatView) -> Seq<char> {
    "<tr><td class=\"mono\">"@ + escaped(n.class) + "</td><td>"@ + escaped(n.label)
        + "</td><td class=\"mono dim\">"@ + escaped(n.resource_id) + "</td><td class=\"num\">"@
        + dec(n.seen as int) + "</td></tr>"@
}

fn show_widget(n: &NodeStat) -> (r: String)
    ensures
        r@ == widget_row(n@),
{
    let mut h = "<tr><td class=\"mono\">".to_string();
    h.append(esc(n.class.as_str()).as_str());
    h.append("</td><td>");
    h.append(esc(n.label.as_str()).as_str());
    h.append("</td><td class=\"mono dim\">");
    h.append(esc(n.resource_id.as_str()).as_str());
    h.append("</td><td class=\"num\">");
    h.append(dec_text(n.seen as u64).as_str());
    h.append("</td></tr>");
    h
}

/// Widgets that nothing was done with.
pub open spec fn widget_rows(s: Seq<StatView>) -> Seq<char>
    decreases s.len(),
{
    if s.len() == 0 {
        seq![]
    } else {
        widget_rows(s.drop_last()) + widget_row(s.last())
    }
}

fn show_widgets(v: &Vec<NodeStat>) -> (r: String)
    ensures
        r@ == widget_rows(stat_views(v@)),
{
    let ghost all = stat_views(v@);
    let mut out = String::new();
    let mut i: usize = 0;
    assert(out@ =~= widget_rows(all.take(0)));
    while i < v.len()
        invariant
            i <= v@.len(),
            all == stat_views(v@),
            out@ == widget_rows(all.take(i as int)),
        decreases v@.len() - i,
    {
        out.append(show_widget(&v[i]).as_str());
        proof {
            assert(all.take(i + 1).drop_last() =~= all.take(i as int));
            assert(all.take(i + 1).last() == v@[i as int]@);
        }
        i = i + 1;
    }
    assert(all.take(i as int) =~= all);
    out
}

/// The widgets that nothing was done with.
pub open spec fn untouched_of(c: CoverageView) -> Seq<char> {
    if c.untouched_sample.len() == 0 {
        seq![]
    } else {
        "<details class=\"more\"><summary>未被操作过的控件（最多 50 个，共 "@ + dec(c.total_nodes - c.touched_nodes)
            + " 个）</summary><table class=\"tbl\"><thead><tr><th>类型</th><th>标识</th><th>resource-id</th><th>出现次数</th></tr></thead><tbody>"@
            + widget_rows(c.untouched_sample) + "</tbody></table></details>"@
    }
}

fn show_untouched(c: &CoverageReport) -> (r: String)
    requires
        c.touched_nodes <= c.total_nodes,
    ensures
        r@ == untouched_of(c@),
{
    assert(c@.untouched_sample.len() == c.untouched_sample@.len());
    if c.untouched_sample.len() == 0 {
        return nothing();
    }
    let mut h = "<details class=\"more\"><summary>未被操作过的控件（最多 50 个，共 ".to_string();
    h.append(dec_text((c.total_nodes - c.touched_nodes) as u64).as_str());
    h.append(" 个）</summary><table class=\"tbl\"><thead><tr><th>类型</th><th>标识</th><th>resource-id</th><th>出现次数</th></tr></thead><tbody>");
    h.append(show_widgets(&c.untouched_sample).as_str());
    h.append("</tbody></table></details>");
    h
}

// ---------------------------------------------------------------- steps

/// A picture that leads to a larger one.
pub open spec fn shot_link(full: Seq<char>, shown: Seq<char>, index: usize) -> Seq<char> {
    "<a class=\"shot\" href=\"../"@ + escaped(full)
        + "\" target=\"_blank\"><img loading=\"lazy\" src=\"../"@ + escaped(shown)
        + "\" alt=\"step "@ + dec(index as int) + "\"></a>"@
}

fn show_shot_link(full: &str, shown: &str, index: usize) -> (r: String)
    ensures
        r@ == shot_link(full@, shown@, index),
{
    let mut h = "<a class=\"shot\" href=\"../".to_string();
    h.append(esc(full).as_str());
    h.append("\" target=\"_blank\"><img loading=\"lazy\" src=\"../");
    h.append(esc(shown).as_str());
    h.append("\" alt=\"step ");
    h.append(dec_text(index as u64).as_str());
    h.append("\"></a>");
    h
}

/// The picture of a step: the small one where there is one.
pub open spec fn picture_of(s: StepRecordView) -> Seq<char> {
    match s.screenshot {
        Some(full) => match s.thumb {
            Some(t) => shot_link(full, t, s.index),
            None => shot_link(full, full, s.index),
        },
        None => "<div class=\"shot none\">无截图</div>"@,
    }
}

fn show_picture(s: &StepRecord) -> (r: String)
    ensures
        r@ == picture_of(s@),
{
    match &s.screenshot {
        Some(full) => match &s.thumb {
            Some(t) => show_shot_link(full.as_str(), t.as_str(), s.index),
            None => show_shot_link(full.as_str(), full.as_str(), s.index),
        },
        None => "<div class=\"shot none\">无截图</div>".to_string(),
    }
}

/// The widget that a step was aimed at.
pub open spec fn target_block(t: Option<TargetView>) -> Seq<char> {
    match t {
        Some(x) => "<div class=\"t-target\"><span class=\"chip\">"@ + escaped(x.label)
            + "</span><span class=\"mono dim\">"@ + escaped(x.resource_id) + "</span></div>"@,
        None => seq![],
    }
}

fn show_target(t: &Option<TargetInfo>) -> (r: String)
    ensures
        r@ == target_block(option_target(*t)),
{
    match t {
        Some(x) => {
            let mut h = "<div class=\"t-target\"><span class=\"chip\">".to_string();
            h.append(esc(x.label.as_str()).as_str());
            h.append("</span><span class=\"mono dim\">");
            h.append(esc(x.resource_id.as_str()).as_str());
            h.append("</span></div>");
            h
        },
        None => nothing(),
    }
}

/// Why a step could not be done.
pub open spec fn error_block(e: Option<Seq<char>>) -> Seq<char> {
    match e {
        Some(t) => "<div class=\"t-err\">执行失败："@ + escaped(t) + "</div>"@,
        None => seq![],
    }
}

fn show_error(e: &Option<String>) -> (r: String)
    ensures
        r@ == error_block(option_text(*e)),
{
    match e {
        Some(t) => {
            let mut h = "<div class=\"t-err\">执行失败：".to_string();
            h.append(esc(t.as_str()).as_str());
            h.append("</div>");
            h
        },
        None => nothing(),
    }
}

/// The mark of a step that led to a new state.
pub open spec fn new_chip(new_state: bool) -> Seq<char> {
    if new_state {
        "<span class=\"chip new\">新状态</span>"@
    } else {
        seq![]
    }
}

fn show_new_chip(new_state: bool) -> (r: String)
    ensures
        r@ == new_chip(new_state),
{
    if new_state {
        "<span class=\"chip new\">新状态</span>".to_string()
    } else {
        nothing()
    }
}

/// The activity of a step, and the one it led to where that is another.
pub open spec fn activity_block(before: Seq<char>, after: Seq<char>) -> Seq<char> {
    if after.len() > 0 && after != before {
        "<div class=\"t-act\"><span class=\"mono dim\">"@ + escaped(before)
            + "</span> → <span class=\"mono\">"@ + escaped(after) + "</span></div>"@
    } else {
        "<div class=\"t-act\"><span class=\"mono dim\">"@ + escaped(before) + "</span></div>"@
    }
}

fn show_activity_block(before: &String, after: &String) -> (r: String)
    ensures
        r@ == activity_block(before@, after@),
{
    let mut h = "<div class=\"t-act\"><span class=\"mono dim\">".to_string();
    h.append(esc(before.as_str()).as_str());
    if !is_empty(after) && !same(after.as_str(), before.as_str()) {
        h.append("</span> → <span class=\"mono\">");
        h.append(esc(after.as_str()).as_str());
    }
    h.append("</span></div>");
    h
}

/// One step.
pub open spec fn step_block(s: StepRecordView) -> Seq<char> {
    "<div class=\"step\" data-kind=\""@ + escaped(s.action_kind)
        + "\">\n  <div class=\"t-head\"><span class=\"t-idx\">#"@ + dec(s.index as int)
        + "</span><span class=\"t-kind k-"@ + escaped(s.action_kind) + "\">"@
        + escaped(s.action_kind_cn) + "</span>"@ + new_chip(s.new_state)
        + "\n    <span class=\"t-time\">"@ + escaped(s.time) + " · "@ + dec(s.duration_ms as int)
        + "ms</span></div>\n  <div class=\"t-body\">"@ + picture_of(s)
        + "<div class=\"t-main\"><div class=\"t-label\">"@ + escaped(s.action_label) + "</div>"@
        + target_block(s.target) + activity_block(s.activity_before, s.activity_after)
        + error_block(s.error) + "</div></div>\n</div>"@
}

fn show_step(s: &StepRecord) -> (r: String)
    ensures
        r@ == step_block(s@),
{
    let mut h = "<div class=\"step\" data-kind=\"".to_string();
    h.append(esc(s.action_kind.as_str()).as_str());
    h.append("\">\n  <div class=\"t-head\"><span class=\"t-idx\">#");
    h.append(dec_text(s.index as u64).as_str());
    h.append("</span><span class=\"t-kind k-");
    h.append(esc(s.action_kind.as_str()).as_str());
    h.append("\">");
    h.append(esc(s.action_kind_cn.as_str()).as_str());
    h.append("</span>");
    h.append(show_new_chip(s.new_state).as_str());
    h.append("\n    <span class=\"t-time\">");
    h.append(esc(s.time.as_str()).as_str());
    h.append(" · ");
    h.append(dec_text(s.duration_ms as u64).as_str());
    h.append("ms</span></div>\n  <div class=\"t-body\">");
    h.append(show_picture(s).as_str());
    h.append("<div class=\"t-main\"><div class=\"t-label\">");
    h.append(esc(s.action_label.as_str()).as_str());
    h.append("</div>");
    h.append(show_target(&s.target).as_str());
    h.append(show_activity_block(&s.activity_before, &s.activity_after).as_str());
    h.append(show_error(&s.error).as_str());
    h.append("</div></div>\n</div>");
    h
}

/// The steps.
pub open spec fn step_blocks(s: Seq<StepRecordView>) -> Seq<char>
    decreases s.len(),
{
    if s.len() == 0 {
        seq![]
    } else {
        step_blocks(s.drop_last()) + step_block(s.last())
    }
}

fn show_steps(v: &Vec<StepRecord>) -> (r: String)
    ensures
        r@ == step_blocks(record_views(v@)),
{
    let ghost all = record_views(v@);
    let mut out = String::new();
    let mut i: usize = 0;
    assert(out@ =~= step_blocks(all.take(0)));
    while i < v.len()
        invariant
            i <= v@.len(),
            all == record_views(v@),
            out@ == step_blocks(all.take(i as int)),
        decreases v@.len() - i,
    {
        out.append(show_step(&v[i]).as_str());
        proof {
            assert(all.take(i + 1).drop_last() =~= all.take(i as int));
            assert(all.take(i + 1).last() == v@[i as int]@);
        }
        i = i + 1;
    }
    assert(all.take(i as int) =~= all);
    out
}

/// The part of the page about steps.
pub open spec fn timeline_of(s: Seq<StepRecordView>) -> Seq<char> {
    if s.len() == 0 {
        "<div class=\"empty\">没有记录到任何步骤。</div>"@
    } else {
        step_blocks(s)
    }
}

fn show_timeline(v: &Vec<StepRecord>) -> (r: String)
    ensures
        r@ == timeline_of(record_views(v@)),
{
    assert(record_views(v@).len() == v@.len());
    if v.len() == 0 {
        "<div class=\"empty\">没有记录到任何步骤。</div>".to_string()
    } else {
        show_steps(v)
    }
}

/// The kinds of the steps.
pub open spec fn step_kinds(s: Seq<StepRecordView>) -> Seq<Seq<char>> {
    Seq::new(s.len(), |i: int| s[i].action_kind)
}

/// The Chinese name of a kind, as the first step of the kind has it.
pub open spec fn name_of_kind(s: Seq<StepRecordView>, kind: Seq<char>) -> Seq<char>
    decreases s.len(),
{
    if s.len() == 0 {
        kind
    } else if s[0].action_kind == kind {
        s[0].action_kind_cn
    } else {
        name_of_kind(s.skip(1), kind)
    }
}

/// The button for a kind of steps.
pub open spec fn button_of(s: Seq<StepRecordView>, kind: Seq<char>) -> Seq<char> {
    "<button class=\"fbtn\" data-f=\""@ + escaped(kind) + "\">"@ + escaped(name_of_kind(s, kind))
        + "</button>"@
}

/// The buttons: one for all steps, and one for each kind, in order.
pub open spec fn buttons_of(s: Seq<StepRecordView>) -> Seq<Seq<char>> {
    let kinds = sorted_set(step_kinds(s));
    seq!["<button class=\"fbtn active\" data-f=\"all\">全部</button>"@] + Seq::new(
        kinds.len(),
        |i: int| button_of(s, kinds[i]),
    )
}

fn find_name(v: &Vec<StepRecord>, kind: &str) -> (r: String)
    ensures
        r@ == name_of_kind(record_views(v@), kind@),
{
    let ghost all = record_views(v@);
    let mut i: usize = 0;
    assert(all.skip(0) =~= all);
    while i < v.len()
        invariant
            i <= v@.len(),
            all == record_views(v@),
            name_of_kind(record_views(v@), kind@) == name_of_kind(all.skip(i as int), kind@),
        decreases v@.len() - i,
    {
        proof {
            assert(all.skip(i as int)[0] == v@[i as int]@);
            assert(all.skip(i as int).skip(1) =~= all.skip(i + 1));
        }
        if same(v[i].action_kind.as_str(), kind) {
            return v[i].action_kind_cn.clone();
        }
        i = i + 1;
    }
    kind.to_string()
}

fn collect_kinds(v: &Vec<StepRecord>) -> (r: Vec<String>)
    ensures
        texts(r@) == sorted_set(step_kinds(record_views(v@))),
{
    let ghost all = step_kinds(record_views(v@));
    let mut out: Vec<String> = Vec::new();
    let mut i: usize = 0;
    assert(texts(out@) =~= sorted_set(all.take(0)));
    while i < v.len()
        invariant
            i <= v@.len(),
            all == step_kinds(record_views(v@)),
            texts(out@) == sorted_set(all.take(i as int)),
        decreases v@.len() - i,
    {
        put_text(&mut out, v[i].action_kind.clone());
        assert(all.take(i + 1).drop_last() =~= all.take(i as int));
        assert(all.take(i + 1).last() == v@[i as int].action_kind@);
        i = i + 1;
    }
    assert(all.take(i as int) =~= all);
    out
}

fn show_buttons(v: &Vec<StepRecord>) -> (r: String)
    ensures
        r@ == joined(buttons_of(record_views(v@)), "\n"@),
{
    let ghost all = record_views(v@);
    let kinds = collect_kinds(v);
    let mut out: Vec<String> = Vec::new();
    out.push("<button class=\"fbtn active\" data-f=\"all\">全部</button>".to_string());
    let mut i: usize = 0;
    while i < kinds.len()
        invariant
            i <= kinds@.len(),
            all == record_views(v@),
            texts(kinds@) == sorted_set(step_kinds(all)),
            out@.len() == i + 1,
            out@[0]@ == "<button class=\"fbtn active\" data-f=\"all\">全部</button>"@,
            forall|j: int|
                1 <= j <= i ==> #[trigger] out@[j]@ == button_of(all, texts(kinds@)[j - 1]),
        decreases kinds@.len() - i,
    {
        let mut h = "<button class=\"fbtn\" data-f=\"".to_string();
        h.append(esc(kinds[i].as_str()).as_str());
        h.append("\">");
        h.append(esc(find_name(v, kinds[i].as_str()).as_str()).as_str());
        h.append("</button>");
        assert(h@ == button_of(all, texts(kinds@)[i as int]));
        out.push(h);
        i = i + 1;
    }
    assert(texts(out@) =~= buttons_of(all));
    join(&out, "\n")
}

// ---------------------------------------------------------------- the page

/// The page with the marks in it replaced, one after the other.
pub open spec fn page_of(s: SessionView, template: Seq<char>, widths: Seq<Seq<char>>) -> Seq<char> {
    let p0 = all_replaced(template, "__PACKAGE__"@, escaped(s.package));
    let p1 = all_replaced(p0, "__DEVICE__"@, escaped(info_text(s.device)));
    let p2 = all_replaced(p1, "__STARTED__"@, escaped(s.started_at));
    let p3 = all_replaced(p2, "__FINISHED__"@, escaped(s.finished_at));
    let p4 = all_replaced(p3, "__DURATION__"@, duration_text(s.duration_ms as int));
    let p5 = all_replaced(p4, "__METRICS__"@, metrics_of(s));
    let p6 = all_replaced(p5, "__INCIDENTS__"@, incidents_of(s.incidents));
    let p7 = all_replaced(p6, "__COVERAGE__"@, activities_of(s.coverage.activities, widths));
    let p8 = all_replaced(p7, "__UNTOUCHED__"@, untouched_of(s.coverage));
    let p9 = all_replaced(p8, "__TIMELINE__"@, timeline_of(s.steps));
    let p10 = all_replaced(p9, "__FILTERS__"@, joined(buttons_of(s.steps), "\n"@));
    all_replaced(p10, "__VERSION__"@, escaped(s.version))
}

/// The report on a run. `template` is the page with the marks, and `widths` holds the length of
/// the bar of each activity in hundredths, in digits.
pub fn build_html(s: &Session, template: &str, widths: &Vec<String>) -> (r: String)
    requires
        widths@.len() == s.coverage.activities@.len(),
        s.coverage.touched_nodes <= s.coverage.total_nodes,
    ensures
        r@ == page_of(s@, template@, texts(widths@)),
{
    proof {
        lemma_marks_not_empty();
    }
    let p0 = replace_all(template, "__PACKAGE__", esc(s.package.as_str()).as_str());
    let p1 = replace_all(p0.as_str(), "__DEVICE__", esc(s.device.display().as_str()).as_str());
    let p2 = replace_all(p1.as_str(), "__STARTED__", esc(s.started_at.as_str()).as_str());
    let p3 = replace_all(p2.as_str(), "__FINISHED__", esc(s.finished_at.as_str()).as_str());
    let p4 = replace_all(p3.as_str(), "__DURATION__", fmt_duration(s.duration_ms).as_str());
    let p5 = replace_all(p4.as_str(), "__METRICS__", show_metrics(s).as_str());
    let p6 = replace_all(p5.as_str(), "__INCIDENTS__", show_incidents(&s.incidents).as_str());
    let p7 = replace_all(p6.as_str(), "__COVERAGE__", show_activities(&s.coverage.activities, widths).as_str());
    let p8 = replace_all(p7.as_str(), "__UNTOUCHED__", show_untouched(&s.coverage).as_str());
    let p9 = replace_all(p8.as_str(), "__TIMELINE__", show_timeline(&s.steps).as_str());
    let p10 = replace_all(p9.as_str(), "__FILTERS__", show_buttons(&s.steps).as_str());
    replace_all(p10.as_str(), "__VERSION__", esc(s.version.as_str()).as_str())
}

proof fn lemma_marks_not_empty()
    ensures
        "__PACKAGE__"@.len() > 0,
        "__DEVICE__"@.len() > 0,
        "__STARTED__"@.len() > 0,
        "__FINISHED__"@.len() > 0,
        "__DURATION__"@.len() > 0,
        "__METRICS__"@.len() > 0,
        "__INCIDENTS__"@.len() > 0,
        "__COVERAGE__"@.len() > 0,
        "__UNTOUCHED__"@.len() > 0,
        "__TIMELINE__"@.len() > 0,
        "__FILTERS__"@.len() > 0,
        "__VERSION__"@.len() > 0,
{
    reveal_strlit("__PACKAGE__");
    reveal_strlit("__DEVICE__");
    reveal_strlit("__STARTED__");
    reveal_strlit("__FINISHED__");
    reveal_strlit("__DURATION__");
    reveal_strlit("__METRICS__");
    reveal_strlit("__INCIDENTS__");
    reveal_strlit("__COVERAGE__");
    reveal_strlit("__UNTOUCHED__");
    reveal_strlit("__TIMELINE__");
    reveal_strlit("__FILTERS__");
    reveal_strlit("__VERSION__");
}

} // verus!
