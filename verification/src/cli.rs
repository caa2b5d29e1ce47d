//! The command line: what is handed on to a phone, and what is said at the end.

use vstd::prelude::*;

use crate::decimal::pct;
use crate::decimal::percent;
use crate::monitor::line::option_text;
use crate::runner::options::RunOptions;
use crate::script::suite::ScriptRun;
use crate::script::suite::Summary;
use crate::session::anrs_in;
use crate::session::crashes_in;
use crate::session::Session;
use crate::session::SessionView;
use crate::single::Single;
use crate::strategy::config::mode_text;
use crate::text::basic::chars_of;
use crate::text::basic::same;
use crate::text::basic::slice_text;
use crate::text::basic::texts;
use crate::text::number::dec;
use crate::text::number::dec_text;
use crate::text::search::trim;
use crate::text::search::trimmed;
use crate::text::split::lines_of;
use crate::text::split::split_lines;
use crate::util::duration_text;
use crate::util::fmt_duration;

verus! {

/// Where the program is put on a phone.
pub const REMOTE_BIN: &'static str = "/data/local/tmp/atraverse";

// ---------------------------------------------------------------- what is handed on

/// An option without a value, where it is set.
pub open spec fn flag_of(set: bool, name: Seq<char>) -> Seq<char> {
    if set {
        " "@ + name
    } else {
        seq![]
    }
}

fn push_flag(out: &mut String, set: bool, name: &str)
    ensures
        final(out)@ == old(out)@ + flag_of(set, name@),
{
    if set {
        out.append(" ");
        out.append(name);
    }
    assert(out@ =~= old(out)@ + flag_of(set, name@));
}

/// The option for the activity, where one was asked for.
pub open spec fn activity_option(activity: Option<Seq<char>>) -> Seq<char> {
    match activity {
        Some(a) => " --activity "@ + a,
        None => seq![],
    }
}

fn show_activity_option(activity: &Option<String>) -> (r: String)
    ensures
        r@ == activity_option(option_text(*activity)),
{
    match activity {
        Some(a) => {
            let mut h = " --activity ".to_string();
            h.append(a.as_str());
            h
        },
        None => {
            let e = String::new();
            assert(e@ =~= seq![]);
            e
        },
    }
}

/// The command that runs the program on a phone, with the options of the run and the directory for
/// its results. The texts to type are not handed on: they are in a file of the computer.
pub open spec fn agent_text(o: RunOptions, output: Seq<char>, keep_animations: bool) -> Seq<char> {
    REMOTE_BIN@ + " agent --package "@ + o.package@
        + activity_option(option_text(o.activity)) + " --output "@ + output + " --duration "@
        + dec(o.duration_secs as int) + " --max-steps "@ + dec(o.max_steps as int)
        + " --interval "@ + dec(o.interval_ms as int) + " --settle "@ + dec(o.settle_ms as int)
        + " --seed "@ + dec(o.seed as int) + " --max-same-state "@ + dec(o.max_same_state as int)
        + " --max-relaunch "@ + dec(o.max_relaunch as int) + " --state-mode "@
        + mode_text(o.state_mode)
        + flag_of(!o.screenshot, "--no-screenshot"@)
        + flag_of(!o.annotate, "--no-annotate"@)
        + flag_of(o.keep_raw, "--keep-raw"@)
        + flag_of(o.verbose, "--verbose"@)
        + flag_of(keep_animations, "--keep-animations"@)
}

/// The command that runs the program on a phone.
pub fn agent_command(o: &RunOptions, output: &str, keep_animations: bool) -> (r: String)
    ensures
        r@ == agent_text(*o, output@, keep_animations),
{
    let mut h = REMOTE_BIN.to_string();
    h.append(" agent --package ");
    h.append(o.package.as_str());
    h.append(show_activity_option(&o.activity).as_str());
    h.append(" --output ");
    h.append(output);
    h.append(" --duration ");
    h.append(dec_text(o.duration_secs as u64).as_str());
    h.append(" --max-steps ");
    h.append(dec_text(o.max_steps as u64).as_str());
    h.append(" --interval ");
    h.append(dec_text(o.interval_ms as u64).as_str());
    h.append(" --settle ");
    h.append(dec_text(o.settle_ms as u64).as_str());
    h.append(" --seed ");
    h.append(dec_text(o.seed as u64).as_str());
    h.append(" --max-same-state ");
    h.append(dec_text(o.max_same_state as u64).as_str());
    h.append(" --max-relaunch ");
    h.append(dec_text(o.max_relaunch as u64).as_str());
    h.append(" --state-mode ");
    h.append(o.state_mode.as_str());
    push_flag(&mut h, !o.screenshot, "--no-screenshot");
    push_flag(&mut h, !o.annotate, "--no-annotate");
    push_flag(&mut h, o.keep_raw, "--keep-raw");
    push_flag(&mut h, o.verbose, "--verbose");
    push_flag(&mut h, keep_animations, "--keep-animations");
    h
}

/// A text without the slashes at its end.
pub open spec fn without_slashes(s: Seq<char>) -> Seq<char>
    decreases s.len(),
{
    if s.len() > 0 && s.last() == '/' {
        without_slashes(s.drop_last())
    } else {
        s
    }
}

/// The directory for the results on a phone: the name below the given directory.
pub fn remote_output(dir: &str, name: &str) -> (r: String)
    ensures
        r@ == without_slashes(dir@) + "/"@ + name@,
{
    let v = chars_of(dir);
    let mut n: usize = v.len();
    assert(v@.take(n as int) =~= v@);
    while n > 0 && v[n - 1] == '/'
        invariant
            n <= v@.len(),
            without_slashes(v@.take(n as int)) == without_slashes(v@),
        decreases n,
    {
        assert(v@.take(n as int).drop_last() =~= v@.take(n - 1));
        assert(v@.take(n as int).last() == v@[n - 1]);
        n = n - 1;
    }
    proof {
        if n > 0 {
            assert(v@.take(n as int).last() == v@[n - 1]);
        }
    }
    let mut h = slice_text(v.as_slice(), 0, n);
    assert(h@ =~= v@.take(n as int));
    h.append("/");
    h.append(name);
    h
}

/// The texts to type, by a file with one in each line; blank lines do not count.
pub open spec fn pool_of(lines: Seq<Seq<char>>) -> Seq<Seq<char>>
    decreases lines.len(),
{
    if lines.len() == 0 {
        seq![]
    } else {
        let before = pool_of(lines.drop_last());
        let t = trimmed(lines.last());
        if t.len() > 0 {
            before.push(t)
        } else {
            before
        }
    }
}

/// The texts to type, by a file with one in each line.
pub fn parse_text_pool(text: &str) -> (r: Vec<String>)
    ensures
        texts(r@) == pool_of(lines_of(text@)),
{
    let lines = split_lines(text);
    let ghost all = texts(lines@);
    let mut out: Vec<String> = Vec::new();
    let mut i: usize = 0;
    assert(texts(out@) =~= pool_of(all.take(0)));
    while i < lines.len()
        invariant
            i <= lines@.len(),
            all == texts(lines@),
            texts(out@) == pool_of(all.take(i as int)),
        decreases lines@.len() - i,
    {
        proof {
            assert(all.take(i + 1).drop_last() =~= all.take(i as int));
            assert(all.take(i + 1).last() == lines@[i as int]@);
        }
        let t = trim(lines[i].as_str());
        let ghost before = texts(out@);
        let ghost v = t@;
        if chars_of(t.as_str()).len() > 0 {
            out.push(t);
            assert(texts(out@) =~= before.push(v));
        }
        i = i + 1;
    }
    assert(all.take(i as int) =~= all);
    out
}

/// The target to build for, by the name of a kind of processor; none where there is no such kind.
pub open spec fn named_target(abi: Seq<char>) -> Option<Seq<char>> {
    if abi == "arm64"@ || abi == "arm64-v8a"@ || abi == "aarch64"@ {
        Some("aarch64-linux-android"@)
    } else if abi == "armv7"@ || abi == "armeabi-v7a"@ || abi == "arm"@ {
        Some("armv7-linux-androideabi"@)
    } else if abi == "x86_64"@ {
        Some("x86_64-linux-android"@)
    } else {
        None
    }
}

/// The target to build for, by the name of a kind of processor.
pub fn target_by_name(abi: &str) -> (r: Option<&'static str>)
    ensures
        match r {
            Some(t) => named_target(abi@) == Some(t@),
            None => named_target(abi@) is None,
        },
{
    if same(abi, "arm64") || same(abi, "arm64-v8a") || same(abi, "aarch64") {
        Some("aarch64-linux-android")
    } else if same(abi, "armv7") || same(abi, "armeabi-v7a") || same(abi, "arm") {
        Some("armv7-linux-androideabi")
    } else if same(abi, "x86_64") {
        Some("x86_64-linux-android")
    } else {
        None
    }
}

/// Where the program is once it was built for a target.
pub fn target_binary(target: &str, windows: bool) -> (r: String)
    ensures
        r@ == "target/"@ + target@ + "/release/"@ + if windows {
            "atraverse.exe"@
        } else {
            "atraverse"@
        },
{
    let mut h = "target/".to_string();
    h.append(target);
    h.append("/release/");
    if windows {
        h.append("atraverse.exe");
    } else {
        h.append("atraverse");
    }
    h
}

// ---------------------------------------------------------------- what is said at the end

/// Where a run took place.
pub open spec fn place_of(mode: Seq<char>) -> Seq<char> {
    if mode == "device"@ {
        "手机端"@
    } else {
        "PC 端（adb）"@
    }
}

fn show_place(mode: &str) -> (r: &'static str)
    ensures
        r@ == place_of(mode@),
{
    if same(mode, "device") {
        "手机端"
    } else {
        "PC 端（adb）"
    }
}

/// What came of a run, where its results are and where the report is.
pub open spec fn run_summary_of(s: SessionView, dir: Seq<char>, report: Seq<char>) -> Seq<char> {
    "应用        : "@ + s.package + "\n运行位置    : "@ + place_of(s.device.mode) + "\n步骤        : "@
        + dec(s.steps.len() as int) + " 步（"@ + duration_text(s.duration_ms as int)
        + "）\nActivity    : "@ + dec(s.coverage.activity_count) + " 个，去重状态 "@
        + dec(s.state_count as int) + " 个\n控件覆盖    : "@ + dec(s.coverage.interactive_touched)
        + "/"@ + dec(s.coverage.interactive_nodes) + " ("@
        + percent(Single { bits: s.coverage.interactive_coverage as u32 }) + ")  [可交互控件；全部节点 "@
        + dec(s.coverage.touched_nodes) + "/"@ + dec(s.coverage.total_nodes) + " = "@
        + percent(Single { bits: s.coverage.node_coverage as u32 }) + "]\n异常        : crash "@
        + dec(crashes_in(s.incidents)) + " 个，ANR "@ + dec(anrs_in(s.incidents))
        + " 个\n会话目录    : "@ + dir + "\n报告        : "@ + report
}

/// What came of a run, where its results are and where the report is.
pub fn run_summary(s: &Session, dir: &str, report: &str) -> (r: String)
    ensures
        r@ == run_summary_of(s@, dir@, report@),
{
    assert(s@.steps.len() == s.steps@.len());
    assert(s.coverage.interactive_coverage == Single {
        bits: s@.coverage.interactive_coverage as u32,
    });
    assert(s.coverage.node_coverage == Single { bits: s@.coverage.node_coverage as u32 });
    let mut h = "应用        : ".to_string();
    h.append(s.package.as_str());
    h.append("\n运行位置    : ");
    h.append(show_place(s.device.mode.as_str()));
    h.append("\n步骤        : ");
    h.append(dec_text(s.steps.len() as u64).as_str());
    h.append(" 步（");
    h.append(fmt_duration(s.duration_ms).as_str());
    h.append("）\nActivity    : ");
    h.append(dec_text(s.coverage.activity_count as u64).as_str());
    h.append(" 个，去重状态 ");
    h.append(dec_text(s.state_count as u64).as_str());
    h.append(" 个\n控件覆盖    : ");
    h.append(dec_text(s.coverage.interactive_touched as u64).as_str());
    h.append("/");
    h.append(dec_text(s.coverage.interactive_nodes as u64).as_str());
    h.append(" (");
    h.append(pct(s.coverage.interactive_coverage).as_str());
    h.append(")  [可交互控件；全部节点 ");
    h.append(dec_text(s.coverage.touched_nodes as u64).as_str());
    h.append("/");
    h.append(dec_text(s.coverage.total_nodes as u64).as_str());
    h.append(" = ");
    h.append(pct(s.coverage.node_coverage).as_str());
    h.append("]\n异常        : crash ");
    h.append(dec_text(s.crash_count() as u64).as_str());
    h.append(" 个，ANR ");
    h.append(dec_text(s.anr_count() as u64).as_str());
    h.append(" 个\n会话目录    : ");
    h.append(dir);
    h.append("\n报告        : ");
    h.append(report);
    h
}

/// How many cases came to what, in words.
pub open spec fn counts_text(s: Summary, mode: Seq<char>) -> Seq<char> {
    if mode == "dry-run"@ {
        "闸门通过 "@ + dec(s.pass as int) + " / 阻塞 "@ + dec(s.blocked as int) + "（共 "@
            + dec(s.total as int) + " 条）—— 未连设备"@
    } else if s.skip > 0 {
        "通过 "@ + dec(s.pass as int) + " / 失败 "@ + dec(s.fail as int) + " / 阻塞 "@
            + dec(s.blocked as int) + " / 跳过 "@ + dec(s.skip as int) + "（共 "@
            + dec(s.total as int) + " 条，"@ + duration_text(s.duration_ms as int) + "）"@
    } else {
        "通过 "@ + dec(s.pass as int) + " / 失败 "@ + dec(s.fail as int) + " / 阻塞 "@
            + dec(s.blocked as int) + "（共 "@ + dec(s.total as int) + " 条，"@
            + duration_text(s.duration_ms as int) + "）"@
    }
}

/// What came of a run of cases; assertions that were skipped are pointed out.
pub open spec fn suite_summary_of(s: Summary, mode: Seq<char>) -> Seq<char> {
    if s.skipped_assertions > 0 {
        counts_text(s, mode)
            + "\n注意：有 "@ + dec(s.skipped_assertions as int) + " 条断言被跳过（未评估），对应用例不计入「通过」"@
    } else {
        counts_text(s, mode)
    }
}

fn show_counts(s: &Summary, mode: &str) -> (r: String)
    ensures
        r@ == counts_text(*s, mode@),
{
    if same(mode, "dry-run") {
        let mut h = "闸门通过 ".to_string();
        h.append(dec_text(s.pass as u64).as_str());
        h.append(" / 阻塞 ");
        h.append(dec_text(s.blocked as u64).as_str());
        h.append("（共 ");
        h.append(dec_text(s.total as u64).as_str());
        h.append(" 条）—— 未连设备");
        h
    } else if s.skip > 0 {
        let mut h = "通过 ".to_string();
        h.append(dec_text(s.pass as u64).as_str());
        h.append(" / 失败 ");
        h.append(dec_text(s.fail as u64).as_str());
        h.append(" / 阻塞 ");
        h.append(dec_text(s.blocked as u64).as_str());
        h.append(" / 跳过 ");
        h.append(dec_text(s.skip as u64).as_str());
        h.append("（共 ");
        h.append(dec_text(s.total as u64).as_str());
        h.append(" 条，");
        h.append(fmt_duration(s.duration_ms).as_str());
        h.append("）");
        h
    } else {
        let mut h = "通过 ".to_string();
        h.append(dec_text(s.pass as u64).as_str());
        h.append(" / 失败 ");
        h.append(dec_text(s.fail as u64).as_str());
        h.append(" / 阻塞 ");
        h.append(dec_text(s.blocked as u64).as_str());
        h.append("（共 ");
        h.append(dec_text(s.total as u64).as_str());
        h.append(" 条，");
        h.append(fmt_duration(s.duration_ms).as_str());
        h.append("）");
        h
    }
}

/// What came of a run of cases.
pub fn suite_summary(s: &Summary, mode: &str) -> (r: String)
    ensures
        r@ == suite_summary_of(*s, mode@),
{
    let mut h = show_counts(s, mode);
    if s.skipped_assertions > 0 {
        h.append("\n注意：有 ");
        h.append(dec_text(s.skipped_assertions as u64).as_str());
        h.append(" 条断言被跳过（未评估），对应用例不计入「通过」");
        assert(h@ =~= suite_summary_of(*s, mode@));
    }
    h
}

/// What the program tells its caller: one where a case failed or was blocked, else zero.
pub fn exit_code(run: &ScriptRun) -> (r: i32)
    ensures
        r == if run.summary.fail > 0 || run.summary.blocked > 0 {
            1int
        } else {
            0int
        },
{
    if run.has_problem() {
        1
    } else {
        0
    }
}

} // verus!
