//! What is handed on to a phone, and what is said at the end.

use vstd::prelude::*;

use crate::cli::activity_option;
use crate::cli::agent_text;
use crate::cli::counts_text;
use crate::cli::flag_of;
use crate::cli::named_target;
use crate::cli::place_of;
use crate::cli::pool_of;
use crate::cli::run_summary_of;
use crate::cli::suite_summary_of;
use crate::cli::without_slashes;
use crate::decimal::percent;
use crate::device::info::InfoView;
use crate::device::info::info_text;
use crate::device::info::target_of_abi;
use crate::monitor::line::option_text;
use crate::runner::options::RunOptions;
use crate::runner::rules::lemma_within;
use crate::script::suite::Summary;
use crate::session::SessionView;
use crate::session::anrs_in;
use crate::session::crashes_in;
use crate::single::Single;
use crate::strategy::config::mode_text;
use crate::text::law::lemma_has_five;
use crate::text::law::lemma_has_part;
use crate::text::law::lemma_has_three;
use crate::text::law::lemma_has_two;
use crate::text::law::lemma_run_on_ends;
use crate::text::law::lemma_run_on_more;
use crate::text::law::lemma_run_on_one;
use crate::text::law::run_on;
use crate::text::number::dec;
use crate::text::number::dec_signed;
use crate::text::search::finishes;
use crate::text::search::has;
use crate::text::search::occurs_at;
use crate::text::search::trimmed;
use crate::util::duration_text;

verus! {

/// The option is written where it is set.
pub open spec fn if_set(set: bool, option: Seq<char>) -> Seq<char> {
    if set {
        option
    } else {
        seq![]
    }
}

/// The command for the phone hands on every option of the run with its own value.
pub proof fn lemma_options_are_handed_on(o: RunOptions, output: Seq<char>, keep: bool)
    ensures
        ({
            let t = agent_text(o, output, keep);
            &&& has(t, " agent --package "@ + o.package@)
            &&& option_text(o.activity) is Some ==> has(
                t,
                " --activity "@ + option_text(o.activity)->0 + " --output "@,
            )
            &&& option_text(o.activity) is None ==> has(t, o.package@ + " --output "@)
            &&& has(t, " --output "@ + output + " --duration "@)
            &&& has(t, " --duration "@ + dec(o.duration_secs as int) + " --max-steps "@)
            &&& has(t, " --max-steps "@ + dec(o.max_steps as int) + " --interval "@)
            &&& has(t, " --interval "@ + dec(o.interval_ms as int) + " --settle "@)
            &&& has(t, " --settle "@ + dec(o.settle_ms as int) + " --seed "@)
            &&& has(t, " --seed "@ + dec(o.seed as int) + " --max-same-state "@)
            &&& has(t, " --max-same-state "@ + dec(o.max_same_state as int) + " --max-relaunch "@)
            &&& has(t, " --max-relaunch "@ + dec(o.max_relaunch as int) + " --state-mode "@)
        }),
{
    let a = activity_option(option_text(o.activity));
    let t = agent_text(o, output, keep);
    let q1 = seq![crate::cli::REMOTE_BIN@];
    lemma_run_on_one(crate::cli::REMOTE_BIN@);
    let q2 = q1.push(" agent --package "@);
    lemma_run_on_more(q1, " agent --package "@);
    let q3 = q2.push(o.package@);
    lemma_run_on_more(q2, o.package@);
    let q4 = q3.push(a);
    lemma_run_on_more(q3, a);
    let q5 = q4.push(" --output "@);
    lemma_run_on_more(q4, " --output "@);
    let q6 = q5.push(output);
    lemma_run_on_more(q5, output);
    let q7 = q6.push(" --duration "@);
    lemma_run_on_more(q6, " --duration "@);
    let q8 = q7.push(dec(o.duration_secs as int));
    lemma_run_on_more(q7, dec(o.duration_secs as int));
    let q9 = q8.push(" --max-steps "@);
    lemma_run_on_more(q8, " --max-steps "@);
    let q10 = q9.push(dec(o.max_steps as int));
    lemma_run_on_more(q9, dec(o.max_steps as int));
    let q11 = q10.push(" --interval "@);
    lemma_run_on_more(q10, " --interval "@);
    let q12 = q11.push(dec(o.interval_ms as int));
    lemma_run_on_more(q11, dec(o.interval_ms as int));
    let q13 = q12.push(" --settle "@);
    lemma_run_on_more(q12, " --settle "@);
    let q14 = q13.push(dec(o.settle_ms as int));
    lemma_run_on_more(q13, dec(o.settle_ms as int));
    let q15 = q14.push(" --seed "@);
    lemma_run_on_more(q14, " --seed "@);
    let q16 = q15.push(dec(o.seed as int));
    lemma_run_on_more(q15, dec(o.seed as int));
    let q17 = q16.push(" --max-same-state "@);
    lemma_run_on_more(q16, " --max-same-state "@);
    let q18 = q17.push(dec(o.max_same_state as int));
    lemma_run_on_more(q17, dec(o.max_same_state as int));
    let q19 = q18.push(" --max-relaunch "@);
    lemma_run_on_more(q18, " --max-relaunch "@);
    let q20 = q19.push(dec(o.max_relaunch as int));
    lemma_run_on_more(q19, dec(o.max_relaunch as int));
    let q21 = q20.push(" --state-mode "@);
    lemma_run_on_more(q20, " --state-mode "@);
    let q22 = q21.push(mode_text(o.state_mode));
    lemma_run_on_more(q21, mode_text(o.state_mode));
    let q23 = q22.push(flag_of(!o.screenshot, "--no-screenshot"@));
    lemma_run_on_more(q22, flag_of(!o.screenshot, "--no-screenshot"@));
    let q24 = q23.push(flag_of(!o.annotate, "--no-annotate"@));
    lemma_run_on_more(q23, flag_of(!o.annotate, "--no-annotate"@));
    let q25 = q24.push(flag_of(o.keep_raw, "--keep-raw"@));
    lemma_run_on_more(q24, flag_of(o.keep_raw, "--keep-raw"@));
    let q26 = q25.push(flag_of(o.verbose, "--verbose"@));
    lemma_run_on_more(q25, flag_of(o.verbose, "--verbose"@));
    let q27 = q26.push(flag_of(keep, "--keep-animations"@));
    lemma_run_on_more(q26, flag_of(keep, "--keep-animations"@));
    assert(t == run_on(q27));
    assert(q27[1] == " agent --package "@);
    assert(q27[2] == o.package@);
    assert(q27[3] == a);
    assert(q27[4] == " --output "@);
    assert(q27[5] == output);
    assert(q27[6] == " --duration "@);
    assert(q27[7] == dec(o.duration_secs as int));
    assert(q27[8] == " --max-steps "@);
    assert(q27[9] == dec(o.max_steps as int));
    assert(q27[10] == " --interval "@);
    assert(q27[11] == dec(o.interval_ms as int));
    assert(q27[12] == " --settle "@);
    assert(q27[13] == dec(o.settle_ms as int));
    assert(q27[14] == " --seed "@);
    assert(q27[15] == dec(o.seed as int));
    assert(q27[16] == " --max-same-state "@);
    assert(q27[17] == dec(o.max_same_state as int));
    assert(q27[18] == " --max-relaunch "@);
    assert(q27[19] == dec(o.max_relaunch as int));
    assert(q27[20] == " --state-mode "@);
    lemma_has_two(q27, 1);
    lemma_has_two(q27, 3);
    lemma_has_three(q27, 2);
    lemma_has_three(q27, 4);
    lemma_has_three(q27, 6);
    lemma_has_three(q27, 8);
    lemma_has_three(q27, 10);
    lemma_has_three(q27, 12);
    lemma_has_three(q27, 14);
    lemma_has_three(q27, 16);
    lemma_has_three(q27, 18);
    if option_text(o.activity) is None {
        assert(o.package@ + a + " --output "@ =~= o.package@ + " --output "@);
    }
}

/// The command ends with how states are told apart and with the switches that were set.
pub proof fn lemma_switches_are_handed_on(o: RunOptions, output: Seq<char>, keep: bool)
    ensures
        finishes(
            agent_text(o, output, keep),
            " --state-mode "@ + mode_text(o.state_mode) + if_set(
                !o.screenshot,
                " "@ + "--no-screenshot"@,
            ) + if_set(!o.annotate, " "@ + "--no-annotate"@) + if_set(
                o.keep_raw,
                " "@ + "--keep-raw"@,
            ) + if_set(o.verbose, " "@ + "--verbose"@) + if_set(keep, " "@ + "--keep-animations"@),
        ),
{
    let a = activity_option(option_text(o.activity));
    let t = agent_text(o, output, keep);
    let q1 = seq![crate::cli::REMOTE_BIN@];
    lemma_run_on_one(crate::cli::REMOTE_BIN@);
    let q2 = q1.push(" agent --package "@);
    lemma_run_on_more(q1, " agent --package "@);
    let q3 = q2.push(o.package@);
    lemma_run_on_more(q2, o.package@);
    let q4 = q3.push(a);
    lemma_run_on_more(q3, a);
    let q5 = q4.push(" --output "@);
    lemma_run_on_more(q4, " --output "@);
    let q6 = q5.push(output);
    lemma_run_on_more(q5, output);
    let q7 = q6.push(" --duration "@);
    lemma_run_on_more(q6, " --duration "@);
    let q8 = q7.push(dec(o.duration_secs as int));
    lemma_run_on_more(q7, dec(o.duration_secs as int));
    let q9 = q8.push(" --max-steps "@);
    lemma_run_on_more(q8, " --max-steps "@);
    let q10 = q9.push(dec(o.max_steps as int));
    lemma_run_on_more(q9, dec(o.max_steps as int));
    let q11 = q10.push(" --interval "@);
    lemma_run_on_more(q10, " --interval "@);
    let q12 = q11.push(dec(o.interval_ms as int));
    lemma_run_on_more(q11, dec(o.interval_ms as int));
    let q13 = q12.push(" --settle "@);
    lemma_run_on_more(q12, " --settle "@);
    let q14 = q13.push(dec(o.settle_ms as int));
    lemma_run_on_more(q13, dec(o.settle_ms as int));
    let q15 = q14.push(" --seed "@);
    lemma_run_on_more(q14, " --seed "@);
    let q16 = q15.push(dec(o.seed as int));
    lemma_run_on_more(q15, dec(o.seed as int));
    let q17 = q16.push(" --max-same-state "@);
    lemma_run_on_more(q16, " --max-same-state "@);
    let q18 = q17.push(dec(o.max_same_state as int));
    lemma_run_on_more(q17, dec(o.max_same_state as int));
    let q19 = q18.push(" --max-relaunch "@);
    lemma_run_on_more(q18, " --max-relaunch "@);
    let q20 = q19.push(dec(o.max_relaunch as int));
    lemma_run_on_more(q19, dec(o.max_relaunch as int));
    let q21 = q20.push(" --state-mode "@);
    lemma_run_on_more(q20, " --state-mode "@);
    let q22 = q21.push(mode_text(o.state_mode));
    lemma_run_on_more(q21, mode_text(o.state_mode));
    let q23 = q22.push(flag_of(!o.screenshot, "--no-screenshot"@));
    lemma_run_on_more(q22, flag_of(!o.screenshot, "--no-screenshot"@));
    let q24 = q23.push(flag_of(!o.annotate, "--no-annotate"@));
    lemma_run_on_more(q23, flag_of(!o.annotate, "--no-annotate"@));
    let q25 = q24.push(flag_of(o.keep_raw, "--keep-raw"@));
    lemma_run_on_more(q24, flag_of(o.keep_raw, "--keep-raw"@));
    let q26 = q25.push(flag_of(o.verbose, "--verbose"@));
    lemma_run_on_more(q25, flag_of(o.verbose, "--verbose"@));
    let q27 = q26.push(flag_of(keep, "--keep-animations"@));
    lemma_run_on_more(q26, flag_of(keep, "--keep-animations"@));
    assert(t == run_on(q27));
    lemma_run_on_ends(q27, 20);
    let e1 = seq![" --state-mode "@];
    lemma_run_on_one(" --state-mode "@);
    let e2 = e1.push(mode_text(o.state_mode));
    lemma_run_on_more(e1, mode_text(o.state_mode));
    let e3 = e2.push(flag_of(!o.screenshot, "--no-screenshot"@));
    lemma_run_on_more(e2, flag_of(!o.screenshot, "--no-screenshot"@));
    let e4 = e3.push(flag_of(!o.annotate, "--no-annotate"@));
    lemma_run_on_more(e3, flag_of(!o.annotate, "--no-annotate"@));
    let e5 = e4.push(flag_of(o.keep_raw, "--keep-raw"@));
    lemma_run_on_more(e4, flag_of(o.keep_raw, "--keep-raw"@));
    let e6 = e5.push(flag_of(o.verbose, "--verbose"@));
    lemma_run_on_more(e5, flag_of(o.verbose, "--verbose"@));
    let e7 = e6.push(flag_of(keep, "--keep-animations"@));
    lemma_run_on_more(e6, flag_of(keep, "--keep-animations"@));
    assert(q27.skip(20) =~= e7);
}

/// Slashes behind a directory are taken off, all of them and nothing else.
pub proof fn lemma_slashes_are_taken_off(dir: Seq<char>, n: nat)
    requires
        dir.len() == 0 || dir.last() != '/',
    ensures
        without_slashes(dir + Seq::new(n, |i: int| '/')) == dir,
    decreases n,
{
    let a = Seq::new(n, |i: int| '/');
    if n == 0 {
        assert(dir + a =~= dir);
    } else {
        let m = (n - 1) as nat;
        assert((dir + a).drop_last() =~= dir + Seq::new(m, |i: int| '/'));
        assert((dir + a).last() == '/');
        lemma_slashes_are_taken_off(dir, m);
    }
}

/// The texts to type are the lines of a file, in their order and without the blanks around them;
/// lines with nothing else do not count.
pub proof fn lemma_lines_to_type(a: Seq<Seq<char>>, line: Seq<char>, b: Seq<Seq<char>>)
    ensures
        pool_of(a + seq![line] + b) == pool_of(a) + (if trimmed(line).len() > 0 {
            seq![trimmed(line)]
        } else {
            seq![]
        }) + pool_of(b),
        pool_of(seq![]).len() == 0,
{
    lemma_pool_sum(a + seq![line], b);
    lemma_pool_sum(a, seq![line]);
    assert(seq![line].drop_last() =~= seq![]);
    assert(seq![line].last() == line);
    let empty: Seq<Seq<char>> = seq![];
    assert(pool_of(empty) =~= empty);
    assert(pool_of(seq![line]) =~= if trimmed(line).len() > 0 {
        seq![trimmed(line)]
    } else {
        seq![]
    });
}

proof fn lemma_pool_sum(a: Seq<Seq<char>>, b: Seq<Seq<char>>)
    ensures
        pool_of(a + b) == pool_of(a) + pool_of(b),
    decreases b.len(),
{
    if b.len() == 0 {
        assert(a + b =~= a);
        assert(pool_of(a) + pool_of(b) =~= pool_of(a));
    } else {
        assert((a + b).drop_last() =~= a + b.drop_last());
        assert((a + b).last() == b.last());
        lemma_pool_sum(a, b.drop_last());
        assert(pool_of(a + b) =~= pool_of(a) + pool_of(b));
    }
}

proof fn lemma_lacks(s: Seq<char>, w: Seq<char>, k: int)
    requires
        0 <= k < w.len(),
        !s.contains(w[k]),
    ensures
        !(has(s, w)),
{
    if has(s, w) {
        let i = choose|i: int| occurs_at(s, w, i);
        assert(s.subrange(i, i + w.len())[k] == s[i + k]);
        assert(s.contains(s[i + k]));
    }
}

/// A kind of processor that a user can name is built for as a phone that says it has it.
pub proof fn lemma_targets_agree(abi: Seq<char>)
    ensures
        named_target(abi) is Some ==> named_target(abi)->0 == target_of_abi(abi),
        named_target(abi) is Some <==> abi == "arm64"@ || abi == "arm64-v8a"@ || abi == "aarch64"@
            || abi == "armv7"@ || abi == "armeabi-v7a"@ || abi == "arm"@ || abi == "x86_64"@,
        target_of_abi(abi) == "aarch64-linux-android"@ <==> has(abi, "arm64"@) || has(
            abi,
            "aarch64"@,
        ),
{
    reveal_strlit("arm64");
    reveal_strlit("arm64-v8a");
    reveal_strlit("aarch64");
    reveal_strlit("armv7");
    reveal_strlit("armeabi-v7a");
    reveal_strlit("arm");
    reveal_strlit("x86_64");
    reveal_strlit("aarch64-linux-android");
    reveal_strlit("armv7-linux-androideabi");
    reveal_strlit("x86_64-linux-android");
    assert("aarch64-linux-android"@[1] == 'a');
    assert("armv7-linux-androideabi"@[1] == 'r' && "x86_64-linux-android"@[1] == '8');
    assert("arm64"@.len() == 5 && "arm64-v8a"@.len() == 9 && "aarch64"@.len() == 7);
    assert("armv7"@.len() == 5 && "armeabi-v7a"@.len() == 11 && "arm"@.len() == 3);
    assert("x86_64"@.len() == 6);
    assert("armv7"@[3] == 'v' && "arm64"@[3] == '6');
    let none = Seq::<char>::empty();
    if abi == "arm64"@ {
        lemma_within(abi, none, "arm64"@, none);
    } else if abi == "arm64-v8a"@ {
        lemma_within(abi, none, "arm64"@, abi.skip(5));
    } else if abi == "aarch64"@ {
        lemma_within(abi, none, "aarch64"@, none);
    } else if abi == "armv7"@ || abi == "armeabi-v7a"@ || abi == "arm"@ {
        assert("aarch64"@[5] == '6' && "x86_64"@[2] == '6');
        assert(!abi.contains('6'));
        lemma_lacks(abi, "arm64"@, 3);
        lemma_lacks(abi, "aarch64"@, 5);
        lemma_lacks(abi, "x86_64"@, 2);
    } else if abi == "x86_64"@ {
        assert("arm64"@[0] == 'a' && "aarch64"@[0] == 'a');
        assert(!abi.contains('a'));
        lemma_lacks(abi, "arm64"@, 0);
        lemma_lacks(abi, "aarch64"@, 0);
        lemma_within(abi, none, "x86_64"@, none);
    }
}

/// The words about a device name its maker, model, release, size, processor and id.
pub proof fn lemma_words_about_a_device(d: InfoView)
    ensures
        ({
            let t = info_text(d);
            &&& has(t, d.manufacturer + " "@ + d.model)
            &&& has(t, "Android "@ + d.release + " / API "@ + dec_signed(d.sdk as int))
            &&& has(t, dec_signed(d.width as int) + "x"@ + dec_signed(d.height as int))
            &&& has(t, d.abi)
            &&& d.serial.len() > 0 ==> has(t, d.serial + ")"@)
            &&& d.serial.len() == 0 ==> has(t, "本机"@ + ")"@)
        }),
{
    reveal_strlit(" (Android ");
    reveal_strlit("Android ");
    let t = info_text(d);
    let none = Seq::<char>::empty();
    let id = if d.serial.len() == 0 {
        "本机"@
    } else {
        d.serial
    };
    let a = d.manufacturer + " "@ + d.model;
    let b = "Android "@ + d.release + " / API "@ + dec_signed(d.sdk as int);
    let c = dec_signed(d.width as int) + "x"@ + dec_signed(d.height as int);
    let e = id + ")"@;
    let sep = " / "@;
    let z3 = sep + e;
    let z2 = sep + d.abi + z3;
    let z1 = sep + c + z2;
    assert(t =~= a + seq![' ', '('] + b + z1);
    lemma_within(t, none, a, seq![' ', '('] + b + z1);
    let y1 = a + seq![' ', '('];
    lemma_within(t, y1, b, z1);
    let y2 = y1 + b + sep;
    lemma_within(t, y2, c, z2);
    let y3 = y2 + c + sep;
    lemma_within(t, y3, d.abi, z3);
    lemma_within(t, y3 + d.abi + sep, e, none);
}

/// What is said at the end of a run: the app, the steps, what was covered out of what, how many
/// incidents of each kind there were, and where the results and the report are.
pub proof fn lemma_what_is_said_of_a_run(s: SessionView, dir: Seq<char>, report: Seq<char>)
    ensures
        ({
            let t = run_summary_of(s, dir, report);
            &&& has(t, "应用        : "@ + s.package)
            &&& has(
                t,
                dec(s.steps.len() as int) + " 步（"@ + duration_text(s.duration_ms as int),
            )
            &&& has(t, dec(s.coverage.activity_count) + " 个，去重状态 "@ + dec(s.state_count as int))
            &&& has(
                t,
                dec(s.coverage.interactive_touched) + "/"@ + dec(s.coverage.interactive_nodes)
                    + " ("@ + percent(Single { bits: s.coverage.interactive_coverage as u32 }),
            )
            &&& has(
                t,
                dec(s.coverage.touched_nodes) + "/"@ + dec(s.coverage.total_nodes) + " = "@
                    + percent(Single { bits: s.coverage.node_coverage as u32 }),
            )
            &&& has(t, "]\n异常        : crash "@ + dec(crashes_in(s.incidents)))
            &&& has(t, " 个，ANR "@ + dec(anrs_in(s.incidents)))
            &&& has(t, dir + "\n报告        : "@ + report)
            &&& s.device.mode == "device"@ ==> has(t, "手机端"@)
            &&& s.device.mode != "device"@ ==> has(t, "PC 端（adb）"@)
        }),
{
    let x = percent(Single { bits: s.coverage.interactive_coverage as u32 });
    let y = percent(Single { bits: s.coverage.node_coverage as u32 });
    let t = run_summary_of(s, dir, report);
    let q1 = seq!["应用        : "@];
    lemma_run_on_one("应用        : "@);
    let q2 = q1.push(s.package);
    lemma_run_on_more(q1, s.package);
    let q3 = q2.push("\n运行位置    : "@);
    lemma_run_on_more(q2, "\n运行位置    : "@);
    let q4 = q3.push(place_of(s.device.mode));
    lemma_run_on_more(q3, place_of(s.device.mode));
    let q5 = q4.push("\n步骤        : "@);
    lemma_run_on_more(q4, "\n步骤        : "@);
    let q6 = q5.push(dec(s.steps.len() as int));
    lemma_run_on_more(q5, dec(s.steps.len() as int));
    let q7 = q6.push(" 步（"@);
    lemma_run_on_more(q6, " 步（"@);
    let q8 = q7.push(duration_text(s.duration_ms as int));
    lemma_run_on_more(q7, duration_text(s.duration_ms as int));
    let q9 = q8.push("）\nActivity    : "@);
    lemma_run_on_more(q8, "）\nActivity    : "@);
    let q10 = q9.push(dec(s.coverage.activity_count));
    lemma_run_on_more(q9, dec(s.coverage.activity_count));
    let q11 = q10.push(" 个，去重状态 "@);
    lemma_run_on_more(q10, " 个，去重状态 "@);
    let q12 = q11.push(dec(s.state_count as int));
    lemma_run_on_more(q11, dec(s.state_count as int));
    let q13 = q12.push(" 个\n控件覆盖    : "@);
    lemma_run_on_more(q12, " 个\n控件覆盖    : "@);
    let q14 = q13.push(dec(s.coverage.interactive_touched));
    lemma_run_on_more(q13, dec(s.coverage.interactive_touched));
    let q15 = q14.push("/"@);
    lemma_run_on_more(q14, "/"@);
    let q16 = q15.push(dec(s.coverage.interactive_nodes));
    lemma_run_on_more(q15, dec(s.coverage.interactive_nodes));
    let q17 = q16.push(" ("@);
    lemma_run_on_more(q16, " ("@);
    let q18 = q17.push(x);
    lemma_run_on_more(q17, x);
    let q19 = q18.push(")  [可交互控件；全部节点 "@);
    lemma_run_on_more(q18, ")  [可交互控件；全部节点 "@);
    let q20 = q19.push(dec(s.coverage.touched_nodes));
    lemma_run_on_more(q19, dec(s.coverage.touched_nodes));
    let q21 = q20.push("/"@);
    lemma_run_on_more(q20, "/"@);
    let q22 = q21.push(dec(s.coverage.total_nodes));
    lemma_run_on_more(q21, dec(s.coverage.total_nodes));
    let q23 = q22.push(" = "@);
    lemma_run_on_more(q22, " = "@);
    let q24 = q23.push(y);
    lemma_run_on_more(q23, y);
    let q25 = q24.push("]\n异常        : crash "@);
    lemma_run_on_more(q24, "]\n异常        : crash "@);
    let q26 = q25.push(dec(crashes_in(s.incidents)));
    lemma_run_on_more(q25, dec(crashes_in(s.incidents)));
    let q27 = q26.push(" 个，ANR "@);
    lemma_run_on_more(q26, " 个，ANR "@);
    let q28 = q27.push(dec(anrs_in(s.incidents)));
    lemma_run_on_more(q27, dec(anrs_in(s.incidents)));
    let q29 = q28.push(" 个\n会话目录    : "@);
    lemma_run_on_more(q28, " 个\n会话目录    : "@);
    let q30 = q29.push(dir);
    lemma_run_on_more(q29, dir);
    let q31 = q30.push("\n报告        : "@);
    lemma_run_on_more(q30, "\n报告        : "@);
    let q32 = q31.push(report);
    lemma_run_on_more(q31, report);
    assert(t == run_on(q32));
    assert(q32[0] == "应用        : "@);
    assert(q32[1] == s.package);
    assert(q32[3] == place_of(s.device.mode));
    assert(q32[5] == dec(s.steps.len() as int));
    assert(q32[6] == " 步（"@);
    assert(q32[7] == duration_text(s.duration_ms as int));
    assert(q32[9] == dec(s.coverage.activity_count));
    assert(q32[10] == " 个，去重状态 "@);
    assert(q32[11] == dec(s.state_count as int));
    assert(q32[13] == dec(s.coverage.interactive_touched));
    assert(q32[14] == "/"@);
    assert(q32[15] == dec(s.coverage.interactive_nodes));
    assert(q32[16] == " ("@);
    assert(q32[17] == x);
    assert(q32[19] == dec(s.coverage.touched_nodes));
    assert(q32[20] == "/"@);
    assert(q32[21] == dec(s.coverage.total_nodes));
    assert(q32[22] == " = "@);
    assert(q32[23] == y);
    assert(q32[24] == "]\n异常        : crash "@);
    assert(q32[25] == dec(crashes_in(s.incidents)));
    assert(q32[26] == " 个，ANR "@);
    assert(q32[27] == dec(anrs_in(s.incidents)));
    assert(q32[29] == dir);
    assert(q32[30] == "\n报告        : "@);
    assert(q32[31] == report);
    lemma_has_two(q32, 0);
    lemma_has_part(q32, 3);
    lemma_has_three(q32, 5);
    lemma_has_three(q32, 9);
    lemma_has_five(q32, 13);
    lemma_has_five(q32, 19);
    lemma_has_two(q32, 24);
    lemma_has_two(q32, 26);
    lemma_has_three(q32, 29);
}

/// What is said of a run of cases: each count with its own name. Cases that were only looked at
/// are not said to have failed, and cases that were skipped are named where there are any.
pub proof fn lemma_what_is_said_of_cases(s: Summary, mode: Seq<char>)
    ensures
        ({
            let t = counts_text(s, mode);
            &&& mode == "dry-run"@ ==> has(
                t,
                "闸门通过 "@ + dec(s.pass as int) + " / 阻塞 "@ + dec(s.blocked as int) + "（共 "@
                    + dec(s.total as int),
            )
            &&& mode != "dry-run"@ && s.skip == 0 ==> has(
                t,
                "通过 "@ + dec(s.pass as int) + " / 失败 "@ + dec(s.fail as int) + " / 阻塞 "@ + dec(
                    s.blocked as int,
                ) + "（共 "@ + dec(s.total as int),
            )
            &&& mode != "dry-run"@ && s.skip > 0 ==> has(
                t,
                "通过 "@ + dec(s.pass as int) + " / 失败 "@ + dec(s.fail as int) + " / 阻塞 "@ + dec(
                    s.blocked as int,
                ) + " / 跳过 "@ + dec(s.skip as int) + "（共 "@ + dec(s.total as int),
            )
            &&& mode != "dry-run"@ ==> has(t, duration_text(s.duration_ms as int))
        }),
        s.skipped_assertions == 0 ==> suite_summary_of(s, mode) == counts_text(s, mode),
        s.skipped_assertions > 0 ==> has(
            suite_summary_of(s, mode),
            counts_text(s, mode) + "\n注意：有 "@ + dec(s.skipped_assertions as int),
        ),
{
    let t = counts_text(s, mode);
    let none = Seq::<char>::empty();
    if mode == "dry-run"@ {
        let a = "闸门通过 "@ + dec(s.pass as int) + " / 阻塞 "@ + dec(s.blocked as int) + "（共 "@ + dec(
            s.total as int,
        );
        lemma_within(t, none, a, " 条）—— 未连设备"@);
    } else {
        let a = "通过 "@ + dec(s.pass as int) + " / 失败 "@ + dec(s.fail as int) + " / 阻塞 "@ + dec(
            s.blocked as int,
        );
        let b = if s.skip > 0 {
            a + " / 跳过 "@ + dec(s.skip as int) + "（共 "@ + dec(s.total as int)
        } else {
            a + "（共 "@ + dec(s.total as int)
        };
        let d = duration_text(s.duration_ms as int);
        lemma_within(t, none, b, " 条，"@ + d + "）"@);
        lemma_within(t, b + " 条，"@, d, "）"@);
    }
    if s.skipped_assertions > 0 {
        lemma_within(
            suite_summary_of(s, mode),
            none,
            t + "\n注意：有 "@ + dec(s.skipped_assertions as int),
            " 条断言被跳过（未评估），对应用例不计入「通过」"@,
        );
    }
}

} // verus!
