use atraverse::annotate::{markers_for_action, scale_markers, thumbnail};
use atraverse::cli::{
    agent_command, parse_text_pool, remote_output, run_summary, suite_summary, target_binary,
    target_by_name,
};
use atraverse::device::reply::parse_resumed_activity;
use atraverse::device::{DeviceInfo, MockDevice};
use atraverse::dump::parse_hierarchy;
use atraverse::model::{Action, Hierarchy};
use atraverse::monitor::line::IncidentKind;
use atraverse::monitor::{Collector, Incident};
use atraverse::report::build_html;
use atraverse::runner::act::{dismiss_point, execute_action, DeviceOp};
use atraverse::runner::incident::{
    evidence_plan, incident_body, incident_file, incident_shot, incident_thumb, wants_shot,
    Evidence, Finding,
};
use atraverse::runner::options::{pick_device_output, session_name};
use atraverse::runner::travel::{is_away, shot_name, Decision, Glance, Return, Stop, Traversal};
use atraverse::runner::{default_output_dir, default_session_name, RunOptions};
use atraverse::script::Summary;
use atraverse::session::{default_state_mode, Session, StepRecord};
use atraverse::strategy::{Explorer, StateMode};
use rand::Rng;

const TEMPLATE: &str = "<h1>__PACKAGE__</h1>__DEVICE__ __STARTED__ __FINISHED__ __DURATION__\
<section>__METRICS__</section>__INCIDENTS____COVERAGE____UNTOUCHED__<h2>操作步骤时间线</h2>\
__FILTERS____TIMELINE__<i>__VERSION__</i>";

fn opts(max_steps: usize) -> RunOptions {
    RunOptions {
        package: "com.demo".to_string(),
        activity: None,
        output: String::new(),
        duration_secs: 60,
        max_steps,
        interval_ms: 0,
        settle_ms: 0,
        seed: 7,
        screenshot: true,
        annotate: true,
        keep_raw: false,
        text_pool: vec![],
        max_same_state: 6,
        state_mode: StateMode::Structure,
        max_relaunch: 3,
        verbose: false,
    }
}

/// The weight of one, in the units that weights are counted in.
const UNITS: f64 = 281474976710656.0;

fn next_action(ex: &mut Explorer, id: u64, h: &Hierarchy) -> Option<Action> {
    let cands = ex.candidates(h);
    let total = (ex.total_weight(id, &cands) as f64 / UNITS) as f32;
    let draw: f32 = ex.rng.gen_range(0.0..total);
    ex.take_action(id, &cands, (draw as f64 * UNITS) as i128)
}

fn png() -> Vec<u8> {
    let img = image::RgbaImage::from_pixel(540, 1200, image::Rgba([40, 42, 48, 255]));
    let mut buf: Vec<u8> = Vec::new();
    image::DynamicImage::ImageRgba8(img)
        .write_to(&mut std::io::Cursor::new(&mut buf), image::ImageFormat::Png)
        .unwrap();
    buf
}

/// Walks through the app of the made-up device, with all that is decided on the way.
fn walk(dev: &mut MockDevice, opts: &RunOptions) -> (Session, Vec<String>) {
    let mut ex = Explorer::new(opts.explorer_config(), opts.seed);
    let mut t = Traversal::new();
    let mut collector = Collector::new(&opts.package);
    let mut log = dev.log_lines.clone().into_iter();
    let mut bodies = Vec::new();
    let shot = png();
    while t.stop_reason(opts, false, false, 0).is_none() {
        let activity =
            parse_resumed_activity(&dev.sh("dumpsys activity activities")).unwrap_or_default();
        t.arrived(&activity);
        assert!(!is_away(&activity, &opts.package));
        t.inside();
        let h = parse_hierarchy(&dev.xml()).unwrap();
        t.seen();
        assert!(ex.has_room(&h));
        let id = t.meet(&mut ex, &h, &activity);
        let chosen = next_action(&mut ex, id, &h);
        let action = match t.decide(&mut ex, chosen, opts.max_relaunch) {
            Decision::Act(a) => a,
            Decision::Restart(_) | Decision::End => panic!("there is always something to do"),
        };
        let mut rec = t.start_step(&action, &activity, id, 0, "12:00:00".to_string());
        for op in execute_action(&action) {
            if let DeviceOp::Shell(cmd) = op {
                dev.sh(&cmd);
            }
        }
        let marks = scale_markers(
            markers_for_action(&action, rec.index),
            h.width,
            h.height,
            &shot,
        );
        assert!(marks.len() <= 1);
        let name = shot_name(rec.index, action.kind());
        rec.screenshot = Some(format!("screenshots/{name}"));
        if thumbnail(&shot, 260, 460).is_some() {
            rec.thumb = Some(format!("thumbs/{name}"));
        }
        t.end_step(&mut ex, &action, id, rec);
        let lines: Vec<String> = log.by_ref().take(2).collect();
        let mut noticed = if lines.is_empty() {
            collector.finish(0)
        } else {
            None
        };
        for line in &lines {
            if let Some(inc) = collector.feed(line, 0) {
                noticed = Some(inc);
            }
        }
        if let Some(mut inc) = noticed {
            let seq = t.next_incident();
            inc.step = Some(t.step_index);
            let file = incident_file(inc.kind, seq, "stamp");
            let scene = (incident_shot(inc.kind, seq), incident_thumb(inc.kind, seq));
            bodies.push(incident_body(&inc, &Vec::new(), Some(&scene.0)));
            t.keep_incident(inc, file, Some(scene));
        }
    }
    let info = DeviceInfo::default();
    let s = t.into_session(
        &mut ex,
        opts,
        info,
        "com.demo/.Main".to_string(),
        "a".to_string(),
        "b".to_string(),
        61_000,
        "0.1.0".to_string(),
    );
    (s, bodies)
}

fn page(s: &Session) -> String {
    let widths = s
        .coverage
        .activities
        .iter()
        .map(|a| (f32::from_bits(a.coverage.bits) * 100.0).clamp(0.0, 100.0))
        .map(|w| w.to_string())
        .collect();
    build_html(s, TEMPLATE, &widths)
}

#[test]
fn end_to_end_against_mock_device() {
    let mut dev = MockDevice::new();
    let (s, _) = walk(&mut dev, &opts(15));
    assert!(s.steps.len() >= 5, "steps={}", s.steps.len());
    assert_eq!(s.steps.len(), 15);

    let kinds: std::collections::HashSet<&str> =
        s.steps.iter().map(|x| x.action_kind.as_str()).collect();
    assert!(kinds.contains("click"), "未产生点击: {:?}", kinds);
    assert!(kinds.contains("swipe"), "未产生滑动: {:?}", kinds);

    assert!(
        s.steps.iter().any(|x| x.screenshot.is_some()),
        "没有截图记录"
    );
    let html = page(&s);
    assert!(html.contains("com.demo"));
    assert!(html.contains("操作步骤时间线"));
    assert!(s.steps.iter().any(|x| x.thumb.is_some()), "未生成缩略图");

    assert!(s.coverage.activity_count >= 1, "未统计到 Activity");
    assert!(s.coverage.total_nodes > 0, "未统计到控件");

    assert!(s.state_count <= 2);
    assert_eq!(s.states.len(), s.state_count);
    assert_eq!(s.transitions.len(), 14);
    assert!(s.steps.iter().enumerate().all(|(i, r)| r.index == i + 1));
    assert!(s
        .steps
        .iter()
        .take(14)
        .all(|r| !r.activity_after.is_empty()));
    let summary = run_summary(&s, "dir", "dir/report/index.html");
    assert!(summary.starts_with("应用        : com.demo\n运行位置    : PC 端（adb）\n步骤        : 15 步（01m01s）\n"));
    assert!(summary.ends_with("会话目录    : dir\n报告        : dir/report/index.html"));
}

#[test]
fn captures_crash_from_logcat() {
    let log = vec![
        "09-09 23:50:01.100   100   100 D other: noise".to_string(),
        "09-09 23:50:01.123  1234  1234 E AndroidRuntime: FATAL EXCEPTION: main".to_string(),
        "09-09 23:50:01.124  1234  1234 E AndroidRuntime: Process: com.demo, PID: 1234".to_string(),
        "09-09 23:50:01.125  1234  1234 E AndroidRuntime: java.lang.NullPointerException".to_string(),
        "09-09 23:50:01.126  1234  1234 E AndroidRuntime: at com.demo.Main.onCreate(Main.java:12)".to_string(),
    ];
    let mut dev = MockDevice::with_log(log);
    let (s, bodies) = walk(&mut dev, &opts(4));
    assert!(!s.incidents.is_empty(), "未捕获到异常");
    let inc = &s.incidents[0];
    assert!(inc.summary.contains("FATAL EXCEPTION"), "{:?}", inc.summary);
    assert!(inc.detail.contains("com.demo"), "异常块中应包含包名");
    assert!(inc.file.is_some(), "异常日志未落盘");
    assert_eq!(inc.file.as_deref(), Some("incidents/crash_01_stamp.txt"));
    assert!(inc.shot.is_some(), "未抓取异常现场截图");
    assert!(
        inc.shot_thumb.is_some(),
        "现场截图缩略图未生成（报告里会加载全尺寸大图）"
    );
    assert_eq!(inc.step, Some(4));
    assert!(bodies[0].contains("步骤: #4\n"));
    assert!(bodies[0].ends_with("---- 现场截图 ----\nincidents/crash_01.png\n"));

    let html = page(&s);
    assert!(html.contains("Java 崩溃"), "报告未展示崩溃");
    assert!(html.contains("inc-shot"), "报告未展示异常现场截图");
    assert_eq!((s.crash_count(), s.anr_count()), (1, 0));
}

#[test]
fn a_session_is_of_one_piece() {
    let mut dev = MockDevice::new();
    let (s, _) = walk(&mut dev, &opts(25));
    assert_eq!(s.states[0].first_step, 0);
    assert!(s.states.windows(2).all(|w| w[0].first_step <= w[1].first_step));
    assert!(s.states.iter().all(|x| x.first_step <= s.steps.len()));
    let known = |id: u64| s.states.iter().any(|x| x.id == id);
    assert!(s.steps.iter().all(|r| known(r.state_before) && known(r.state_after)));
    assert!(s.transitions.iter().all(|x| known(x.from) && known(x.to)));
}

#[test]
fn report_shows_both_measures() {
    let mut dev = MockDevice::new();
    let (mut s, _) = walk(&mut dev, &opts(3));
    s.coverage.interactive_touched = 5;
    s.coverage.interactive_nodes = 5;
    s.coverage.interactive_coverage.bits = 1.0f32.to_bits();
    s.coverage.touched_nodes = 5;
    s.coverage.total_nodes = 6;
    s.coverage.node_coverage.bits = (5.0f32 / 6.0).to_bits();
    s.package = "a<b".to_string();
    s.steps[0].error = Some("x & y".to_string());
    let html = page(&s);
    assert!(html.contains("<div class=\"card ok\"><div class=\"card-t\">控件覆盖率</div><div class=\"card-v\">100.0%</div><div class=\"card-s\">5 / 5 · 全部节点 5 / 6 = 83.3%</div></div>"));
    assert!(html.contains("<h1>a&lt;b</h1>"));
    assert!(html.contains("执行失败：x &amp; y"));
    assert!(html.contains("本次遍历未发现 crash / ANR 异常。"));
    assert!(html.contains("<button class=\"fbtn active\" data-f=\"all\">全部</button>"));
    assert!(html.contains("01m01s"));
    s.steps.clear();
    assert!(page(&s).contains("没有记录到任何步骤。"));
}

#[test]
fn runs_stop_when_they_should() {
    let t = Traversal::new();
    let mut o = opts(0);
    assert_eq!(t.stop_reason(&o, true, true, 99), Some(Stop::Asked));
    assert_eq!(t.stop_reason(&o, false, true, 99), Some(Stop::File));
    assert_eq!(t.stop_reason(&o, false, false, 60), Some(Stop::Time));
    assert_eq!(t.stop_reason(&o, false, false, 59), None);
    o.duration_secs = 0;
    assert_eq!(t.stop_reason(&o, false, false, 1 << 40), None);
    assert!(is_away(&String::new(), "com.demo"));
    assert!(is_away(&"com.other/.A".to_string(), "com.demo"));
    assert!(!is_away(&"com.demo/.A".to_string(), "com.demo"));
}

#[test]
fn leaving_the_app_leads_back_or_ends() {
    let mut t = Traversal::new();
    assert_eq!(t.away(Glance::Dismissed, 1), Return::Wait { back: false });
    assert_eq!(t.away(Glance::Seen, 1), Return::Wait { back: true });
    assert_eq!(t.away(Glance::Seen, 1), Return::Wait { back: true });
    assert_eq!(
        t.away(Glance::Seen, 1),
        Return::Restart { back: true, nth: 1 }
    );
    for _ in 0..3 {
        t.away(Glance::Seen, 1);
    }
    assert_eq!(t.away(Glance::Seen, 1), Return::End { back: true });

    let mut lost = Traversal::new();
    lost.away(Glance::Blind, 9);
    lost.away(Glance::Blind, 9);
    assert_eq!(lost.away(Glance::Blind, 9), Return::Lost);

    let mut blind = Traversal::new();
    for n in 1..5 {
        assert_eq!(blind.unseen(), (n, false));
    }
    assert_eq!(blind.unseen(), (5, true));
    blind.seen();
    assert_eq!(blind.unseen(), (1, false));
}

#[test]
fn stuck_runs_go_back() {
    let o = opts(0);
    let mut ex = Explorer::new(o.explorer_config(), 1);
    let mut t = Traversal::new();
    let h = parse_hierarchy(&MockDevice::new().xml()).unwrap();
    let key = |code: i32| {
        Some(Action::Key {
            code,
            name: "k".to_string(),
        })
    };
    for _ in 0..7 {
        t.meet(&mut ex, &h, "com.demo/.Main");
    }
    assert!(ex.is_stuck());
    assert!(matches!(
        t.decide(&mut ex, key(1), 3),
        Decision::Act(Action::Back)
    ));
    assert!(!ex.is_stuck());
    assert!(matches!(
        t.decide(&mut ex, key(1), 3),
        Decision::Act(Action::Key { .. })
    ));
    for _ in 0..7 {
        assert!(matches!(
            t.decide(&mut ex, None, 1),
            Decision::Act(Action::Back)
        ));
    }
    assert!(matches!(t.decide(&mut ex, None, 1), Decision::Restart(1)));
    for _ in 0..7 {
        t.decide(&mut ex, None, 1);
    }
    assert!(matches!(t.decide(&mut ex, None, 1), Decision::End));
    assert_eq!(t.revive(false, 1), None);
    assert_eq!(t.revive(false, 2), Some(2));
    assert_eq!(t.revive(true, 9), None);
}

#[test]
fn dialogs_are_closed() {
    let h = parse_hierarchy(
        r#"<hierarchy width="100" height="100"><node class="a.F" bounds="[0,0][100,100]"><node text="拒绝" class="a.Button" clickable="true" bounds="[0,0][20,20]"/><node text=" 允许 " class="a.Button" clickable="true" bounds="[40,40][60,60]"/></node></hierarchy>"#,
    )
    .unwrap();
    assert_eq!(dismiss_point(&h), Some((50, 50)));
    let none = parse_hierarchy(&MockDevice::new().xml()).unwrap();
    assert_eq!(dismiss_point(&none), None);
}

#[test]
fn evidence_is_limited() {
    assert_eq!(
        evidence_plan(IncidentKind::Anr, 3),
        vec![Evidence::AnrTraces, Evidence::AnrRecords]
    );
    assert!(evidence_plan(IncidentKind::Anr, 4).is_empty());
    assert_eq!(Evidence::NativeRecords.tag(), "system_app_native_crash");
    assert!(wants_shot(true, 20) && !wants_shot(true, 21) && !wants_shot(false, 1));
    let inc = Incident {
        kind: IncidentKind::Anr,
        time: "t".to_string(),
        package: "p".to_string(),
        summary: "s".to_string(),
        detail: "d".to_string(),
        file: None,
        step: None,
        shot: None,
        shot_thumb: None,
    };
    let found = vec![
        Finding {
            source: Evidence::AnrTraces,
            text: " \n".to_string(),
        },
        Finding {
            source: Evidence::AnrRecords,
            text: "x".to_string(),
        },
    ];
    assert_eq!(
        incident_body(&inc, &found, None),
        "类型: ANR\n时间: t\n包名: p\n摘要: s\n\n---- logcat ----\nd\n\n---- dropbox data_app_anr ----\nx"
    );
}

#[test]
fn names_and_options() {
    assert_eq!(session_name("com.demo", "20260101_000000"), "com_demo_20260101_000000");
    assert!(default_session_name("com.demo").starts_with("com_demo_"));
    assert!(default_output_dir("com.demo").starts_with("sessions/com_demo_"));
    assert_eq!(pick_device_output("n", true), "/sdcard/atraverse/n");
    assert_eq!(pick_device_output("n", false), "/data/local/tmp/atraverse/n");
    assert_eq!(shot_name(7, "click"), "step_0007_click.png");
    assert_eq!(default_state_mode(), "structural");
    let mut o = opts(1);
    o.max_same_state = 0;
    let cfg = o.explorer_config();
    assert_eq!(cfg.max_same_state, 2);
    assert!(!cfg.text_pool.is_empty());
    o.text_pool = vec!["x".to_string()];
    assert_eq!(o.explorer_config().text_pool, vec!["x"]);
    assert_eq!(o.run_config().state_mode, "structural");
    let rec = StepRecord::from_action(1, &Action::Back, "a/.B", 9, 5);
    assert_eq!((rec.action_kind.as_str(), rec.state_after), ("back", 9));
    assert!(!rec.time.is_empty());
}

#[test]
fn command_lines() {
    let mut o = opts(15);
    o.activity = Some(".Main".to_string());
    o.annotate = false;
    o.verbose = true;
    o.state_mode = StateMode::Exact;
    assert_eq!(
        agent_command(&o, "/sdcard/x", true),
        "/data/local/tmp/atraverse agent --package com.demo --activity .Main --output /sdcard/x \
--duration 60 --max-steps 15 --interval 0 --settle 0 --seed 7 --max-same-state 6 --max-relaunch 3 \
--state-mode exact --no-annotate --verbose --keep-animations"
    );
    assert_eq!(remote_output("/sdcard/a//", "n"), "/sdcard/a/n");
    assert_eq!(
        parse_text_pool(" a \n\n\tb c\n"),
        vec!["a".to_string(), "b c".to_string()]
    );
    assert_eq!(target_by_name("arm64"), Some("aarch64-linux-android"));
    assert_eq!(target_by_name("mips"), None);
    assert_eq!(
        target_binary("t", false),
        "target/t/release/atraverse"
    );
    let mut s = Summary::default();
    s.total = 3;
    s.pass = 2;
    s.blocked = 1;
    assert_eq!(
        suite_summary(&s, "dry-run"),
        "闸门通过 2 / 阻塞 1（共 3 条）—— 未连设备"
    );
    s.skip = 1;
    s.skipped_assertions = 2;
    assert_eq!(
        suite_summary(&s, "mock"),
        "通过 2 / 失败 0 / 阻塞 1 / 跳过 1（共 3 条，0.0s）\n注意：有 2 条断言被跳过（未评估），对应用例不计入「通过」"
    );
}
