use atraverse::device::mock::MockDevice;
use atraverse::device::reply::parse_resumed_activity;
use atraverse::dump::parse_hierarchy;
use atraverse::model::Hierarchy;
use atraverse::monitor::line::IncidentKind;
use atraverse::monitor::Incident;
use atraverse::runner::act::{execute_action, DeviceOp};
use atraverse::script::case::{CaseRun, CaseTask};
use atraverse::script::check::{
    activity_outcome, after_attempt, assert_timeout, eval_on_page, page_outcome, AttemptOutcome,
    Retry,
};
use atraverse::script::html::{render_html, status_pill};
use atraverse::script::locate::{locate, place_texts, re_match};
use atraverse::script::steps::named_element;
use atraverse::script::suite::{plan_case, run_mode, unread_case, yaml_files, Plan};
use atraverse::script::{
    gate_case, no_crash_outcome, AssertResult, AssertStatus, Assertion, Case, CaseResult, ElemRef,
    ElementDef, LocatorDef, Registry, ScriptRun, Step, Summary, Trace,
};
use atraverse::single::Single;

// ---------------------------------------------------------------- building values

fn single(v: f32) -> Single {
    Single { bits: v.to_bits() }
}

fn element(id: &str, semantic: &str, locators: &[(&str, &str)]) -> ElementDef {
    ElementDef {
        id: id.to_string(),
        role: String::new(),
        semantic: semantic.to_string(),
        locators: locators
            .iter()
            .map(|(k, v)| LocatorDef {
                kind: k.to_string(),
                value: v.to_string(),
                confidence: single(0.0),
            })
            .collect(),
    }
}

fn demo_registry() -> Registry {
    let mut reg = Registry::new();
    reg.add_file(vec![
        element(
            "item_title",
            "列表条目",
            &[
                ("resource_id", "com.demo:id/item_title"),
                ("bounds_center", "0.5000,0.1250"),
            ],
        ),
        element("back_btn", "返回按钮", &[("resource_id", "com.demo:id/back")]),
        element(
            "only_position",
            "只有位置的控件",
            &[
                ("bounds_center", "0.5000,0.5000"),
                ("class_index", "FrameLayout#0"),
            ],
        ),
        element("detail_title", "详情标题", &[("text", "详情标题")]),
    ]);
    reg
}

fn by_id(id: &str) -> Option<ElemRef> {
    Some(ElemRef {
        id: Some(id.to_string()),
        kind: None,
        value: None,
    })
}

fn step(n: Option<u32>, action: &str, id: Option<&str>) -> Step {
    Step {
        n,
        action: action.to_string(),
        locator: id.and_then(by_id),
        value: None,
        component: None,
        code: None,
        direction: None,
        desc: None,
    }
}

fn assertion(n: u32, kind: &str, expect: Option<&str>, id: Option<&str>) -> Assertion {
    Assertion {
        n: Some(n),
        kind: kind.to_string(),
        expect: expect.map(|s| s.to_string()),
        locator: id.and_then(by_id),
        timeout_ms: Some(0),
        desc: None,
    }
}

fn case(id: &str, steps: Vec<Step>, assertions: Vec<Assertion>) -> Case {
    Case {
        id: id.to_string(),
        title: String::new(),
        priority: String::new(),
        tags: Vec::new(),
        trace: Trace {
            requirement: String::new(),
            pattern: String::new(),
            dimension: String::new(),
        },
        setup: Vec::new(),
        steps,
        assertions,
        teardown: Vec::new(),
    }
}

fn crash() -> Incident {
    Incident {
        kind: IncidentKind::Crash,
        time: "12:00:00".to_string(),
        package: "com.demo".to_string(),
        summary: "java.lang.NullPointerException".to_string(),
        detail: String::new(),
        file: None,
        step: None,
        shot: None,
        shot_thumb: None,
    }
}

// ---------------------------------------------------------------- running on the made-up device

fn look(dev: &MockDevice) -> Result<Hierarchy, String> {
    parse_hierarchy(&dev.xml()).map_err(|e| e.text().to_string())
}

/// What the locators by place of an element write.
fn places(e: &ElementDef) -> Vec<Option<(Single, Single)>> {
    place_texts(e)
        .into_iter()
        .map(|texts| {
            let (a, b) = texts?;
            let x: f32 = a.parse().ok()?;
            let y: f32 = b.parse().ok()?;
            Some((single(x), single(y)))
        })
        .collect()
}

/// Runs a case on the made-up device, without waiting for anything.
fn run_case(case: &Case, reg: &Registry, dev: &mut MockDevice, crashes: Option<Vec<Incident>>) -> CaseResult {
    let mut run = CaseRun::begin(case);
    let mut crashes = crashes;
    loop {
        match run.task(case, 0) {
            CaseTask::Finished => return run.finish(case, 0),
            CaseTask::Sleep(_) => run.slept(case, 0),
            CaseTask::Look => {
                let page = look(dev);
                let named = named_element(run.step(case).unwrap(), reg);
                let spots = match (&page, named) {
                    (Ok(_), Some(e)) => places(e),
                    _ => Vec::new(),
                };
                if let Some(action) = run.looked(case, reg, &page, &spots) {
                    for op in execute_action(&action) {
                        if let DeviceOp::Shell(cmd) = op {
                            dev.sh(&cmd);
                        }
                    }
                    run.performed(case, None);
                }
            }
            CaseTask::TryPage(i) => {
                let page = look(dev);
                let out = page_outcome(&case.assertions[i], reg, &page);
                run.tried(case, out, true);
            }
            CaseTask::TryActivity(i) => {
                let reply = dev.sh("dumpsys activity activities");
                let act = Ok(parse_resumed_activity(&reply).unwrap_or_default());
                let expect = case.assertions[i].expect.clone().unwrap_or_default();
                let out = activity_outcome(&expect, &act);
                run.tried(case, out, true);
            }
            CaseTask::Poll => {
                let monitored = crashes.is_some();
                run.polled(case, monitored, crashes.take().unwrap_or_default());
            }
        }
    }
}

/// Runs cases on the made-up device and sums them up.
fn run_suite(cases: &[Case], reg: &Registry, dev: &mut MockDevice, dry_run: bool) -> ScriptRun {
    let mut results = Vec::new();
    for c in cases {
        match plan_case(c, reg, None, dry_run) {
            Plan::PassOver => {}
            Plan::Report(r) => results.push(r),
            Plan::Execute => results.push(run_case(c, reg, dev, None)),
        }
    }
    ScriptRun {
        generated: "2026-09-19 10:45:35".to_string(),
        kb: "kb".to_string(),
        package: String::new(),
        mode: run_mode(dry_run, "mock"),
        summary: Summary::of(cases.len(), &results, 0),
        cases: results,
    }
}

// ---------------------------------------------------------------- what is checked before a run

#[test]
fn gate_blocks_unknown_element() {
    let c = case(
        "T1",
        vec![step(Some(1), "click", Some("不存在"))],
        vec![assertion(2, "no_crash", None, None)],
    );
    let issues = gate_case(&c, &demo_registry());
    assert_eq!(issues.len(), 1, "{issues:?}");
    assert!(issues[0].reason.contains("L2 元素注册表"));
    assert_eq!(issues[0].location, "step 1");
}

#[test]
fn gate_blocks_case_without_assertions() {
    let c = case(
        "T0",
        vec![step(Some(1), "click", Some("item_title"))],
        vec![],
    );
    let issues = gate_case(&c, &demo_registry());
    assert_eq!(issues.len(), 1, "{issues:?}");
    assert!(issues[0].reason.contains("没有任何断言"));
}

#[test]
fn gate_blocks_existence_assertion_without_semantic_locator() {
    let c = case(
        "T2",
        vec![],
        vec![assertion(1, "element_exists", None, Some("only_position"))],
    );
    let issues = gate_case(&c, &demo_registry());
    assert_eq!(issues.len(), 1, "只有位置/序号的元素不该被放行: {issues:?}");
    assert!(issues[0].reason.contains("假阳性"));
}

#[test]
fn gate_passes_wellformed_case() {
    let c = case(
        "T3",
        vec![step(Some(1), "click", Some("item_title"))],
        vec![
            assertion(2, "text_visible", Some("详情标题"), None),
            assertion(3, "element_exists", None, Some("detail_title")),
        ],
    );
    assert!(gate_case(&c, &demo_registry()).is_empty());
}

#[test]
fn gate_blocks_unknown_assertion_and_action() {
    let c = case(
        "T4",
        vec![step(Some(1), "teleport", None)],
        vec![assertion(1, "pixel_green", None, None)],
    );
    let issues = gate_case(&c, &demo_registry());
    assert_eq!(issues.len(), 2);
}

// ---------------------------------------------------------------- finding elements

#[test]
fn existence_lookup_ignores_positional_locators() {
    let reg = demo_registry();
    let hier = parse_hierarchy(
        r#"<hierarchy rotation="0" width="540" height="1200">
<node index="0" text="" resource-id="" class="android.widget.FrameLayout" package="com.demo" bounds="[0,0][540,1200]"/>
</hierarchy>"#,
    )
    .unwrap();
    let e = reg.get("only_position").unwrap();
    let spots = places(e);
    assert!(locate(e, &hier, true, true, &spots).is_some());
    assert!(locate(e, &hier, false, false, &spots).is_none());
}

#[test]
fn resource_id_wins_over_positional() {
    let reg = demo_registry();
    let hier = parse_hierarchy(
        r#"<hierarchy rotation="0" width="540" height="1200">
<node index="0" text="条目" resource-id="com.demo:id/item_title" class="android.widget.TextView" package="com.demo" bounds="[0,100][540,200]"/>
</hierarchy>"#,
    )
    .unwrap();
    let e = reg.get("item_title").unwrap();
    let spots = places(e);
    let (hit, loc) = locate(e, &hier, true, true, &spots).unwrap();
    assert_eq!(loc.kind, "resource_id");
    assert_eq!(hit.center(), (270, 150));
}

#[test]
fn places_are_parts_of_the_screen() {
    let hier = parse_hierarchy(
        r#"<hierarchy width="1081" height="2401"><node class="a.B" bounds="[0,0][1081,2401]"/></hierarchy>"#,
    )
    .unwrap();
    for (a, b) in [
        ("0.5", "0.5"),
        ("0.1234", "0.98765"),
        ("0", "1"),
        ("1.0001", "0.5"),
        ("1.1", "0.5"),
        ("-0.0001", "0.2"),
        ("-0.1", "0.2"),
        ("NaN", "0.2"),
        ("1e-44", "0.3"),
    ] {
        let e = element("x", "", &[("bounds_center", &format!("{a},{b}"))]);
        let x = (a.parse::<f32>().unwrap() * 1081.0).round() as i32;
        let y = (b.parse::<f32>().unwrap() * 2401.0).round() as i32;
        let got = locate(&e, &hier, true, false, &places(&e)).map(|(h, _)| h.center());
        let want = if (0..=1081).contains(&x) && (0..=2401).contains(&y) {
            Some((x, y))
        } else {
            None
        };
        assert_eq!(got, want, "{a},{b}");
    }
    let broken = element("x", "", &[("bounds_center", "0.5")]);
    assert!(locate(&broken, &hier, true, false, &places(&broken)).is_none());
}

#[test]
fn class_index_counts_from_zero() {
    let hier = parse_hierarchy(
        r#"<hierarchy width="100" height="100"><node class="a.B" bounds="[0,0][100,100]"><node class="a.C" bounds="[0,0][10,10]"/><node class="a.C" bounds="[20,20][40,40]"/></node></hierarchy>"#,
    )
    .unwrap();
    let e = element("x", "", &[("class_index", "C#1")]);
    let none = Vec::new();
    let (hit, _) = locate(&e, &hier, false, true, &none).unwrap();
    assert_eq!(hit.center(), (30, 30));
    let beyond = element("x", "", &[("class_index", "C#2")]);
    assert!(locate(&beyond, &hier, false, true, &none).is_none());
    assert!(locate(&e, &hier, true, false, &none).is_none());
}

#[test]
fn content_desc_regex_is_start_anchored() {
    assert!(re_match(
        "^未点赞，喜欢[\\d.万亿]+，按钮$",
        "未点赞，喜欢5.4万，按钮"
    ));
    assert!(!re_match(
        "^未点赞，喜欢[\\d.万亿]+，按钮$",
        "x未点赞，喜欢5.4万，按钮"
    ));
    assert!(re_match("^[\\d.万亿]+$", "1.2万"));
    assert!(!re_match("^[\\d.万亿]+$", "1.2万赞"));
}

#[test]
fn what_is_no_expression_matches_nothing() {
    assert!(!re_match("(", "("));
    assert!(re_match("b", "bc"));
    assert!(!re_match("c", "bc"));
}

// ---------------------------------------------------------------- whole cases

#[test]
fn runs_case_end_to_end_on_mock_device() {
    let mut c = case(
        "TC_E2E_001",
        vec![step(Some(1), "click", Some("item_title"))],
        vec![
            assertion(2, "text_visible", Some("详情标题"), None),
            assertion(3, "element_exists", None, Some("back_btn")),
            assertion(4, "text_equals", Some("详情标题"), None),
        ],
    );
    c.title = "点列表项进详情，再返回".to_string();
    c.priority = "P1".to_string();
    c.tags = vec!["smoke".to_string()];
    c.trace = Trace {
        requirement: "REQ-1".to_string(),
        pattern: "navigation_tab".to_string(),
        dimension: "正常流".to_string(),
    };
    c.teardown = vec![step(None, "click", Some("back_btn"))];
    let mut dev = MockDevice::new();
    let run = run_suite(&[c], &demo_registry(), &mut dev, false);
    assert_eq!(run.summary.pass, 1, "应通过: {:#?}", run.cases);
    assert_eq!(run.summary.fail, 0);
    assert_eq!(dev.screen, 0, "teardown 应已返回列表页");
    assert_eq!(run.mode, "mock");
    let html = render_html(&run);
    assert!(html.contains("TC_E2E_001"));
    assert!(html.contains("REQ-1"));
}

#[test]
fn failing_assertion_reports_fail_not_pass() {
    let c = case(
        "TC_E2E_002",
        vec![],
        vec![assertion(1, "text_visible", Some("详情标题"), None)],
    );
    let mut dev = MockDevice::new();
    let run = run_suite(&[c], &demo_registry(), &mut dev, false);
    assert_eq!(run.summary.fail, 1);
    assert_eq!(run.summary.pass, 0);
    let a = &run.cases[0].assertions[0];
    assert_eq!(a.status, AssertStatus::Fail);
    assert!(a.msg.contains("未找到文本"));
    assert!(run.has_problem());
}

#[test]
fn blocked_case_is_not_executed() {
    let c = case(
        "TC_E2E_003",
        vec![step(Some(1), "click", Some("幻觉元素"))],
        vec![assertion(2, "no_crash", None, None)],
    );
    let mut dev = MockDevice::new();
    let run = run_suite(&[c], &demo_registry(), &mut dev, false);
    assert_eq!(run.summary.blocked, 1);
    assert!(dev.cmds.is_empty(), "阻塞的用例不该碰设备");
    assert!(run.cases[0].steps.is_empty());
    assert!(run.has_problem());
}

#[test]
fn dry_run_never_touches_device() {
    let c = case(
        "TC_E2E_004",
        vec![step(Some(1), "click", Some("item_title"))],
        vec![assertion(2, "element_exists", None, Some("back_btn"))],
    );
    let mut dev = MockDevice::new();
    let run = run_suite(&[c], &demo_registry(), &mut dev, true);
    assert_eq!(run.mode, "dry-run");
    assert_eq!(run.summary.pass, 1);
    assert_eq!(run.cases[0].status, "verified");
    assert!(dev.cmds.is_empty());
    assert!(render_html(&run).contains("VERIFIED"));
}

#[test]
fn directory_mode_runs_all_cases_in_order() {
    let names = vec![
        "b.yaml".to_string(),
        "notes.txt".to_string(),
        "a.yaml".to_string(),
    ];
    assert_eq!(yaml_files(&names), vec!["a.yaml", "b.yaml"]);
    let cases = [
        case("TC_A", vec![], vec![assertion(1, "no_crash", None, None)]),
        case(
            "TC_B",
            vec![],
            vec![assertion(1, "element_exists", None, Some("item_title"))],
        ),
    ];
    let mut dev = MockDevice::new();
    let run = run_suite(&cases, &demo_registry(), &mut dev, false);
    assert_eq!(run.summary.total, 2);
    assert_eq!(run.cases[0].id, "TC_A");
    assert_eq!(run.cases[1].id, "TC_B");
    assert_eq!(run.cases[0].assertions[0].status, AssertStatus::Skip);
    assert_eq!(run.cases[0].status, "skip");
    assert_eq!(run.summary.skip, 1);
    assert_eq!(run.summary.skipped_assertions, 1);
    assert_eq!(run.summary.pass, 1, "只有 TC_B 真的验证过");
}

#[test]
fn failed_step_ends_case_and_still_cleans_up() {
    let mut c = case(
        "TC",
        vec![
            step(Some(1), "click", Some("back_btn")),
            step(Some(2), "back", None),
        ],
        vec![assertion(3, "text_visible", Some("条目A0"), None)],
    );
    c.teardown = vec![step(None, "back", None)];
    let mut dev = MockDevice::new();
    let r = run_case(&c, &demo_registry(), &mut dev, None);
    assert_eq!(r.status, "fail");
    assert!(r.assertions.is_empty());
    assert_eq!(r.steps.len(), 2);
    assert!(!r.steps[0].ok);
    assert_eq!(r.steps[1].stage, "teardown");
    assert!(r.steps[1].ok);
    assert_eq!(dev.cmds, vec!["input keyevent 4"]);
}

#[test]
fn verdict_follows_recorded_steps() {
    let reg = demo_registry();
    let dev = MockDevice::new();
    for (broken, status) in [(0, "fail"), (1, "fail"), (2, "pass"), (3, "pass")] {
        let mut c = case("TC", vec![step(None, "back", None)], Vec::new());
        c.setup = vec![step(None, "back", None)];
        c.teardown = vec![step(None, "back", None)];
        let mut run = CaseRun::begin(&c);
        let mut place = 0;
        let r = loop {
            match run.task(&c, 0) {
                CaseTask::Look => {
                    run.looked(&c, &reg, &look(&dev), &Vec::new()).unwrap();
                    let stage = run.steps.last().unwrap().stage.clone();
                    let now = ["setup", "step", "teardown"].iter().position(|x| *x == stage);
                    place = now.unwrap();
                    run.performed(&c, if place == broken { Some("gone") } else { None });
                }
                CaseTask::Poll => run.polled(&c, false, Vec::new()),
                CaseTask::Finished => break run.finish(&c, 0),
                _ => panic!("nothing else is to be done"),
            }
        };
        assert_eq!(place, 2);
        assert_eq!(r.status, status);
        let all = r.steps.iter().all(|s| s.stage == "teardown" || s.ok);
        assert_eq!(r.status == "fail", !all);
        assert_eq!(r.steps.iter().filter(|s| !s.ok).count(), (broken < 3) as usize);
    }
}

#[test]
fn crash_during_case_fails_it() {
    let c = case("TC", vec![], vec![assertion(1, "no_crash", None, None)]);
    let mut dev = MockDevice::new();
    let bad = run_case(&c, &demo_registry(), &mut dev, Some(vec![crash()]));
    assert_eq!(bad.status, "fail");
    assert_eq!(bad.incidents.len(), 1);
    let good = run_case(&c, &demo_registry(), &mut dev, Some(Vec::new()));
    assert_eq!(good.status, "pass");
}

#[test]
fn activity_assertion_and_wait_step() {
    let mut wait = step(None, "wait", None);
    wait.value = Some("15".to_string());
    let c = case(
        "TC",
        vec![wait],
        vec![
            assertion(1, "activity_is", Some(".Main"), None),
            assertion(2, "activity_is", Some(".Detail"), None),
        ],
    );
    let mut dev = MockDevice::new();
    let r = run_case(&c, &demo_registry(), &mut dev, None);
    assert_eq!(r.steps[0].detail, "等待 15ms");
    assert_eq!(r.assertions[0].status, AssertStatus::Pass);
    assert_eq!(r.assertions[0].msg, "当前 Activity = com.demo/.Main");
    assert_eq!(r.assertions[1].status, AssertStatus::Fail);
    assert_eq!(
        r.assertions[1].msg,
        "当前 Activity = com.demo/.Main，预期含 '.Detail'（重试 1 次）"
    );
    assert_eq!(r.status, "fail");
}

#[test]
fn trying_again_only_waits() {
    let failed = || AttemptOutcome::fail("m".to_string());
    assert!(matches!(after_attempt(1, failed(), false), Retry::Again));
    match after_attempt(3, failed(), true) {
        Retry::Settled { status, msg } => {
            assert_eq!(status, AssertStatus::Fail);
            assert_eq!(msg, "m（重试 3 次）");
        }
        Retry::Again => panic!("the time is up"),
    }
    match after_attempt(2, AttemptOutcome::pass("ok".to_string()), false) {
        Retry::Settled { status, msg } => {
            assert_eq!(status, AssertStatus::Pass);
            assert_eq!(msg, "ok");
        }
        Retry::Again => panic!("it holds"),
    }
    let mut a = assertion(1, "no_crash", None, None);
    assert_eq!(assert_timeout(&a), 0);
    a.timeout_ms = None;
    assert_eq!(assert_timeout(&a), 4000);
}

#[test]
fn no_crash_mapping() {
    let ok = no_crash_outcome(true, &[]);
    assert!(ok.pass && !ok.skipped);

    let skipped = no_crash_outcome(false, &[]);
    assert!(skipped.skipped);

    let inc = crash();
    let bad = no_crash_outcome(true, std::slice::from_ref(&inc));
    assert!(!bad.pass && !bad.skipped);
    assert!(bad.msg.contains("Java 崩溃"));
}

#[test]
fn text_assertions_look_at_text_and_description() {
    let hier = parse_hierarchy(
        r#"<hierarchy width="100" height="100"><node text="设置" content-desc="打开设置页" class="a.B" bounds="[0,0][100,100]"/></hierarchy>"#,
    )
    .unwrap();
    let reg = demo_registry();
    let holds = |kind: &str, expect: &str| {
        eval_on_page(&assertion(1, kind, Some(expect), None), &reg, &hier).0
    };
    assert!(holds("text_visible", "设置页"));
    assert!(holds("text_contains", "设"));
    assert!(holds("text_equals", "设置"));
    assert!(holds("text_equals", "打开设置页"));
    assert!(!holds("text_equals", "设置页"));
    assert!(!holds("text_visible", "关于"));
    let absent = assertion(1, "element_absent", None, Some("back_btn"));
    assert!(eval_on_page(&absent, &reg, &hier).0);
    let exists = assertion(1, "element_exists", None, Some("back_btn"));
    assert!(!eval_on_page(&exists, &reg, &hier).0);
}

#[test]
fn filter_and_unread_cases() {
    let reg = demo_registry();
    let c = case(
        "TC_NAV_1",
        vec![],
        vec![assertion(1, "no_crash", None, None)],
    );
    assert!(matches!(
        plan_case(&c, &reg, Some("PLAY"), false),
        Plan::PassOver
    ));
    assert!(matches!(
        plan_case(&c, &reg, Some("NAV"), false),
        Plan::Execute
    ));
    let r = unread_case("broken", "bad yaml");
    assert_eq!(r.id, "broken");
    assert_eq!(r.status, "blocked");
    assert_eq!(r.gate[0].location, "load");
    assert_eq!(r.gate[0].reason, "bad yaml");
    let s = Summary::of(3, &vec![r], 7);
    assert_eq!((s.total, s.blocked, s.pass, s.duration_ms), (3, 1, 0, 7));
    assert_eq!(run_mode(false, "host"), "execute:host");
}

#[test]
fn report_escapes_and_shows_confidence() {
    assert_eq!(
        status_pill("pass"),
        "<span class=\"pill ok\">PASS</span>"
    );
    assert_eq!(
        status_pill("odd"),
        "<span class=\"pill muted\">ODD</span>"
    );
    let mut reg = Registry::new();
    let mut e = element("b", "<b>", &[("resource_id", "com.demo:id/item_title")]);
    e.locators[0].confidence = single(0.875);
    e.role = "button".to_string();
    reg.add_file(vec![e]);
    let c = case(
        "A&B",
        vec![step(Some(1), "click", Some("b"))],
        vec![assertion(2, "no_crash", None, None)],
    );
    let mut dev = MockDevice::new();
    let run = run_suite(&[c], &reg, &mut dev, false);
    let html = render_html(&run);
    assert!(html.contains("A&amp;B"));
    assert!(html.contains("&lt;b&gt;"));
    assert!(html.contains("resource_id(0.88)"));
    assert!(html.contains("[button]"));
    assert!(html.starts_with("<!DOCTYPE html>"));
    assert!(html.ends_with("</body></html>"));
    assert!(html.contains("模拟设备执行（无真机）"));
}

#[test]
fn registry_keeps_the_first_of_two() {
    let mut reg = Registry::new();
    assert!(reg.is_empty());
    reg.add_file(vec![element("a", "one", &[])]);
    reg.add_file(vec![element("a", "two", &[]), element("c", "", &[])]);
    assert_eq!(reg.len(), 2);
    assert_eq!(reg.files(), 2);
    assert_eq!(reg.get("a").unwrap().label(), "one");
    assert_eq!(reg.get("c").unwrap().label(), "c");
    assert!(reg.get("z").is_none());
}

#[test]
fn verdict_of_assertions() {
    let result = |status: AssertStatus| AssertResult {
        n: 1,
        kind: "k".to_string(),
        expect: None,
        note: None,
        status,
        msg: String::new(),
        attempts: 1,
    };
    let verdict = |ok: bool, s: Vec<AssertStatus>| {
        atraverse::script::case::verdict(ok, &s.into_iter().map(result).collect())
    };
    let (pass, fail, skip) = (AssertStatus::Pass, AssertStatus::Fail, AssertStatus::Skip);
    assert_eq!(verdict(true, vec![pass, skip]), "pass");
    assert_eq!(verdict(true, vec![skip, skip]), "skip");
    assert_eq!(verdict(true, vec![skip, fail]), "fail");
    assert_eq!(verdict(false, vec![pass]), "fail");
    assert_eq!(verdict(true, vec![]), "pass");
}
