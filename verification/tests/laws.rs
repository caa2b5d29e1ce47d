use atraverse::cli::exit_code;
use atraverse::dump::parse_hierarchy;
use atraverse::model::{Action, Hierarchy, Rect};
use atraverse::monitor::evidence::{
    anr_trace_path, cat_command, dropbox_command, dropbox_excerpt, file_text, tombstone_path,
};
use atraverse::monitor::Collector;
use atraverse::runner::travel::Traversal;
use atraverse::script::{ScriptRun, Summary};
use atraverse::strategy::{Explorer, ExplorerConfig, StateMode};
use atraverse::util::{shell_quote, slug, trim_output, unique_name};
use rand::Rng;

const FORM: &str = r#"<hierarchy rotation="0" width="1080" height="2400">
  <node index="0" text="" class="android.widget.FrameLayout" package="com.demo" enabled="true" bounds="[0,0][1080,2400]">
    <node index="0" text="" resource-id="com.demo:id/name" class="android.widget.EditText" package="com.demo" enabled="true" bounds="[40,100][1040,200]" />
    <node index="1" text="" resource-id="com.demo:id/city" class="android.widget.EditText" package="com.demo" enabled="true" bounds="[40,300][1040,400]" />
    <node index="2" text="好" resource-id="com.demo:id/ok" class="android.widget.Button" package="com.demo" enabled="true" clickable="true" bounds="[40,500][1040,600]" />
    <node index="3" text="不" resource-id="com.demo:id/no" class="android.widget.Button" package="com.demo" enabled="false" clickable="true" bounds="[40,700][1040,800]" />
    <node index="4" text="别" resource-id="com.other:id/x" class="android.widget.Button" package="com.other" enabled="true" clickable="true" bounds="[40,900][1040,1000]" />
  </node>
</hierarchy>"#;

/// The weight of one, in the units that weights are counted in.
const UNITS: f64 = 281474976710656.0;

fn form() -> Hierarchy {
    parse_hierarchy(FORM).unwrap()
}

fn explorer(pool: &[&str], seed: u64) -> Explorer {
    Explorer::new(
        ExplorerConfig {
            package: "com.demo".to_string(),
            text_pool: pool.iter().map(|t| t.to_string()).collect(),
            ..Default::default()
        },
        seed,
    )
}

fn next_key(ex: &mut Explorer, id: u64, h: &Hierarchy) -> String {
    let cands = ex.candidates(h);
    let total = (ex.total_weight(id, &cands) as f64 / UNITS) as f32;
    let draw: f32 = ex.rng.gen_range(0.0..total);
    let action = ex.take_action(id, &cands, (draw as f64 * UNITS) as i128);
    action.unwrap().action_key()
}

fn typed(actions: &[Action]) -> Vec<(String, String)> {
    actions
        .iter()
        .filter_map(|a| match a {
            Action::Input { target, text, .. } => Some((target.key.clone(), text.clone())),
            _ => None,
        })
        .collect()
}

#[test]
fn same_seed_same_order() {
    let h = form();
    let order = |seed: u64| {
        let mut ex = explorer(&["a", "b", "c", "d"], seed);
        let (id, _) = ex.observe(&h, "com.demo/.Main", 0);
        (0..12).map(|_| next_key(&mut ex, id, &h)).collect::<Vec<_>>()
    };
    assert_eq!(order(5), order(5));
    assert!((6..20).any(|seed| order(seed) != order(5)));
}

#[test]
fn given_texts_are_typed() {
    let h = form();
    let ex = explorer(&["x"], 1);
    let texts: Vec<String> = (0..h.visible_nodes().len()).map(|i| format!("t{i}")).collect();
    let actions: Vec<Action> = ex.offers(&h, &texts).into_iter().map(|c| c.action).collect();
    let wants = vec![
        ("com.demo:id/name".to_string(), "t1".to_string()),
        ("com.demo:id/city".to_string(), "t2".to_string()),
    ];
    assert_eq!(typed(&actions), wants);
}

#[test]
fn texts_are_drawn_from_the_pool() {
    let h = form();
    let mut ex = explorer(&["x", "y"], 3);
    let texts = ex.draw_texts(&h);
    assert_eq!(texts.len(), h.visible_nodes().len());
    assert!(texts[1] == "x" || texts[1] == "y");
    assert!(texts[0].is_empty() && texts[3].is_empty());
    let mut none = explorer(&[], 3);
    assert!(none.draw_texts(&h).iter().all(|t| t.is_empty()));
    let nothing: Vec<Action> = none.candidates(&h).into_iter().map(|c| c.action).collect();
    assert!(typed(&nothing).is_empty());
}

#[test]
fn untried_actions_come_first() {
    let h = form();
    let mut ex = explorer(&["x"], 9);
    let (id, _) = ex.observe(&h, "com.demo/.Main", 0);
    let n = ex.candidates(&h).len();
    let keys: std::collections::HashSet<String> =
        (0..n).map(|_| next_key(&mut ex, id, &h)).collect();
    assert_eq!(keys.len(), n);
    assert!(keys.contains(&next_key(&mut ex, id, &h)));
}

#[test]
fn a_screen_is_used_up_before_anything_is_repeated() {
    let h = form();
    for seed in 0..20 {
        let mut ex = explorer(&[], seed);
        let (id, _) = ex.observe(&h, "com.demo/.Main", 0);
        let offered: std::collections::HashSet<String> =
            ex.candidates(&h).iter().map(|c| c.action.action_key()).collect();
        let n = offered.len();
        assert!(n > 1);
        let taken: Vec<String> = (0..n).map(|_| next_key(&mut ex, id, &h)).collect();
        let used: std::collections::HashSet<String> = taken.into_iter().collect();
        assert_eq!(used, offered);
        assert!(used.contains(&next_key(&mut ex, id, &h)));
    }
    let mut ex = explorer(&[], 1);
    let cands = ex.candidates(&h);
    let keys: Vec<String> =
        (0..cands.len()).map(|_| ex.take_action(7, &cands, 0).unwrap().action_key()).collect();
    let order: Vec<String> = cands.iter().map(|c| c.action.action_key()).collect();
    assert_eq!(keys, order);
    assert_eq!(ex.take_action(7, &cands, 0).unwrap().action_key(), order[0]);
}

#[test]
fn a_state_is_new_once() {
    let h = form();
    let mut ex = explorer(&[], 4);
    let looks = ["A", "B", "B", "A", "C", "C", "C", "B"];
    let mut seen: Vec<u64> = Vec::new();
    let mut streak = 0;
    for (step, activity) in looks.iter().enumerate() {
        let before = ex.state_count();
        let (id, is_new) = ex.observe(&h, activity, step);
        assert_eq!(is_new, !seen.contains(&id));
        assert_eq!(ex.state_count(), before + is_new as usize);
        streak = if seen.last() == Some(&id) { streak + 1 } else { 0 };
        assert_eq!(ex.same_streak(), streak);
        seen.push(id);
        next_key(&mut ex, id, &h);
        ex.mark_touched("com.demo:id/ok");
        ex.note_transition(id, "k".to_string(), id, step);
        if step == 5 {
            ex.reset_streak();
            streak = 0;
            assert_eq!(ex.take_transitions().len(), 6);
        }
    }
    assert_eq!(ex.state_count(), 3);
}

#[test]
fn disabled_widgets_offer_nothing() {
    let h = form();
    let mut ex = explorer(&["x"], 1);
    let keys: Vec<String> = ex
        .candidates(&h)
        .iter()
        .map(|c| c.action.action_key())
        .collect();
    assert!(keys.iter().any(|k| k.contains("com.demo:id/ok")));
    assert!(!keys.iter().any(|k| k.contains("com.demo:id/no")));
}

#[test]
fn something_is_always_offered() {
    let h = parse_hierarchy(
        r#"<hierarchy width="100" height="100"><node class="a.View" bounds="[0,0][100,100]"/></hierarchy>"#,
    )
    .unwrap();
    let cands = explorer(&[], 1).candidates(&h);
    assert_eq!(cands.len(), 1);
    assert_eq!(cands[0].action.kind(), "swipe");
}

#[test]
fn used_widgets_weigh_less() {
    let h = form();
    let mut ex = explorer(&[], 1);
    ex.observe(&h, "com.demo/.Main", 0);
    let weight = |ex: &mut Explorer| {
        ex.candidates(&h)
            .iter()
            .find(|c| c.action.target_key().as_deref() == Some("com.demo:id/ok"))
            .map(|c| c.weight)
            .unwrap()
    };
    let fresh = weight(&mut ex);
    ex.mark_touched("com.demo:id/ok");
    assert!(weight(&mut ex) < fresh);
}

#[test]
fn other_apps_are_not_counted() {
    let h = form();
    let mut ex = explorer(&[], 1);
    ex.observe(&h, "com.demo/.Main", 0);
    let c = ex.coverage();
    assert!(c.untouched_sample.iter().all(|n| n.key != "com.other:id/x"));
    assert_eq!(c.touched_nodes, 0);
    ex.mark_touched("com.demo:id/ok");
    ex.mark_touched("com.demo:id/ok");
    ex.mark_touched("com.unknown:id/y");
    let d = ex.coverage();
    assert_eq!((d.touched_nodes, d.total_nodes), (1, c.total_nodes));
    assert!(d.interactive_touched <= d.interactive_nodes);
    assert_eq!(d.untouched_interactive, d.interactive_nodes - 1);
}

#[test]
fn the_same_screen_is_the_same_state() {
    let h = form();
    let mut ex = explorer(&[], 1);
    let (first, new) = ex.observe(&h, "com.demo/.Main", 0);
    assert!(new);
    assert_eq!(ex.observe(&h, "com.demo/.Main", 1), (first, false));
    assert_eq!(ex.same_streak(), 1);
    let changed = parse_hierarchy(&FORM.replace("好", "12:01")).unwrap();
    assert_eq!(ex.observe(&changed, "com.demo/.Main", 2), (first, false));
    let (other, new) = ex.observe(&h, "com.demo/.Other", 3);
    assert!(new && other != first);
    assert_eq!((ex.state_count(), ex.same_streak()), (2, 0));
    assert_eq!(ex.states_in_order()[0].id, first);
    assert_eq!(StateMode::parse(StateMode::Exact.as_str()), Some(StateMode::Exact));
}

#[test]
fn rectangles_are_read_back() {
    let r = Rect::new(-3, 0, 1080, 2400);
    assert_eq!(Rect::parse(&r.text()), Some(r));
    assert_eq!(Rect::parse("[1,2][3]"), None);
    assert_eq!(
        Rect::new(0, 0, 10, 10).intersect(&Rect::new(5, 5, 20, 20)),
        Rect::new(5, 5, 10, 10)
    );
}

#[test]
fn names_are_safe_and_free() {
    assert_eq!(slug("../a b:c"), "ab_c");
    assert_eq!(slug("界面"), "unknown");
    let taken: Vec<String> = vec!["s".to_string(), "s_2".to_string()];
    assert_eq!(unique_name("s", &taken, "z"), "s_3");
    assert_eq!(shell_quote("a'b c"), "'a'\\''b c'");
    assert_eq!(trim_output("x \r\n \n".to_string()), "x");
}

#[test]
fn evidence_is_read_from_replies() {
    assert_eq!(
        dropbox_command("data_app_anr"),
        "dumpsys dropbox --print data_app_anr"
    );
    assert_eq!(dropbox_excerpt(" \n "), "");
    let long: Vec<String> = (0..500).map(|i| format!("line {i}")).collect();
    let kept = dropbox_excerpt(&long.join("\n"));
    assert_eq!(kept, long[..400].join("\n"));
    assert_eq!(cat_command("/a/b"), "cat /a/b");
    assert_eq!(file_text("cat: /a/b: Permission denied"), "");
    assert_eq!(file_text("x\ny"), "x\ny");
    assert_eq!(anr_trace_path("anr_1 \nanr_0").as_deref(), Some("/data/anr/anr_1"));
    assert_eq!(anr_trace_path("ls: Permission denied"), None);
    assert_eq!(anr_trace_path("\nanr_0"), None);
    assert_eq!(
        tombstone_path("tombstone_03\ntombstone_02").as_deref(),
        Some("/data/tombstones/tombstone_03")
    );
    assert_eq!(tombstone_path(""), None);
}

#[test]
fn blocks_are_whole_and_reported_once() {
    let mut c = Collector::new("com.demo");
    let lines = [
        "E AndroidRuntime: FATAL EXCEPTION: main",
        "E AndroidRuntime: Process: com.demo, PID: 1",
        "E AndroidRuntime: java.lang.IllegalStateException: x",
    ];
    for l in lines {
        assert!(c.feed(l, 0).is_none());
    }
    let inc = c.feed("D other: later", 2_600_000_000).unwrap();
    assert!(lines.iter().all(|l| inc.detail.contains(l)));
    for l in lines {
        assert!(c.feed(l, 3_000_000_000).is_none());
    }
    assert!(c.finish(4_000_000_000).is_none());
    for l in lines {
        assert!(c.feed(l, 9_000_000_000).is_none());
    }
    assert!(c.finish(9_000_000_001).is_some());
    assert_eq!(c.lines_read(), 10);
}

#[test]
fn problems_show_in_the_exit_code() {
    let mut run = ScriptRun {
        generated: String::new(),
        kb: String::new(),
        package: String::new(),
        mode: "dry-run".to_string(),
        summary: Summary::default(),
        cases: Vec::new(),
    };
    assert_eq!((exit_code(&run), run.has_problem()), (0, false));
    run.summary.blocked = 1;
    assert_eq!((exit_code(&run), run.has_problem()), (1, true));
    run.summary.blocked = 0;
    run.summary.skip = 3;
    assert_eq!(exit_code(&run), 0);
    run.summary.fail = 1;
    assert_eq!(exit_code(&run), 1);
}

#[test]
fn progress_is_told_at_every_tenth_step() {
    let mut t = Traversal::new();
    assert!(t.shows_progress(false));
    t.step_index = 7;
    assert!(!t.shows_progress(false) && t.shows_progress(true));
    t.step_index = 20;
    assert!(t.shows_progress(false));
}
