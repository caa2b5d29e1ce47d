use atraverse::dump::parse_hierarchy;
use atraverse::model::{Action, Hierarchy, Rect, SwipeDir};
use atraverse::single::Single;
use atraverse::strategy::{swipe_points, Explorer, ExplorerConfig, StateMode};
use rand::Rng;
use std::collections::HashSet;

const SAMPLE: &str = r#"<hierarchy rotation="0" width="1080" height="2400">
  <node index="0" text="" resource-id="" class="android.widget.FrameLayout" package="com.demo" bounds="[0,0][1080,2400]">
    <node index="0" text="列表" resource-id="com.demo:id/list" class="android.widget.ListView" package="com.demo" scrollable="true" bounds="[0,100][1080,2200]">
      <node index="0" text="条目A" resource-id="com.demo:id/item_title" class="android.widget.TextView" package="com.demo" clickable="true" bounds="[0,120][1080,220]" />
      <node index="1" text="条目B" resource-id="com.demo:id/item_title" class="android.widget.TextView" package="com.demo" clickable="true" bounds="[0,240][1080,340]" />
    </node>
    <node index="1" text="" resource-id="com.demo:id/et" class="android.widget.EditText" package="com.demo" clickable="true" long-clickable="true" bounds="[40,2250][1040,2350]" />
  </node>
</hierarchy>"#;

fn cfg() -> ExplorerConfig {
    ExplorerConfig {
        package: "com.demo".into(),
        ..Default::default()
    }
}

fn sig(h: &Hierarchy, activity: &str) -> String {
    Hierarchy::state_sig_with(activity, &h.screen(), &h.visible_nodes())
}

/// The weight of one, in the units that weights are counted in.
const UNITS: f64 = 281474976710656.0;

/// Draws a number below the sum of the weights and takes the action that it falls on.
fn next_action(ex: &mut Explorer, id: u64, h: &Hierarchy) -> Option<Action> {
    let cands = ex.candidates(h);
    let total = (ex.total_weight(id, &cands) as f64 / UNITS) as f32;
    let draw: f32 = ex.rng.gen_range(0.0..total);
    ex.take_action(id, &cands, (draw as f64 * UNITS) as i128)
}

fn value(s: Single) -> f32 {
    f32::from_bits(s.bits)
}

#[test]
fn state_fingerprint_stable_and_content_sensitive() {
    let h1 = parse_hierarchy(SAMPLE).unwrap();
    let h2 = parse_hierarchy(SAMPLE).unwrap();
    assert_eq!(sig(&h1, "com.demo/.Main"), sig(&h2, "com.demo/.Main"));

    let changed = SAMPLE.replace("条目B", "条目C");
    let h3 = parse_hierarchy(&changed).unwrap();
    assert_ne!(sig(&h1, "com.demo/.Main"), sig(&h3, "com.demo/.Main"));
}

#[test]
fn generates_and_exhausts_actions() {
    let h = parse_hierarchy(SAMPLE).unwrap();
    let mut ex = Explorer::new(cfg(), 42);
    let (sid, is_new) = ex.observe(&h, "com.demo/.Main", 0);
    assert!(is_new);

    let mut seen = HashSet::new();
    for _ in 0..80 {
        if let Some(a) = next_action(&mut ex, sid, &h) {
            seen.insert(a.action_key());
        }
    }
    assert!(
        seen.iter()
            .any(|k| k.starts_with("click#com.demo:id/item_title")),
        "{:?}",
        seen
    );
    assert!(
        seen.iter()
            .any(|k| k.starts_with("swipe#com.demo:id/list#up")),
        "{:?}",
        seen
    );
    assert!(
        seen.iter()
            .any(|k| k.starts_with("swipe#com.demo:id/list#down")),
        "{:?}",
        seen
    );
    assert!(seen.iter().any(|k| k.starts_with("input#")), "{:?}", seen);
    assert!(
        seen.iter().any(|k| k.starts_with("long_click#")),
        "{:?}",
        seen
    );
}

#[test]
fn coverage_grows_after_touch() {
    let h = parse_hierarchy(SAMPLE).unwrap();
    let mut ex = Explorer::new(cfg(), 7);
    let (sid, _) = ex.observe(&h, "com.demo/.Main", 0);
    let c0 = ex.coverage();
    assert_eq!(c0.touched_nodes, 0);
    assert!(c0.total_nodes > 0);

    let a = next_action(&mut ex, sid, &h).unwrap();
    if let Some(k) = a.target_key() {
        ex.mark_touched(&k);
    }
    ex.note_transition(sid, a.action_key(), sid, 1);
    let c1 = ex.coverage();
    assert!(c1.touched_nodes >= 1);
    assert!(value(c1.node_coverage) > 0.0);
    assert_eq!(c1.activity_count, 1);
}

#[test]
fn swipe_points_sane() {
    let r = Rect::new(0, 0, 1000, 1000);
    let (f, t) = swipe_points(&r, SwipeDir::Up);
    assert!(f.1 > t.1);
    let (f, t) = swipe_points(&r, SwipeDir::Left);
    assert!(f.0 > t.0);
}

#[test]
fn swipe_points_differ_from_two_on() {
    for side in [2, 3, 4, 7, 8, 9] {
        for at in [0, 1, 2, 3, 5] {
            let r = Rect::new(at, at, at + side, at + side);
            let (f, t) = swipe_points(&r, SwipeDir::Up);
            assert!(f.1 > t.1 && f.0 == t.0);
            let (f, t) = swipe_points(&r, SwipeDir::Down);
            assert!(f.1 < t.1 && f.0 == t.0);
            let (f, t) = swipe_points(&r, SwipeDir::Left);
            assert!(f.0 > t.0 && f.1 == t.1);
            let (f, t) = swipe_points(&r, SwipeDir::Right);
            assert!(f.0 < t.0 && f.1 == t.1);
        }
    }
    let (f, t) = swipe_points(&Rect::new(0, 0, 2, 1), SwipeDir::Right);
    assert_eq!((f, t), ((0, 0), (1, 0)));
}

fn clock_hierarchy(time: &str) -> String {
    format!(
        r#"<hierarchy rotation="0" width="1080" height="2400">
  <node index="0" text="" resource-id="" class="android.widget.FrameLayout" package="com.demo" bounds="[0,0][1080,2400]">
    <node index="0" text="{time}" resource-id="" class="android.widget.TextView" package="com.demo" bounds="[40,40][300,100]" />
    <node index="1" text="确定" resource-id="com.demo:id/ok" class="android.widget.Button" package="com.demo" clickable="true" bounds="[40,200][300,280]" />
  </node>
</hierarchy>"#
    )
}

#[test]
fn structural_sig_resists_dynamic_text() {
    let times = ["09:01", "09:02", "09:03"];
    let structs: Vec<String> = times
        .iter()
        .map(|t| {
            let h = parse_hierarchy(&clock_hierarchy(t)).unwrap();
            Hierarchy::struct_sig_with("com.demo/.Main", &h.screen(), &h.visible_nodes())
        })
        .collect();
    assert!(
        structs.iter().all(|s| *s == structs[0]),
        "时钟文本变化不应改变结构签名: {structs:?}"
    );

    let fulls: Vec<String> = times
        .iter()
        .map(|t| {
            let h = parse_hierarchy(&clock_hierarchy(t)).unwrap();
            Hierarchy::state_sig_with("com.demo/.Main", &h.screen(), &h.visible_nodes())
        })
        .collect();
    assert!(
        fulls.windows(2).all(|w| w[0] != w[1]),
        "完整签名应当对文本敏感: {fulls:?}"
    );
}

#[test]
fn structural_mode_avoids_state_explosion() {
    let count = |mode: StateMode| {
        let mut ex = Explorer::new(
            ExplorerConfig {
                package: "com.demo".into(),
                state_mode: mode,
                ..Default::default()
            },
            1,
        );
        for t in ["09:01", "09:02", "09:03", "09:04", "09:05"] {
            let h = parse_hierarchy(&clock_hierarchy(t)).unwrap();
            ex.observe(&h, "com.demo/.Main", 0);
        }
        ex.state_count()
    };
    assert_eq!(count(StateMode::Structure), 1);
    assert_eq!(count(StateMode::Exact), 5);
}

#[test]
fn coverage_counts_only_interactive_targets() {
    let h = parse_hierarchy(SAMPLE).unwrap();
    let mut ex = Explorer::new(cfg(), 3);
    ex.observe(&h, "com.demo/.Main", 0);
    let c = ex.coverage();
    assert!(
        c.interactive_nodes < c.total_nodes,
        "可交互目标({}) 应少于全部节点({})",
        c.interactive_nodes,
        c.total_nodes
    );
    assert_eq!(c.interactive_nodes, 3);
    assert_eq!(c.interactive_touched, 0);
    assert_eq!(value(c.interactive_coverage), 0.0);
    assert!(c
        .untouched_sample
        .first()
        .map(|n| n.interactive)
        .unwrap_or(false));
    assert_eq!(c.untouched_interactive, 3);
}
