use atraverse::model::{Action, Hierarchy, Rect, SwipeDir, TargetInfo};
use atraverse::dump::{parse_hierarchy, DumpError};
use atraverse::script::steps;
use atraverse::single::Single;

fn target(label: &str, key: &str) -> TargetInfo {
    TargetInfo {
        key: key.to_string(),
        class: "Button".to_string(),
        resource_id: String::new(),
        text: String::new(),
        content_desc: String::new(),
        bounds: Rect::new(0, 0, 10, 10),
        label: label.to_string(),
    }
}

#[test]
fn rects() {
    let r = Rect::parse("[24,140][1056,-240]").unwrap();
    assert_eq!((r.x1, r.y1, r.x2, r.y2), (24, 140, 1056, -240));
    assert_eq!(r.text(), "[24,140][1056,-240]");
    assert!(Rect::parse("[24,140][1056]").is_none());
    let a = Rect::new(0, 0, 100, 50);
    assert_eq!((a.w(), a.h(), a.cx(), a.cy(), a.area()), (100, 50, 50, 25, 5000));
    assert!(a.valid() && a.contains(0, 0) && !a.contains(100, 0));
    assert!(!r.valid());
    let b = a.intersect(&Rect::new(50, 20, 300, 300));
    assert_eq!(b, Rect::new(50, 20, 100, 50));
    let half = Single {
        bits: 0.5f32.to_bits(),
    };
    assert_eq!(a.shrink(half, half), Rect::new(25, 12, 75, 38));
    let ratio = a.visible_ratio(&Rect::new(0, 0, 25, 50));
    assert_eq!(f32::from_bits(ratio.bits), 0.25);
}

#[test]
fn actions_in_words() {
    let click = Action::Click {
        target: target("确定", "id/ok"),
        point: (5, 6),
    };
    assert_eq!(click.kind(), "click");
    assert_eq!(click.label(), "点击 确定 @(5,6)");
    assert_eq!(click.action_key(), "click#id/ok");
    assert_eq!(click.target_key().unwrap(), "id/ok");
    let swipe = Action::Swipe {
        target: None,
        from: (1, 2),
        to: (3, 4),
        dir: SwipeDir::Left,
        duration_ms: 300,
    };
    assert_eq!(swipe.action_key(), "swipe#screen#left");
    assert!(swipe.label().ends_with("屏幕 (1,2)->(3,4)"));
    assert_eq!(swipe.target_key(), None);
    assert_eq!(Action::Back.action_key(), "back");
    assert_eq!(
        Action::Key {
            code: -3,
            name: "n".to_string()
        }
        .action_key(),
        "key#-3"
    );
}

#[test]
fn swipes_of_steps_keep_to_the_middle() {
    let (from, to) = steps::swipe_points(Rect::new(0, 0, 1000, 800), SwipeDir::Up);
    assert_eq!((from, to), ((500, 600), (500, 200)));
    let (from, to) = steps::swipe_points(Rect::new(0, 0, 1000, 800), SwipeDir::Right);
    assert_eq!((from, to), ((250, 400), (750, 400)));
}

#[test]
fn keys_prefer_ids() {
    let h = parse_hierarchy(
        r#"<hierarchy width="100" height="100"><node class="a.Root" bounds="[0,0][100,100]"><node text="T" resource-id="p:id/x" class="a.Button" clickable="true" bounds="[0,0][10,10]"/><node text="T" class="a.Button" clickable="true" bounds="[0,20][10,30]"/><node class="a.View" bounds="[0,40][10,50]"/></node></hierarchy>"#,
    )
    .unwrap();
    let nodes = h.nodes();
    assert_eq!(nodes.len(), 4);
    assert_eq!(h.node_count(), 4);
    assert!(nodes[1].key().contains("p:id/x"));
    assert_ne!(nodes[1].key(), nodes[2].key());
    assert!(nodes[2].key().contains('T'));
    assert!(!nodes[2].struct_key().contains('T'));
    assert_eq!(nodes[1].short_class(), "Button");
    assert!(nodes[1].coverage_target() && !nodes[3].coverage_target());
    assert_eq!(nodes[1].click_point(&h.screen()), Some((5, 5)));
    assert_eq!(nodes[1].walk().len(), 1);
}

#[test]
fn empty_dump_is_an_error() {
    let e = parse_hierarchy("<hierarchy width=\"1\" height=\"1\"></hierarchy>").unwrap_err();
    assert_eq!(e, DumpError::Empty);
    assert!(e.text().contains("控件树为空"));
    let none: Hierarchy = Hierarchy::default();
    assert_eq!(none.node_count(), 0);
}
