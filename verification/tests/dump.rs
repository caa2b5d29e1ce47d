use atraverse::dump::parse_hierarchy;
use atraverse::model::rect::Rect;

const SAMPLE: &str = r#"<?xml version='1.0' encoding='UTF-8' standalone='yes' ?>
<hierarchy rotation="0" width="1080" height="2400">
  <node index="0" text="" resource-id="" class="android.widget.FrameLayout" package="com.demo" content-desc="" checkable="false" checked="false" clickable="false" enabled="true" focusable="false" focused="false" scrollable="false" long-clickable="false" password="false" selected="false" bounds="[0,0][1080,2400]">
<node index="0" text="" resource-id="com.demo:id/recycler" class="androidx.recyclerview.widget.RecyclerView" package="com.demo" content-desc="" checkable="false" checked="false" clickable="false" enabled="true" focusable="true" focused="false" scrollable="true" long-clickable="false" password="false" selected="false" bounds="[0,120][1080,2300]">
  <node index="0" text="订单 &amp; 物流" resource-id="com.demo:id/title" class="android.widget.TextView" package="com.demo" content-desc="" checkable="false" checked="false" clickable="true" enabled="true" focusable="false" focused="false" scrollable="false" long-clickable="false" password="false" selected="false" bounds="[24,140][1056,240]" />
  <node index="1" text="设置" resource-id="com.demo:id/title" class="android.widget.TextView" package="com.demo" content-desc="" checkable="false" checked="false" clickable="true" enabled="true" focusable="false" focused="false" scrollable="false" long-clickable="false" password="false" selected="false" bounds="[24,260][1056,360]" />
</node>
<node index="1" text="" resource-id="com.demo:id/input" class="android.widget.EditText" package="com.demo" content-desc="搜索框" checkable="false" checked="false" clickable="true" enabled="true" focusable="true" focused="false" scrollable="false" long-clickable="true" password="false" selected="false" bounds="[40,2320][1040,2380]" />
  </node>
</hierarchy>
UI hierchary dumped to: /dev/tty"#;

#[test]
fn parses_sample() {
    let h = parse_hierarchy(SAMPLE).unwrap();
    assert_eq!(h.width, 1080);
    assert_eq!(h.height, 2400);
    let nodes = h.nodes();
    assert_eq!(nodes.len(), 5);
    let texts: Vec<&str> = nodes.iter().map(|n| n.text.as_str()).collect();
    assert!(texts.contains(&"订单 & 物流"));
    let tv = nodes.iter().find(|n| n.text == "设置").unwrap();
    assert!(tv.clickable);
    assert_eq!(tv.bounds, Rect::new(24, 260, 1056, 360));
    assert!(tv.click_point(&h.screen()).is_some());
    let et = nodes.iter().find(|n| n.is_edit_text()).unwrap();
    assert_eq!(et.content_desc, "搜索框");
    assert!(et.long_clickable);
    let rv = nodes.iter().find(|n| n.scrollable).unwrap();
    assert_eq!(rv.resource_id, "com.demo:id/recycler");
}

#[test]
fn parses_self_closing_only() {
    let xml = r#"<hierarchy rotation="0" width="480" height="800"><node index="0" text="A" class="android.widget.Button" bounds="[0,0][100,50]" clickable="true" /></hierarchy>"#;
    let h = parse_hierarchy(xml).unwrap();
    assert_eq!(h.nodes().len(), 1);
    assert_eq!(h.nodes()[0].text, "A");
}

#[test]
fn rejects_empty() {
    assert!(parse_hierarchy("UI hierchary dumped to: /dev/tty").is_err());
}

#[test]
fn a_dump_cut_short_is_read() {
    let cut = &SAMPLE[..SAMPLE.find("text=\"设置\"").unwrap()];
    let h = parse_hierarchy(cut).unwrap();
    assert_eq!(h.nodes().len(), 3);
    assert_eq!(h.root.unwrap().children.len(), 1);
    let sizeless = r#"<hierarchy><node bounds="[0,0][720,1280]"><node bounds="[1,1][2,2]"/>"#;
    let h = parse_hierarchy(sizeless).unwrap();
    assert_eq!((h.width, h.height), (720, 1280));
    assert!(parse_hierarchy("<hierarchy></hierarchy><nodes/><!-- <node -->").is_err());
}
