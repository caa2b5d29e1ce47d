use atraverse::annotate::{
    fit_markers, glyph, markers_for_action, png_size, scale_markers, thumbnail, thumbnail_size,
    Marker, MarkerKind, COLOR_CLICK, COLOR_KEY,
};
use atraverse::lettering::{text_dots, text_width};
use atraverse::model::{Action, Rect, SwipeDir, TargetInfo};
use atraverse::sketch::{draw_marker, Shape, SHADOW};

fn png(w: u32, h: u32) -> Vec<u8> {
    let img = image::RgbaImage::from_pixel(w, h, image::Rgba([30, 30, 34, 255]));
    let mut buf: Vec<u8> = Vec::new();
    image::DynamicImage::ImageRgba8(img)
        .write_to(&mut std::io::Cursor::new(&mut buf), image::ImageFormat::Png)
        .unwrap();
    buf
}

fn target() -> TargetInfo {
    TargetInfo {
        key: "k".to_string(),
        class: "Button".to_string(),
        resource_id: "id/ok".to_string(),
        text: "OK".to_string(),
        content_desc: String::new(),
        bounds: Rect::new(10, 20, 110, 60),
        label: "OK".to_string(),
    }
}

#[test]
fn glyph_bits_ok() {
    assert_eq!(glyph('A').unwrap()[0] >> 3, 0b1);
    assert!(glyph('中').is_none());
}

#[test]
fn letters_are_five_dots_wide() {
    for c in "0123456789ABCDEFGHIJKLMNOPQRSTUVWXYZ.-:/_#! ".chars() {
        let rows = glyph(c).unwrap();
        assert!(rows.iter().all(|r| *r < 32));
    }
    assert_eq!(
        glyph('Z').unwrap(),
        [0b11111, 0b00001, 0b00010, 0b00100, 0b01000, 0b10000, 0b11111]
    );
    assert!(glyph('a').is_none());
}

#[test]
fn marks_show_what_was_done() {
    let click = Action::Click {
        target: target(),
        point: (60, 40),
    };
    let m = &markers_for_action(&click, 7)[0];
    assert_eq!(m.kind, MarkerKind::Click);
    assert_eq!(m.kind.color(), COLOR_CLICK);
    assert_eq!(m.points, vec![(60, 40)]);
    assert_eq!(m.bounds, Some(Rect::new(10, 20, 110, 60)));
    assert_eq!((m.number, m.label.as_str()), (7, "CLICK"));

    let swipe = Action::Swipe {
        target: None,
        from: (1, 2),
        to: (3, 4),
        dir: SwipeDir::Up,
        duration_ms: 400,
    };
    let m = &markers_for_action(&swipe, 1)[0];
    assert_eq!(m.points, vec![(1, 2), (3, 4)]);
    assert_eq!(m.bounds, None);

    let input = Action::Input {
        target: target(),
        point: (60, 40),
        text: "abc".to_string(),
    };
    assert_eq!(markers_for_action(&input, 1)[0].label, "INPUT abc");

    let key = Action::Key {
        code: 66,
        name: "enter".to_string(),
    };
    let m = &markers_for_action(&key, 1)[0];
    assert_eq!((m.kind.color(), m.label.as_str()), (COLOR_KEY, "ENTER"));
    assert_eq!(markers_for_action(&Action::Back, 1)[0].label, "BACK");
    let launch = Action::Launch {
        component: "a/.B".to_string(),
    };
    assert!(markers_for_action(&launch, 1).is_empty());
}

fn marks() -> Vec<Marker> {
    vec![Marker {
        kind: MarkerKind::Click,
        points: vec![(270, 600), (-7, 3)],
        bounds: Some(Rect::new(41, 561, 500, 641)),
        number: 1,
        label: "CLICK".to_string(),
    }]
}

#[test]
fn marks_follow_the_size_of_the_picture() {
    let same = scale_markers(marks(), 540, 1200, &png(540, 1200));
    assert_eq!(same[0].points, marks()[0].points);
    assert_eq!(same[0].bounds, marks()[0].bounds);

    let half = scale_markers(marks(), 1080, 2400, &png(540, 1200));
    assert_eq!(half[0].points, vec![(135, 300), (-3, 1)]);
    assert_eq!(half[0].bounds, Some(Rect::new(20, 280, 250, 320)));

    let broken = scale_markers(marks(), 1080, 2400, b"no picture");
    assert_eq!(broken[0].points, marks()[0].points);
}

#[test]
fn scaling_is_that_of_single_precision() {
    for (w, sw) in [(1080i32, 720u32), (1081, 1440), (333, 1000), (720, 719), (97, 4096)] {
        let fx = sw as f32 / w as f32;
        for x in [-5000i32, -13, 0, 1, 7, 19, 100, 541, 1079, 20_000_001] {
            let m = vec![Marker {
                kind: MarkerKind::Key,
                points: vec![(x, x)],
                bounds: None,
                number: 0,
                label: String::new(),
            }];
            let got = fit_markers(m, w, w, Some((sw, sw)));
            let want = if (fx - 1.0).abs() < 0.02 {
                x
            } else {
                (x as f32 * fx) as i32
            };
            assert_eq!(got[0].points[0], (want, want), "{x} * {sw}/{w}");
        }
    }
}

#[test]
fn small_pictures_fit() {
    for (w, h) in [(540u32, 1200u32), (1080, 2400), (100, 80), (4000, 3), (261, 461)] {
        let scale = (260f32 / w as f32).min(460f32 / h as f32).min(1.0);
        let tw = ((w as f32 * scale) as u32).max(1);
        let th = ((h as f32 * scale) as u32).max(1);
        assert_eq!(thumbnail_size(w, h, 260, 460), (tw, th));
    }
    let small = thumbnail(&png(540, 1200), 260, 460).unwrap();
    let (w, h) = png_size(&small).unwrap();
    assert!(w <= 260 && h <= 460 && h >= 450, "{w}x{h}");
    assert_eq!(png_size(&png(540, 1200)), Some((540, 1200)));
    assert_eq!(png_size(b"no picture"), None);
    assert_eq!(thumbnail(b"no picture", 260, 460), None);
}

#[test]
fn words_are_made_of_dots() {
    let i: Vec<(i64, i64)> = text_dots("i", 1);
    let want = vec![
        (1, 0),
        (2, 0),
        (3, 0),
        (2, 1),
        (2, 2),
        (2, 3),
        (2, 4),
        (2, 5),
        (1, 6),
        (2, 6),
        (3, 6),
    ];
    assert_eq!(i, want);
    assert_eq!(text_dots("I", 1), want);
    let moved: Vec<(i64, i64)> = want.iter().map(|(x, y)| (2 * x + 24, 2 * y)).collect();
    assert_eq!(text_dots("界 I", 2), moved);
    assert_eq!(text_width("BACK", 3), 4 * 6 * 3 - 3);
    assert_eq!(text_width("", 3), -3);
    for (x, y) in text_dots("INPUT HELLO-9", 4) {
        assert!(0 <= x && x + 4 <= text_width("INPUT HELLO-9", 4));
        assert!(0 <= y && y + 4 <= 28);
    }
}

fn marker(kind: MarkerKind, points: Vec<(i32, i32)>, label: &str) -> Marker {
    Marker {
        kind,
        points,
        bounds: Some(Rect::new(0, 0, 9, 9)),
        number: 7,
        label: label.to_string(),
    }
}

#[test]
fn marks_are_drawn_with_number_and_words() {
    let click = draw_marker(&marker(MarkerKind::Click, vec![(5, 6)], "CLICK"));
    assert_eq!(click.len(), 8);
    assert!(matches!(
        click[0],
        Shape::Frame {
            width: 30,
            color: SHADOW,
            strength: 45,
            ..
        }
    ));
    assert!(matches!(
        click[3],
        Shape::Ring {
            at: (5, 6),
            radius: 200,
            width: 40,
            color: COLOR_CLICK,
            strength: 100
        }
    ));
    assert!(matches!(
        click[6],
        Shape::Badge {
            near: Some((5, 6)),
            away: 260,
            number: 7,
            ..
        }
    ));
    assert!(matches!(&click[7], Shape::Words { near: Some((5, 6)), text, .. } if text == "CLICK"));
    let key = draw_marker(&marker(MarkerKind::Key, vec![], ""));
    assert_eq!(key.len(), 1);
    assert!(matches!(
        key[0],
        Shape::Badge {
            near: None,
            number: 7,
            color: COLOR_KEY,
            ..
        }
    ));
    let held = draw_marker(&marker(MarkerKind::LongClick, vec![(1, 1)], "X"));
    let rings = held.iter().filter(|s| matches!(s, Shape::Ring { .. })).count();
    assert_eq!(rings, 4);
    let swipe = draw_marker(&marker(MarkerKind::Swipe, vec![(1, 1), (1, 90)], "SWIPE"));
    assert!(matches!(
        swipe[2],
        Shape::Arrow {
            from: (1, 1),
            to: (1, 90),
            width: 60,
            ..
        }
    ));
    let typed = draw_marker(&marker(MarkerKind::Input, vec![(1, 1)], "INPUT A"));
    assert!(typed.iter().any(|s| matches!(s, Shape::Caret { at: (1, 1), .. })));
    let lost = draw_marker(&marker(MarkerKind::Swipe, vec![(1, 1)], ""));
    assert_eq!(lost.len(), 2);
}
