use atraverse::decimal::{at_least, pct, show_two_places};
use atraverse::markup::esc;
use atraverse::single::{divide, scale_half, scale_size, Single};
use atraverse::strategy::coverage::ratio;
use atraverse::strategy::weight::{pick, total, weigh};
use atraverse::util::{fmt_duration, hash64, shell_quote, trim_output, truncate};
use std::hash::{Hash, Hasher};

fn single(v: f32) -> Single {
    Single { bits: v.to_bits() }
}

const SAMPLES: [f32; 26] = [
    0.0, -0.0, 0.005, 0.125, 0.375, 0.5, 0.555, 0.6, 0.625, 0.999, 1.0, 1.005, 2.675, 12.345,
    99.995, 1e-10, 1e-40, 123456.78, 16777216.0, 3.4e38, -2.5, -0.004, 0.3, 0.29999998, 33.333332,
    7e20,
];

#[test]
fn two_places_as_the_standard_library_writes_them() {
    for v in SAMPLES {
        assert_eq!(show_two_places(single(v)), format!("{v:.2}"));
    }
    assert_eq!(show_two_places(single(f32::NAN)), "NaN");
    assert_eq!(show_two_places(single(f32::INFINITY)), "inf");
    assert_eq!(show_two_places(single(f32::NEG_INFINITY)), "-inf");
}

#[test]
fn percent_as_the_standard_library_writes_it() {
    for v in SAMPLES {
        assert_eq!(pct(single(v)), format!("{:.1}%", v * 100.0));
    }
    for a in 0..40usize {
        for b in 1..40usize {
            let v = a as f32 / b as f32;
            assert_eq!(ratio(a, b).bits, v.to_bits());
            assert_eq!(pct(ratio(a, b)), format!("{:.1}%", v * 100.0));
        }
    }
    assert_eq!(pct(single(f32::NAN)), "NaN%");
    assert_eq!(ratio(3, 0).bits, 0);
}

#[test]
fn levels_of_coverage() {
    for v in SAMPLES {
        assert_eq!(at_least(single(v), 0.6f32.to_bits()), v >= 0.6, "{v}");
        assert_eq!(at_least(single(v), 0.3f32.to_bits()), v >= 0.3, "{v}");
    }
    assert!(!at_least(single(f32::NAN), 0.3f32.to_bits()));
}

#[test]
fn quotients_of_single_precision() {
    for (a, b) in [
        (1u64, 3u64),
        (2, 3),
        (16777217, 3),
        (u64::MAX, 7),
        (5, u64::MAX),
        (1 << 40, 1 << 20),
        (0, 9),
    ] {
        let want = a as f32 / b as f32;
        assert_eq!(divide(a as u128, b as u128).bits, want.to_bits());
    }
}

#[test]
fn products_of_single_precision() {
    for f in [0.5f32, 0.3333, 0.75, 1.0, 1.9, 100.25, 0.0] {
        for x in [0u64, 1, 9, 1080, 2400, 16_777_217] {
            assert_eq!(
                scale_size(x, single(f)) as i64,
                (x as f32 * f) as i64,
                "{x} * {f}"
            );
            assert_eq!(
                scale_half(x as i32, single(f)),
                (x as i32 as f32 * f / 2.0) as i32,
                "{x} * {f} / 2"
            );
        }
    }
}

#[test]
fn escaped_text() {
    assert_eq!(esc("a<b>&\"c\"'"), "a&lt;b&gt;&amp;&quot;c&quot;'");
    let chars: Vec<char> = esc("<&amp;> \"订单\"").chars().collect();
    assert_eq!(atraverse::dump::unescape(&chars), "<&amp;> \"订单\"");
}

#[test]
fn small_helpers() {
    assert_eq!(fmt_duration(3_456), "3.4s");
    assert_eq!(fmt_duration(723_000), "12m03s");
    assert_eq!(fmt_duration(3_723_000), "1h02m03s");
    assert_eq!(shell_quote("it's"), "'it'\\''s'");
    assert_eq!(trim_output("a\r\nb \r\n".to_string()), "a\r\nb");
    assert_eq!(truncate("短文本", 3), "短文本");
    assert_eq!(truncate("长一点的文本", 2).chars().next(), Some('长'));
    let mut h = std::collections::hash_map::DefaultHasher::new();
    "x".hash(&mut h);
    assert_eq!(hash64("x"), h.finish());
    assert_ne!(hash64("x"), hash64("y"));
}

/// The weight of one, in the units that weights are counted in.
const UNITS: f64 = 281474976710656.0;

#[test]
fn weights_of_single_precision() {
    for importance in 1..=10u64 {
        for foreign in [false, true] {
            for touched in 0..5u32 {
                let mut base = if foreign { 0.4f32 } else { 1.0f32 };
                base *= match touched {
                    0 => 3.0,
                    1 | 2 => 1.4,
                    _ => 0.6,
                };
                let want = importance as f32 * base;
                let got = weigh(importance, foreign, touched) as f64 / UNITS;
                assert_eq!(got, want as f64);
            }
        }
    }
}

#[test]
fn choice_by_weight_in_single_precision() {
    let ws: Vec<u64> = (0..60u64)
        .map(|i| weigh(i % 10 + 1, i % 7 == 0, (i % 5) as u32))
        .collect();
    let floats: Vec<f32> = ws.iter().map(|w| (*w as f64 / UNITS) as f32).collect();
    let sum: f32 = floats.iter().sum();
    assert_eq!(total(&ws) as f64 / UNITS, sum as f64);
    for k in 0..2000 {
        let draw = sum * (k as f32 / 2000.0);
        let mut r = draw;
        let mut want = floats.len() - 1;
        for (i, w) in floats.iter().enumerate() {
            r -= w;
            if r <= 0.0 {
                want = i;
                break;
            }
        }
        assert_eq!(pick(&ws, (draw as f64 * UNITS) as i128), want, "{k}");
    }
}
