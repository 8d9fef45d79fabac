use hex_picker::color::Color;
use hex_picker::fixed::UNIT;

fn close(a: Color, b: Color, eps: u32) -> bool {
    a.r().abs_diff(b.r()) <= eps && a.g().abs_diff(b.g()) <= eps && a.b().abs_diff(b.b()) <= eps
}

fn samples() -> Vec<Color> {
    let edge = [0, 1, 2, 333_333, 499_999, 500_000, 500_001, 666_667, UNIT - 2, UNIT - 1, UNIT];
    let mut out = Vec::new();
    for r in edge {
        for g in edge {
            for b in edge {
                out.push(Color::rgb(r, g, b));
            }
        }
    }
    // a fixed pseudo-random walk through the cube
    let mut x: u64 = 0x2545_f491_4f6c_dd1d;
    for _ in 0..20_000 {
        let mut next = || {
            x ^= x << 13;
            x ^= x >> 7;
            x ^= x << 17;
            (x % (UNIT as u64 + 1)) as u32
        };
        let (r, g, b) = (next(), next(), next());
        out.push(Color::rgb(r, g, b));
    }
    out
}

#[test]
fn hsv_round_trip_is_within_a_millionth() {
    for c in samples() {
        let (h, s, v) = c.to_hsv();
        assert!(h < 360 * UNIT && s <= UNIT && v <= UNIT);
        let back = Color::from_hsv(h, s, v);
        assert!(close(back, c, 1), "{:?} -> {:?} -> {:?}", c, (h, s, v), back);
    }
}

#[test]
fn hsl_round_trip_is_within_a_millionth() {
    for c in samples() {
        let (h, s, l) = c.to_hsl();
        assert!(h < 360 * UNIT && s <= UNIT && l <= UNIT);
        let back = Color::from_hsl(h, s, l);
        assert!(close(back, c, 1), "{:?} -> {:?} -> {:?}", c, (h, s, l), back);
    }
}

#[test]
fn round_trip_of_a_known_colour() {
    let c = Color::rgb(800_000, 521_569, 772_549);
    assert_eq!(c.to_hsv(), (305_915_505, 348_039, 800_000));
    assert_eq!(c.to_hsl(), (305_915_505, 410_404, 660_785));
    assert!(close(Color::from_hsv(305_915_505, 348_039, 800_000), c, 1));
    assert!(close(Color::from_hsl(305_915_505, 410_404, 660_785), c, 1));
}

#[test]
fn bytes_round_trip_exactly() {
    for b in 0..=255u8 {
        let c = Color::from_rgb8(b, 255 - b, b / 2);
        assert_eq!(c.to_rgb8(), [b, 255 - b, b / 2]);
        assert_eq!(c.to_rgba8(), [b, 255 - b, b / 2, 255]);
    }
}

#[test]
fn hex_round_trip_is_within_a_byte_step() {
    for c in samples() {
        let text = c.to_hex();
        assert_eq!(text.len(), 7);
        let back = Color::from_hex(&text).unwrap();
        assert!(close(back, c, UNIT / 255), "{:?} -> {} -> {:?}", c, text, back);
        assert_eq!(back.to_hex(), text);
        assert_eq!(Color::from_hex(&text.to_uppercase()), Ok(back));
    }
}

#[test]
fn greys_have_no_hue_and_no_saturation() {
    for v in [0, 1, 250_000, 500_000, UNIT] {
        let grey = Color::rgb(v, v, v);
        assert_eq!(grey.to_hsv(), (0, 0, v));
        assert_eq!(grey.to_hsl(), (0, 0, v));
        for h in [0, 90 * UNIT, 359_999_999, 360 * UNIT] {
            assert_eq!(Color::from_hsv(h, 0, v), grey);
            assert_eq!(Color::from_hsl(h, 0, v), grey);
            assert_eq!(Color::from_hsv(h, v, 0), Color::black());
        }
    }
}

#[test]
fn arguments_out_of_range_are_pinned() {
    assert_eq!(Color::rgb(UNIT + 1, u32::MAX, 5), Color::rgb(UNIT, UNIT, 5));
    assert_eq!(Color::from_hsv(400 * UNIT, UNIT, UNIT), Color::from_hsv(360 * UNIT, UNIT, UNIT));
    assert_eq!(Color::from_hsv(u32::MAX, UNIT, UNIT), Color::rgb(UNIT, 0, 0));
    assert_eq!(
        Color::from_hsv(30 * UNIT, 2 * UNIT, u32::MAX),
        Color::from_hsv(30 * UNIT, UNIT, UNIT)
    );
    assert_eq!(
        Color::from_hsl(30 * UNIT, 2 * UNIT, u32::MAX),
        Color::from_hsl(30 * UNIT, UNIT, UNIT)
    );
    assert_eq!(Color::from_hsl(30 * UNIT, UNIT, UNIT), Color::white());
}

#[test]
fn hues_of_the_six_corners() {
    let u = UNIT;
    assert_eq!(Color::rgb(u, u, 0).to_hsv(), (60 * u, u, u));
    assert_eq!(Color::rgb(0, u, u).to_hsv(), (180 * u, u, u));
    assert_eq!(Color::rgb(u, 0, u).to_hsv(), (300 * u, u, u));
    assert_eq!(Color::rgb(u, 0, 0).to_hsl(), (0, u, u / 2));
    assert_eq!(Color::rgb(0, u, 0).to_hsl(), (120 * u, u, u / 2));
    assert_eq!(Color::rgb(0, 0, u).to_hsl(), (240 * u, u, u / 2));
    assert_eq!(Color::from_hsv(60 * u, u, u), Color::rgb(u, u, 0));
    assert_eq!(Color::from_hsv(30 * u, u, u), Color::rgb(u, u / 2, 0));
    assert_eq!(Color::from_hsl(120 * u, u, u / 2), Color::rgb(0, u, 0));
    assert_eq!(Color::from_hsl(0, u, u / 4), Color::rgb(u / 2, 0, 0));
    // a hue just below a full turn is red with a trace of blue
    assert_eq!(Color::rgb(u, 0, 1).to_hsv(), (359_999_940, u, u));
}
