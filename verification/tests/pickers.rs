use hex_picker::color::Color;
use hex_picker::data::{Data, Output, Theme};
use hex_picker::fixed::UNIT;
use hex_picker::geometry::{Point, Size, Space};
use hex_picker::gradient::{hue_strip_pixels, plane_pixels_for};
use hex_picker::views::{Event, OnePicker, Requests, TwoPicker};

const NONE: Requests = Requests { rebuild: false, draw: false };
const BOTH: Requests = Requests { rebuild: true, draw: true };

#[test]
fn hue_strip_image_starts_and_ends_red() {
    let image = OnePicker::create_image();
    assert_eq!(image.width(), 1);
    assert_eq!(image.height(), 256);
    let pixels = image.pixels();
    assert_eq!(pixels.len(), 4 * 256);
    assert_eq!(&pixels[0..4], &[255, 0, 0, 255]);
    assert_eq!(&pixels[4 * 255..4 * 256], &[255, 0, 0, 255]);
    assert_eq!(&pixels[0..4], &OnePicker::get_color(0).to_rgba8());
    assert_eq!(&pixels[4 * 255..], &OnePicker::get_color(360 * UNIT).to_rgba8());
    // a third of the way down the strip is green, two thirds is blue
    assert_eq!(&pixels[4 * 85..4 * 86], &[0, 255, 0, 255]);
    assert_eq!(&pixels[4 * 170..4 * 171], &[0, 0, 255, 255]);
}

#[test]
fn plane_image_corners() {
    let plane = TwoPicker { hue: 0 };
    let image = plane.create_image();
    assert_eq!(image.width(), 256);
    assert_eq!(image.height(), 256);
    let pixels = image.pixels();
    assert_eq!(pixels.len(), 4 * 256 * 256);
    let at = |i: usize, j: usize| &pixels[4 * (256 * j + i)..4 * (256 * j + i) + 4];
    assert_eq!(at(0, 0), &[255, 255, 255, 255]);
    assert_eq!(at(255, 0), &[255, 0, 0, 255]);
    assert_eq!(at(0, 255), &[0, 0, 0, 255]);
    assert_eq!(at(255, 255), &[0, 0, 0, 255]);
    assert_eq!(at(51, 102), &Color::from_hsv(0, 200_000, 600_000).to_rgba8());
}

#[test]
fn clamped_drag_on_the_plane() {
    let plane = TwoPicker { hue: 200 * UNIT };
    let mut state = plane.build();
    let mut data = Data::default();
    let size = Size::new(200, 200);

    let r = plane.event(&mut state, &mut data, &Event::PointerPressed(Point::new(50, 50)), size);
    assert_eq!(r, BOTH);
    assert!(state.clicked);
    assert_eq!(data.color, Color::from_hsv(200 * UNIT, 250_000, 750_000));
    assert_eq!(data.color, plane.get_color(Point::new(250_000, 250_000)));

    let r = plane.event(&mut state, &mut data, &Event::PointerMoved(Point::new(-100, -100)), size);
    assert_eq!(r, BOTH);
    assert!(state.clicked);
    // u = 0, v = 0: no saturation, full value
    assert_eq!(data.color, plane.get_color(Point::new(0, 0)));
    assert_eq!(data.color, Color::white());

    let r = plane.event(&mut state, &mut data, &Event::PointerMoved(Point::new(9999, 9999)), size);
    assert_eq!(r, BOTH);
    // u = 1, v = 1: full saturation, no value
    assert_eq!(data.color, plane.get_color(Point::new(UNIT as i64, UNIT as i64)));
    assert_eq!(data.color, Color::black());

    let r = plane.event(&mut state, &mut data, &Event::PointerReleased, size);
    assert_eq!(r, NONE);
    assert!(!state.clicked);
    assert_eq!(data.color, Color::black());
    assert_eq!(data.hue, 0);
}

#[test]
fn idle_move_is_a_no_op() {
    let size = Size::new(200, 200);
    let mut data = Data::default();
    data.color = Color::from_hex("#cc85c5").unwrap();
    data.hue = 123;
    let before = data;

    let plane = TwoPicker { hue: 90 * UNIT };
    let mut plane_state = plane.build();
    let r = plane.event(&mut plane_state, &mut data, &Event::PointerMoved(Point::new(10, 10)), size);
    assert_eq!(r, NONE);
    assert!(!plane_state.clicked);
    assert_eq!(data, before);

    let strip = OnePicker;
    let mut strip_state = strip.build();
    let r = strip.event(&mut strip_state, &mut data, &Event::PointerMoved(Point::new(10, 10)), size);
    assert_eq!(r, NONE);
    assert!(!strip_state.clicked);
    assert_eq!(data, before);
}

#[test]
fn press_outside_is_ignored() {
    let size = Size::new(30, 200);
    let mut data = Data::default();
    let before = data;
    let strip = OnePicker;
    let mut state = strip.build();
    let r = strip.event(&mut state, &mut data, &Event::PointerPressed(Point::new(31, 50)), size);
    assert_eq!(r, NONE);
    assert!(!state.clicked);
    assert_eq!(data, before);
    let r = strip.event(&mut state, &mut data, &Event::PointerPressed(Point::new(10, -1)), size);
    assert_eq!(r, NONE);
    assert!(!state.clicked);
    // the edges belong to the widget
    let r = strip.event(&mut state, &mut data, &Event::PointerPressed(Point::new(30, 200)), size);
    assert_eq!(r, BOTH);
    assert!(state.clicked);
    assert_eq!(data.hue, 360 * UNIT);
}

#[test]
fn hue_press_on_black_keeps_black() {
    let strip = OnePicker;
    let mut state = strip.build();
    let mut data = Data::default();
    assert_eq!(data.color, Color::black());
    assert_eq!(data.color.to_hsl(), (0, 0, 0));
    let size = Size::new(30, 200);
    let r = strip.event(&mut state, &mut data, &Event::PointerPressed(Point::new(15, 50)), size);
    assert_eq!(r, BOTH);
    assert!(state.clicked);
    assert_eq!(data.hue, 90 * UNIT);
    assert_eq!(data.color, Color::from_hsv(90 * UNIT, 0, 0));
    assert_eq!(data.color, Color::black());
    assert_eq!(data.color.to_hsv().1, 0);
}

#[test]
fn hue_drag_keeps_saturation_and_value() {
    let strip = OnePicker;
    let mut state = strip.build();
    let mut data = Data::default();
    data.color = Color::from_hsv(10 * UNIT, 500_000, 800_000);
    let size = Size::new(30, 360);
    strip.event(&mut state, &mut data, &Event::PointerPressed(Point::new(0, 120)), size);
    assert_eq!(data.hue, 120 * UNIT);
    assert_eq!(data.color, Color::from_hsv(120 * UNIT, 500_000, 800_000));
    // the drag goes on outside the widget and is pinned to its edges
    strip.event(&mut state, &mut data, &Event::PointerMoved(Point::new(-500, 5000)), size);
    assert_eq!(data.hue, 360 * UNIT);
    strip.event(&mut state, &mut data, &Event::PointerMoved(Point::new(500, -5000)), size);
    assert_eq!(data.hue, 0);
    assert_eq!(data.color, Color::from_hsv(0, 500_000, 800_000));
    strip.event(&mut state, &mut data, &Event::PointerReleased, size);
    assert!(!state.clicked);
    let before = data;
    let r = strip.event(&mut state, &mut data, &Event::PointerMoved(Point::new(10, 10)), size);
    assert_eq!(r, NONE);
    assert_eq!(data, before);
}

#[test]
fn overlays_follow_the_colour_and_the_extent() {
    let strip = OnePicker;
    let state = strip.build();
    let mut data = Data::default();
    data.hue = 90 * UNIT;
    let quads = strip.draw(&state, &data, Size::new(30, 200));
    assert_eq!(quads[0].center, Point::new(15, 50));
    assert_eq!(quads[0].size, Size::new(34, 4));
    assert_eq!(quads[0].border, Color::white());
    assert_eq!(quads[1].center, Point::new(15, 50));
    assert_eq!(quads[1].size, Size::new(36, 6));
    assert_eq!(quads[1].border, Color::black());
    let quads = strip.draw(&state, &data, Size::new(30, 400));
    assert_eq!(quads[0].center, Point::new(15, 100));

    let plane = TwoPicker { hue: data.hue };
    let plane_state = plane.build();
    data.color = Color::from_hsv(90 * UNIT, 250_000, 750_000);
    let quads = plane.draw(&plane_state, &data, Size::new(200, 200));
    assert_eq!(quads[0].center, Point::new(50, 50));
    assert_eq!(quads[0].size, Size::new(6, 6));
    assert_eq!(quads[0].border, Color::white());
    assert_eq!(quads[1].center, Point::new(50, 50));
    assert_eq!(quads[1].size, Size::new(8, 8));
    assert_eq!(quads[1].border, Color::black());
}

#[test]
fn layout_of_the_widgets() {
    let space = Space { min: Size::new(0, 0), max: Size::new(500, 200) };
    assert_eq!(OnePicker.layout(space), Size::new(30, 200));
    assert_eq!((TwoPicker { hue: 0 }).layout(space), Size::new(500, 200));
    let narrow = Space { min: Size::new(0, 0), max: Size::new(20, 200) };
    assert_eq!(OnePicker.layout(narrow), Size::new(20, 200));
    let wide = Space { min: Size::new(40, 10), max: Size::new(60, 200) };
    assert_eq!(OnePicker.layout(wide), Size::new(40, 200));
}

#[test]
fn plane_image_is_remade_on_a_new_hue_only() {
    let old_view = TwoPicker { hue: 0 };
    let mut state = old_view.build();
    let red = state.image.clone();
    let same = TwoPicker { hue: 0 };
    same.rebuild(&mut state, &old_view);
    assert_eq!(state.image, red);
    let green = TwoPicker { hue: 120 * UNIT };
    green.rebuild(&mut state, &same);
    assert_eq!(state.image, green.create_image());
    assert_ne!(state.image, red);
    assert_eq!(&state.image.pixels()[4 * 255..4 * 256], &[0, 255, 0, 255]);
}

#[test]
fn settings_toggle() {
    assert_eq!(Theme::Dark.swap(), Theme::Light);
    assert_eq!(Theme::Light.swap(), Theme::Dark);
    assert_eq!(Output::Css.toggle(), Output::Ori);
    assert_eq!(Output::Ori.toggle(), Output::Css);
    let data = Data::default();
    assert_eq!(data.theme, Theme::Dark);
    assert_eq!(data.output, Output::Css);
    assert_eq!(data.hue, 0);
    assert_eq!(data.color, Color::black());
}

#[test]
fn strip_image_is_made_once() {
    let strip = OnePicker;
    let mut state = strip.build();
    let made = state.image.clone();
    state.clicked = true;
    strip.rebuild(&mut state, &OnePicker);
    assert_eq!(state.image, made);
    assert!(state.clicked);
    assert_eq!(state.image, OnePicker::create_image());
}

#[test]
fn images_hold_the_synthesized_bytes() {
    let strip = hue_strip_pixels();
    assert_eq!(OnePicker::create_image().pixels(), &strip[..]);
    let plane = plane_pixels_for(75 * UNIT);
    assert_eq!((TwoPicker { hue: 75 * UNIT }).create_image().pixels(), &plane[..]);
    // every pixel is opaque, and the top row runs from white to the pure hue
    assert!(plane.chunks(4).all(|p| p[3] == 255));
    assert_eq!(&plane[0..4], &[255, 255, 255, 255]);
    assert_eq!(&plane[4 * 255..4 * 256], &OnePicker::get_color(75 * UNIT).to_rgba8());
    // the hue does not matter where there is no saturation or no value
    let other = plane_pixels_for(300 * UNIT);
    for j in 0..256 {
        assert_eq!(&plane[4 * 256 * j..4 * 256 * j + 4], &other[4 * 256 * j..4 * 256 * j + 4]);
    }
    assert_eq!(&plane[4 * 256 * 255..], &other[4 * 256 * 255..]);
}
