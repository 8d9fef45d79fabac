use hex_picker::color::Color;
use hex_picker::data::{Data, Key, Output, Theme};
use hex_picker::feedback::{CopyEvent, CopyState};
use hex_picker::fixed::{clamp_unit, round_div, UNIT};
use hex_picker::geometry::{fraction, share, Point, Size, Space};
use hex_picker::hex::ParseError;

#[test]
fn shares_are_pinned_to_the_ends() {
    assert_eq!(fraction(50, 200), 250_000);
    assert_eq!(fraction(-100, 200), 0);
    assert_eq!(fraction(0, 200), 0);
    assert_eq!(fraction(200, 200), UNIT);
    assert_eq!(fraction(9999, 200), UNIT);
    assert_eq!(fraction(1, 3), 333_333);
    assert_eq!(fraction(2, 3), 666_667);
    assert_eq!(share(50, 200, 360 * UNIT), 90 * UNIT);
    assert_eq!(share(i64::MAX, u32::MAX, 360 * UNIT), 360 * UNIT);
    assert_eq!(share(i64::MIN, u32::MAX, 360 * UNIT), 0);
    // an empty extent has no inside
    assert_eq!(fraction(0, 0), 0);
    assert_eq!(fraction(1, 0), UNIT);
    assert_eq!(fraction(-1, 0), 0);
}

#[test]
fn rounding_of_quotients() {
    assert_eq!(round_div(7, 2), 4);
    assert_eq!(round_div(5, 10), 1);
    assert_eq!(round_div(4, 10), 0);
    assert_eq!(round_div(0, 3), 0);
    assert_eq!(round_div(10, 3), 3);
    assert_eq!(round_div(11, 3), 4);
    assert_eq!(clamp_unit(UNIT + 5), UNIT);
    assert_eq!(clamp_unit(17), 17);
}

#[test]
fn extent_holds_its_edges() {
    let size = Size::new(30, 200);
    assert!(size.contains(Point::new(0, 0)));
    assert!(size.contains(Point::new(30, 200)));
    assert!(!size.contains(Point::new(31, 200)));
    assert!(!size.contains(Point::new(30, 201)));
    assert!(!size.contains(Point::new(-1, 5)));
}

#[test]
fn copy_button_feedback() {
    let mut state = CopyState::Idle;
    assert_eq!(state.tooltip(), "Copy");
    assert!(!state.copies(CopyEvent::Clicked));
    state = state.on(CopyEvent::Clicked);
    assert_eq!(state, CopyState::Idle);
    state = state.on(CopyEvent::HoverEntered);
    assert_eq!(state, CopyState::Hovering);
    assert_eq!(state.tooltip(), "Copy");
    assert!(state.copies(CopyEvent::Clicked));
    assert!(!state.copies(CopyEvent::HoverEntered));
    state = state.on(CopyEvent::Clicked);
    assert_eq!(state, CopyState::Copied);
    assert_eq!(state.tooltip(), "Copied!");
    assert_eq!(state.on(CopyEvent::HoverEntered), CopyState::Copied);
    assert_eq!(state.on(CopyEvent::Clicked), CopyState::Copied);
    assert_eq!(state.on(CopyEvent::TimedOut), CopyState::Idle);
    assert_eq!(state.on(CopyEvent::HoverLeft), CopyState::Idle);
    assert_eq!(CopyState::Hovering.on(CopyEvent::TimedOut), CopyState::Hovering);
    assert_eq!(CopyState::Hovering.on(CopyEvent::HoverLeft), CopyState::Idle);
}

#[test]
fn keys_and_labels() {
    let mut data = Data::default();
    assert!(!data.key_pressed(Key::Tab));
    assert_eq!(data.output, Output::Ori);
    assert!(!data.key_pressed(Key::Tab));
    assert_eq!(data.output, Output::Css);
    assert!(!data.key_pressed(Key::Other));
    assert!(data.key_pressed(Key::Escape));
    assert_eq!(data, Data::default());
    assert_eq!(Theme::Light.icon(), "sun");
    assert_eq!(Theme::Dark.icon(), "moon");
    assert_eq!(Output::Css.label(), "css");
    assert_eq!(Output::Ori.label(), "ori");
}

#[test]
fn a_colour_from_outside_moves_the_hue() {
    let mut data = Data::default();
    data.set_color(Color::rgb(0, UNIT, 0));
    assert_eq!(data.hue, 120 * UNIT);
    assert_eq!(data.color, Color::rgb(0, UNIT, 0));
    // a grey has no hue: the stored one stays
    data.set_color(Color::rgb(5, 5, 5));
    assert_eq!(data.hue, 120 * UNIT);
    assert_eq!(data.color, Color::rgb(5, 5, 5));
    assert_eq!(data.paste("#0000ff"), Ok(()));
    assert_eq!(data.hue, 240 * UNIT);
    assert_eq!(data.color, Color::rgb(0, 0, UNIT));
    let before = data;
    assert_eq!(data.paste("0000ff"), Err(ParseError::InvalidFormat));
    assert_eq!(data.paste("#0000fg"), Err(ParseError::InvalidFormat));
    assert_eq!(data.paste("#00f"), Err(ParseError::InvalidFormat));
    assert_eq!(data, before);
    assert!(Color::rgb(7, 7, 7).is_grey());
    assert!(!Color::rgb(7, 7, 8).is_grey());
}

#[test]
fn fitting_an_extent_into_a_space() {
    let space = Space { min: Size::new(10, 20), max: Size::new(100, 200) };
    assert_eq!(space.fit(Size::new(50, 50)), Size::new(50, 50));
    assert_eq!(space.fit(Size::new(5, 500)), Size::new(10, 200));
    assert_eq!(space.fit(Size::new(500, 5)), Size::new(100, 20));
    // where the least exceeds the greatest, the least wins
    let odd = Space { min: Size::new(50, 50), max: Size::new(40, 40) };
    assert_eq!(odd.fit(Size::new(45, 0)), Size::new(50, 50));
}
