//! The two picker widgets: the hue strip and the saturation/value plane.
//!
//! Each widget is idle or dragging. A press inside the widget starts a drag
//! and commits a colour at once; while the drag lasts every move commits
//! again, wherever the pointer is, with the position pinned to the widget's
//! edges; a release ends the drag. The host delivers the events, performs
//! the requests that come back, and draws what `draw` describes.

use vstd::prelude::*;
use ori::graphics::ImageData;
use crate::color::{hsv_of, rgb_of_hsv, Color, Rgb, FULL_TURN};
use crate::data::Data;
use crate::fixed::{clamp, div_round, lemma_div_round_range, min2, round_div, UNIT};
use crate::geometry::{fraction, fraction_of, share, share_of, Point, Size, Space};
use crate::gradient::{
    hue_strip_pixels, image_pixels, image_size, new_image, plane_pixels, plane_pixels_for,
    strip_pixels, SIDE,
};

verus! {

/// What the host reports to a widget. Positions are relative to the top left
/// corner of the widget.
#[derive(Clone, Copy, Debug, PartialEq, Eq, Structural)]
pub enum Event {
    PointerPressed(Point),
    PointerMoved(Point),
    PointerReleased,
}

/// What a widget asks of the host after an event: to recompute what depends
/// on the data, and to draw again.
#[derive(Clone, Copy, Debug, PartialEq, Eq, Structural)]
pub struct Requests {
    pub rebuild: bool,
    pub draw: bool,
}

/// An outlined rectangle of the overlay, given by its centre and its extent.
#[derive(Clone, Copy, Debug, PartialEq, Eq, Structural)]
pub struct Quad {
    pub center: Point,
    pub size: Size,
    pub border: Color,
}

/// The position at which an event commits a colour, if it commits one: a
/// press commits where it lies within the widget, a move where a drag is
/// under way, a release never.
pub open spec fn commit_position(event: Event, clicked: bool, size: Size) -> Option<Point> {
    match event {
        Event::PointerPressed(p) => if size.holds(p) {
            Some(p)
        } else {
            None
        },
        Event::PointerMoved(p) => if clicked {
            Some(p)
        } else {
            None
        },
        Event::PointerReleased => None,
    }
}

/// Whether a drag is under way after an event.
pub open spec fn clicked_after(event: Event, clicked: bool, size: Size) -> bool {
    match event {
        Event::PointerPressed(p) => clicked || size.holds(p),
        Event::PointerMoved(_) => clicked,
        Event::PointerReleased => false,
    }
}

/// The requests that follow an event: both where it commits, none otherwise.
pub open spec fn requests_after(event: Event, clicked: bool, size: Size) -> Requests {
    let commits = commit_position(event, clicked, size) is Some;
    Requests { rebuild: commits, draw: commits }
}

/// The hue that a position on the strip selects: its share of a full turn
/// along the height, from 0 at the top to a full turn at the bottom.
pub open spec fn strip_hue_at(y: int, height: int) -> int {
    share_of(y, height, FULL_TURN as int)
}

/// A colour with its hue replaced and its saturation and value kept.
pub open spec fn with_hue(c: Rgb, hue: int) -> Rgb {
    let (_, s, v) = hsv_of(c);
    rgb_of_hsv(hue, s, v)
}

/// The colour that a pair of fractions selects on the plane of a hue: the
/// saturation grows to the right and the value falls downwards.
pub open spec fn plane_color_at(hue: int, u: int, v: int) -> Rgb {
    rgb_of_hsv(hue, clamp(u, 0, UNIT as int), UNIT - clamp(v, 0, UNIT as int))
}

/// The row of the strip that marks a hue: the hue's share of a full turn,
/// times the height, rounded to the nearest pixel.
pub open spec fn strip_mark(hue: int, height: int) -> int {
    div_round(clamp(hue, 0, FULL_TURN as int) * height, FULL_TURN as int)
}

/// Where on a plane of the given extent the marker of a colour lies: at the
/// saturation from the left and at one minus the value from the top, each
/// rounded to the nearest pixel.
pub open spec fn plane_mark(c: Rgb, size: Size) -> Point {
    let (_, s, v) = hsv_of(c);
    Point {
        x: div_round(s * size.width, UNIT as int) as i64,
        y: div_round((UNIT - v) * size.height, UNIT as int) as i64,
    }
}

/// An extent grown by `by` pixels each way, as far as the type admits.
pub open spec fn grown(size: Size, by: int) -> Size {
    Size {
        width: min2(size.width + by, u32::MAX as int) as u32,
        height: min2(size.height + by, u32::MAX as int) as u32,
    }
}

/// White, as a value.
pub open spec fn white() -> Rgb {
    Rgb { r: UNIT as int, g: UNIT as int, b: UNIT as int }
}

/// Black, as a value.
pub open spec fn black() -> Rgb {
    Rgb { r: 0, g: 0, b: 0 }
}

/// A white outline of extent `inner` with a black outline two pixels larger
/// around it, both centred at `center`.
pub open spec fn two_tone(quads: Seq<Quad>, center: Point, inner: Size) -> bool {
    &&& quads.len() == 2
    &&& quads[0].center == center
    &&& quads[0].size == inner
    &&& quads[0].border@ == white()
    &&& quads[1].center == center
    &&& quads[1].size == grown(inner, 2)
    &&& quads[1].border@ == black()
}

/// A new hue leaves a grey as it is: a colour without saturation, black
/// among them, has no hue to show.
pub proof fn lemma_hue_of_grey_is_free(c: Rgb, hue: int)
    requires
        c.valid(),
        c.chroma() == 0,
    ensures
        with_hue(c, hue) == c,
{
    crate::theorems::lemma_unsaturated_iff_grey(c);
    crate::theorems::lemma_unsaturated_is_grey(hue, c.max());
}

/// A position is pinned to the widget: one before the start selects 0, one
/// at or after the end selects the whole, and every other one a share in
/// between.
pub proof fn lemma_share_is_pinned(pos: int, extent: int, whole: int)
    requires
        0 <= whole,
    ensures
        0 <= share_of(pos, extent, whole) <= whole,
        pos <= 0 ==> share_of(pos, extent, whole) == 0,
        pos >= extent && pos > 0 ==> share_of(pos, extent, whole) == whole,
{
    if 0 < pos < extent {
        assert(0 <= pos * whole <= whole * extent) by (nonlinear_arith)
            requires
                0 <= pos <= extent,
                0 <= whole,
        ;
        lemma_div_round_range(pos * whole, extent, whole);
    }
}

/// The hue strip.
#[derive(Clone, Copy, Debug)]
pub struct OnePicker;

/// What the hue strip keeps between events: its image and whether a drag is
/// under way.
#[derive(Debug)]
pub struct OnePickerState {
    pub image: ImageData,
    pub clicked: bool,
}

/// The saturation/value plane of one hue.
#[derive(Clone, Copy, Debug)]
pub struct TwoPicker {
    pub hue: u32,
}

/// What the plane keeps between events: its image and whether a drag is
/// under way.
#[derive(Debug)]
pub struct TwoPickerState {
    pub image: ImageData,
    pub clicked: bool,
}

impl OnePicker {
    /// The colour of a hue at full saturation and value.
    pub fn get_color(hue: u32) -> (res: Color)
        ensures
            res@ == rgb_of_hsv(hue as int, UNIT as int, UNIT as int),
    {
        Color::from_hsv(hue, UNIT, UNIT)
    }

    /// The image of the strip: one pixel wide, 256 high, from hue 0 at the
    /// top to a full turn at the bottom.
    pub fn create_image() -> (res: ImageData)
        ensures
            image_size(res) == (1int, SIDE as int),
            image_pixels(res) == strip_pixels(),
    {
        new_image(1, SIDE, hue_strip_pixels())
    }

    /// The state of a new strip: its image, and no drag.
    pub fn build(&self) -> (res: OnePickerState)
        ensures
            !res.clicked,
            image_size(res.image) == (1int, SIDE as int),
            image_pixels(res.image) == strip_pixels(),
    {
        OnePickerState { image: Self::create_image(), clicked: false }
    }

    /// Handles one event on a strip of the given extent.
    ///
    /// Where the event commits, the colour keeps its saturation and value
    /// and takes the hue at the pointer, which is also stored in the data.
    pub fn event(&self, state: &mut OnePickerState, data: &mut Data, event: &Event, size: Size) -> (res:
        Requests)
        ensures
            final(state).clicked == clicked_after(*event, old(state).clicked, size),
            final(state).image == old(state).image,
            res == requests_after(*event, old(state).clicked, size),
            final(data).theme == old(data).theme,
            final(data).output == old(data).output,
            match commit_position(*event, old(state).clicked, size) {
                Some(p) => {
                    &&& final(data).hue == strip_hue_at(p.y as int, size.height as int)
                    &&& final(data).color@ == with_hue(old(data).color@, final(data).hue as int)
                },
                None => *final(data) == *old(data),
            },
            *event is PointerMoved && !old(state).clicked ==> {
                &&& *final(data) == *old(data)
                &&& !final(state).clicked
                &&& res == (Requests { rebuild: false, draw: false })
            },
    {
        match *event {
            Event::PointerPressed(p) => {
                if !size.contains(p) {
                    return Requests { rebuild: false, draw: false };
                }
                Self::commit(data, p, size);
                state.clicked = true;
                Requests { rebuild: true, draw: true }
            },
            Event::PointerMoved(p) => {
                if !state.clicked {
                    return Requests { rebuild: false, draw: false };
                }
                Self::commit(data, p, size);
                Requests { rebuild: true, draw: true }
            },
            Event::PointerReleased => {
                state.clicked = false;
                Requests { rebuild: false, draw: false }
            },
        }
    }

    /// Commits the hue at `p`.
    fn commit(data: &mut Data, p: Point, size: Size)
        ensures
            final(data).hue == strip_hue_at(p.y as int, size.height as int),
            final(data).color@ == with_hue(old(data).color@, final(data).hue as int),
            final(data).theme == old(data).theme,
            final(data).output == old(data).output,
    {
        let hue: u32 = share(p.y, size.height, FULL_TURN);
        let (_, s, v) = data.color.to_hsv();
        data.color = Color::from_hsv(hue, s, v);
        data.hue = hue;
    }

    /// Nothing of the strip depends on the data: its image is made once.
    pub fn rebuild(&self, state: &mut OnePickerState, old_view: &OnePicker)
        ensures
            final(state).image == old(state).image,
            final(state).clicked == old(state).clicked,
    {
    }

    /// The extent of the strip: 30 pixels wide and as high as the space
    /// admits.
    pub fn layout(&self, space: Space) -> (res: Size)
        ensures
            res == space.fitted(Size { width: 30, height: space.max.height }),
    {
        space.fit(Size::new(30, space.max.height))
    }

    /// The overlay of the strip: a bar four pixels high and four pixels wider
    /// than the strip, centred on the row of the stored hue, outlined in
    /// white and, two pixels larger, in black.
    pub fn draw(&self, state: &OnePickerState, data: &Data, size: Size) -> (res: [Quad; 2])
        ensures
            two_tone(
                res@,
                Point {
                    x: div_round(size.width as int, 2) as i64,
                    y: strip_mark(data.hue as int, size.height as int) as i64,
                },
                grown(Size { width: size.width, height: 0 }, 4),
            ),
    {
        let hue: u32 = if data.hue > FULL_TURN {
            FULL_TURN
        } else {
            data.hue
        };
        proof {
            assert(0 <= hue * size.height <= size.height * FULL_TURN) by (nonlinear_arith)
                requires
                    0 <= hue <= FULL_TURN,
                    0 <= size.height,
            ;
            lemma_div_round_range(hue * size.height, FULL_TURN as int, size.height as int);
            assert(0 <= size.height * FULL_TURN <= 0x1_0000_0000 * FULL_TURN) by (nonlinear_arith)
                requires
                    0 <= size.height < 0x1_0000_0000,
            ;
            lemma_div_round_range(size.width as int, 2, size.width as int);
        }
        let y: u128 = round_div(hue as u128 * size.height as u128, FULL_TURN as u128);
        let x: u128 = round_div(size.width as u128, 2);
        let center = Point { x: x as i64, y: y as i64 };
        let inner = Size { width: size.width.saturating_add(4), height: 4 };
        outline(center, inner)
    }
}

impl TwoPicker {
    /// The colour that a pair of fractions selects on this plane: `uv.x` is
    /// the saturation and `1 - uv.y` the value, each limited to the range
    /// from 0 to 1.
    pub fn get_color(&self, uv: Point) -> (res: Color)
        ensures
            res@ == plane_color_at(self.hue as int, uv.x as int, uv.y as int),
    {
        let u: u32 = unit_of(uv.x);
        let v: u32 = unit_of(uv.y);
        Color::from_hsv(self.hue, u, UNIT - v)
    }

    /// The image of the plane for this hue: 256 by 256 pixels, the
    /// saturation growing to the right and the value falling downwards.
    pub fn create_image(&self) -> (res: ImageData)
        ensures
            image_size(res) == (SIDE as int, SIDE as int),
            image_pixels(res) == plane_pixels(self.hue as int),
    {
        new_image(SIDE, SIDE, plane_pixels_for(self.hue))
    }

    /// The state of a new plane: its image, and no drag.
    pub fn build(&self) -> (res: TwoPickerState)
        ensures
            !res.clicked,
            image_size(res.image) == (SIDE as int, SIDE as int),
            image_pixels(res.image) == plane_pixels(self.hue as int),
    {
        TwoPickerState { image: self.create_image(), clicked: false }
    }

    /// Makes the image anew where the hue differs from that of the view
    /// before, and only then.
    pub fn rebuild(&self, state: &mut TwoPickerState, old_view: &TwoPicker)
        ensures
            final(state).clicked == old(state).clicked,
            self.hue == old_view.hue ==> final(state).image == old(state).image,
            self.hue != old_view.hue ==> {
                &&& image_size(final(state).image) == (SIDE as int, SIDE as int)
                &&& image_pixels(final(state).image) == plane_pixels(self.hue as int)
            },
    {
        if self.hue != old_view.hue {
            state.image = self.create_image();
        }
    }

    /// Handles one event on a plane of the given extent.
    ///
    /// Where the event commits, the colour becomes the one that the plane
    /// shows under the pointer; the stored hue stays.
    pub fn event(&self, state: &mut TwoPickerState, data: &mut Data, event: &Event, size: Size) -> (res:
        Requests)
        ensures
            final(state).clicked == clicked_after(*event, old(state).clicked, size),
            final(state).image == old(state).image,
            res == requests_after(*event, old(state).clicked, size),
            final(data).hue == old(data).hue,
            final(data).theme == old(data).theme,
            final(data).output == old(data).output,
            match commit_position(*event, old(state).clicked, size) {
                Some(p) => final(data).color@ == plane_color_at(
                    self.hue as int,
                    fraction_of(p.x as int, size.width as int),
                    fraction_of(p.y as int, size.height as int),
                ),
                None => *final(data) == *old(data),
            },
            *event is PointerMoved && !old(state).clicked ==> {
                &&& *final(data) == *old(data)
                &&& !final(state).clicked
                &&& res == (Requests { rebuild: false, draw: false })
            },
    {
        match *event {
            Event::PointerPressed(p) => {
                if !size.contains(p) {
                    return Requests { rebuild: false, draw: false };
                }
                data.color = self.get_color(normalized(p, size));
                state.clicked = true;
                Requests { rebuild: true, draw: true }
            },
            Event::PointerMoved(p) => {
                if !state.clicked {
                    return Requests { rebuild: false, draw: false };
                }
                data.color = self.get_color(normalized(p, size));
                Requests { rebuild: true, draw: true }
            },
            Event::PointerReleased => {
                state.clicked = false;
                Requests { rebuild: false, draw: false }
            },
        }
    }

    /// The extent of the plane: all that the space admits.
    pub fn layout(&self, space: Space) -> (res: Size)
        ensures
            res == space.max,
    {
        space.max
    }

    /// The overlay of the plane: a square of six pixels centred on the place
    /// of the colour, outlined in white and, two pixels larger, in black.
    pub fn draw(&self, state: &TwoPickerState, data: &Data, size: Size) -> (res: [Quad; 2])
        ensures
            two_tone(res@, plane_mark(data.color@, size), Size { width: 6, height: 6 }),
    {
        let (_, s, v) = data.color.to_hsv();
        proof {
            assert(0 <= s * size.width <= size.width * UNIT) by (nonlinear_arith)
                requires
                    0 <= s <= UNIT,
                    0 <= size.width,
            ;
            lemma_div_round_range(s * size.width, UNIT as int, size.width as int);
            assert(0 <= (UNIT - v) * size.height <= size.height * UNIT) by (nonlinear_arith)
                requires
                    0 <= UNIT - v <= UNIT,
                    0 <= size.height,
            ;
            lemma_div_round_range((UNIT - v) * size.height, UNIT as int, size.height as int);
            assert(size.width * UNIT <= 0x1_0000_0000 * UNIT) by (nonlinear_arith)
                requires
                    0 <= size.width < 0x1_0000_0000,
            ;
            assert(size.height * UNIT <= 0x1_0000_0000 * UNIT) by (nonlinear_arith)
                requires
                    0 <= size.height < 0x1_0000_0000,
            ;
        }
        let x: u128 = round_div(s as u128 * size.width as u128, UNIT as u128);
        let y: u128 = round_div((UNIT - v) as u128 * size.height as u128, UNIT as u128);
        outline(Point { x: x as i64, y: y as i64 }, Size { width: 6, height: 6 })
    }
}

/// A fraction limited to the range from 0 to 1.
fn unit_of(x: i64) -> (res: u32)
    ensures
        res == clamp(x as int, 0, UNIT as int),
{
    if x <= 0 {
        0
    } else if x >= UNIT as i64 {
        UNIT
    } else {
        x as u32
    }
}

/// The fractions of a widget's extent that a position marks.
fn normalized(p: Point, size: Size) -> (res: Point)
    ensures
        res.x == fraction_of(p.x as int, size.width as int),
        res.y == fraction_of(p.y as int, size.height as int),
{
    Point { x: fraction(p.x, size.width) as i64, y: fraction(p.y, size.height) as i64 }
}

/// The two outlines of an overlay.
fn outline(center: Point, inner: Size) -> (res: [Quad; 2])
    ensures
        two_tone(res@, center, inner),
{
    let outer = Size {
        width: inner.width.saturating_add(2),
        height: inner.height.saturating_add(2),
    };
    [
        Quad { center, size: inner, border: Color::white() },
        Quad { center, size: outer, border: Color::black() },
    ]
}

} // verus!
