//! The raster backgrounds of the two pickers: the hue strip, one pixel wide
//! and 256 high, and the saturation/value plane of 256 by 256 pixels, both
//! as RGBA bytes, row by row.

use vstd::prelude::*;
use ori::graphics::ImageData;
use crate::color::{rgb_of_hsv, rgba8_of, Color, Rgb, FULL_TURN};
use crate::fixed::{div_round, lemma_div_round_range, round_div, UNIT};

verus! {

/// The number of pixels along the hue strip and along each side of the plane.
pub const SIDE: u32 = 256;

/// `ori::graphics::ImageData`: a raster image, held by the outside crate.
#[verifier::external_type_specification]
#[verifier::external_body]
pub struct ExImageData(ImageData);

/// The bytes that an image holds, row by row.
pub uninterp spec fn image_pixels(image: ImageData) -> Seq<u8>;

/// The width and the height that an image was made with, in pixels.
pub uninterp spec fn image_size(image: ImageData) -> (int, int);

/// The fraction in millionths that step `i` of 255 stands for.
pub open spec fn step_fraction(i: int) -> int {
    div_round(i * UNIT, 255)
}

/// The hue of pixel `i` of the strip: `i / 255` of a full turn.
pub open spec fn strip_hue(i: int) -> int {
    div_round(i * FULL_TURN, 255)
}

/// The colour of pixel `i` of the strip: its hue at full saturation and
/// value.
pub open spec fn strip_color(i: int) -> Rgb {
    rgb_of_hsv(strip_hue(i), UNIT as int, UNIT as int)
}

/// The bytes of the hue strip: pixel `i` is at bytes `4 * i` to `4 * i + 3`.
pub open spec fn strip_pixels() -> Seq<u8> {
    Seq::new(4 * SIDE as nat, |k: int| rgba8_of(strip_color(k / 4))[k % 4])
}

/// The colour of the pixel in column `i` and row `j` of the plane for a hue:
/// saturation `i / 255` and value `1 - j / 255`.
pub open spec fn plane_color(hue: int, i: int, j: int) -> Rgb {
    rgb_of_hsv(hue, step_fraction(i), UNIT - step_fraction(j))
}

/// The bytes of the plane for a hue, row by row: the pixel in column `i` and
/// row `j` is at bytes `4 * (256 * j + i)` to `4 * (256 * j + i) + 3`.
pub open spec fn plane_pixels(hue: int) -> Seq<u8> {
    Seq::new(
        4 * SIDE as nat * SIDE as nat,
        |k: int| rgba8_of(plane_color(hue, (k / 4) % (SIDE as int), (k / 4) / (SIDE as int)))[k % 4],
    )
}

/// `ImageData::new`: the image that holds exactly the given width, height
/// and bytes. The outside function stores its three arguments and checks
/// nothing.
#[verifier::external_body]
pub(crate) fn new_image(width: u32, height: u32, pixels: Vec<u8>) -> (res: ImageData)
    ensures
        image_size(res) == (width as int, height as int),
        image_pixels(res) == pixels@,
{
    ImageData::new(width, height, pixels)
}

/// The strip begins and ends in pure red: its last pixel has the hue of a
/// full turn, which is the hue of the first.
pub proof fn lemma_strip_ends_red()
    ensures
        strip_color(0) == (Rgb { r: UNIT as int, g: 0, b: 0 }),
        strip_color(255) == (Rgb { r: UNIT as int, g: 0, b: 0 }),
{
    assert(0 * FULL_TURN == 0 * 255);
    assert(255 * FULL_TURN == FULL_TURN * 255);
    crate::fixed::lemma_div_round_exact(0, 255);
    crate::fixed::lemma_div_round_exact(FULL_TURN as int, 255);
    crate::theorems::lemma_red_at_both_ends();
}

/// The fraction that step `i` of 255 stands for.
fn step(i: u32) -> (res: u32)
    requires
        i <= 255,
    ensures
        res == step_fraction(i as int),
        res <= UNIT,
{
    proof {
        assert(UNIT * 255 == 255 * UNIT);
        lemma_div_round_range(i * UNIT, 255, UNIT as int);
    }
    let q: u128 = round_div(i as u128 * UNIT as u128, 255);
    q as u32
}

/// Appends the four bytes of a pixel.
fn push_pixel(pixels: &mut Vec<u8>, color: Color)
    ensures
        final(pixels)@ == old(pixels)@ + rgba8_of(color@),
{
    let bytes = color.to_rgba8();
    pixels.push(bytes[0]);
    pixels.push(bytes[1]);
    pixels.push(bytes[2]);
    pixels.push(bytes[3]);
    assert(final(pixels)@ =~= old(pixels)@ + rgba8_of(color@));
}

/// The bytes of the hue strip.
pub fn hue_strip_pixels() -> (res: Vec<u8>)
    ensures
        res@ == strip_pixels(),
{
    let mut pixels: Vec<u8> = Vec::new();
    let mut i: u32 = 0;
    while i < SIDE
        invariant
            i <= SIDE,
            pixels@.len() == 4 * i,
            forall|k: int| 0 <= k < 4 * i ==> pixels@[k] == rgba8_of(strip_color(k / 4))[k % 4],
        decreases SIDE - i,
    {
        proof {
            assert(FULL_TURN * 255 == 255 * FULL_TURN);
            lemma_div_round_range(i * FULL_TURN, 255, FULL_TURN as int);
        }
        let hue: u128 = round_div(i as u128 * FULL_TURN as u128, 255);
        let color = Color::from_hsv(hue as u32, UNIT, UNIT);
        let ghost before = pixels@;
        push_pixel(&mut pixels, color);
        assert forall|k: int| 0 <= k < 4 * (i + 1) implies pixels@[k] == rgba8_of(
            strip_color(k / 4),
        )[k % 4] by {
            if k >= 4 * i {
                assert(k / 4 == i);
                assert(pixels@[k] == rgba8_of(color@)[k - 4 * i]);
            } else {
                assert(pixels@[k] == before[k]);
            }
        }
        i = i + 1;
    }
    assert(pixels@ =~= strip_pixels());
    pixels
}

/// The bytes of the saturation/value plane for the given hue.
pub fn plane_pixels_for(hue: u32) -> (res: Vec<u8>)
    ensures
        res@ == plane_pixels(hue as int),
{
    let mut pixels: Vec<u8> = Vec::new();
    let mut j: u32 = 0;
    while j < SIDE
        invariant
            j <= SIDE,
            pixels@.len() == 4 * (SIDE * j),
            forall|k: int|
                0 <= k < 4 * (SIDE * j) ==> pixels@[k] == #[trigger] plane_pixels(hue as int)[k],
        decreases SIDE - j,
    {
        let value: u32 = UNIT - step(j);
        let mut i: u32 = 0;
        while i < SIDE
            invariant
                i <= SIDE,
                j < SIDE,
                value == UNIT - step_fraction(j as int),
                pixels@.len() == 4 * (SIDE * j + i),
                forall|k: int|
                    0 <= k < 4 * (SIDE * j + i) ==> pixels@[k] == #[trigger] plane_pixels(
                        hue as int,
                    )[k],
            decreases SIDE - i,
        {
            let color = Color::from_hsv(hue, step(i), value);
            let ghost before = pixels@;
            push_pixel(&mut pixels, color);
            assert forall|k: int| 0 <= k < 4 * (SIDE * j + i + 1) implies pixels@[k]
                == #[trigger] plane_pixels(hue as int)[k] by {
                if k >= 4 * (SIDE * j + i) {
                    assert(k / 4 == SIDE * j + i);
                    assert((k / 4) % (SIDE as int) == i);
                    assert((k / 4) / (SIDE as int) == j);
                    assert(pixels@[k] == rgba8_of(color@)[k - 4 * (SIDE * j + i)]);
                } else {
                    assert(pixels@[k] == before[k]);
                }
            }
            i = i + 1;
        }
        j = j + 1;
    }
    assert(pixels@ =~= plane_pixels(hue as int));
    pixels
}

} // verus!
