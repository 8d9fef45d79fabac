//! The colour model: one stored form (red, green and blue) and the forms
//! derived from it on demand (HSV, HSL, 8-bit RGB).
//!
//! A colour is a triple of fixed-point channels between 0 and `UNIT`. A hue is
//! an angle in millionths of a degree, a saturation, value or lightness a
//! fraction in millionths. Every conversion is defined on mathematical
//! integers (`Rgb`, `hsv_of`, `rgb_of_hsv`, ...) and the executable functions
//! are proved to compute exactly those definitions.

use vstd::prelude::*;
use crate::fixed::{
    clamp, clamp_unit, div_round, lemma_div_round_range, lemma_div_round_shift, max2, min2,
    round_div, UNIT,
};

verus! {

/// A full turn of hue: 360 degrees in millionths of a degree.
pub const FULL_TURN: u32 = 360_000_000;

/// A sixth of a turn: 60 degrees in millionths of a degree.
pub const SEXTANT: u32 = 60_000_000;

/// The mathematical value of a colour: three channels in millionths.
pub struct Rgb {
    pub r: int,
    pub g: int,
    pub b: int,
}

impl Rgb {
    /// Every channel lies between 0 and 1.
    pub open spec fn valid(self) -> bool {
        &&& 0 <= self.r <= UNIT
        &&& 0 <= self.g <= UNIT
        &&& 0 <= self.b <= UNIT
    }

    /// The largest channel.
    pub open spec fn max(self) -> int {
        max2(self.r, max2(self.g, self.b))
    }

    /// The smallest channel.
    pub open spec fn min(self) -> int {
        min2(self.r, min2(self.g, self.b))
    }

    /// The spread between the largest and the smallest channel.
    pub open spec fn chroma(self) -> int {
        self.max() - self.min()
    }

    /// Each channel of `self` is within `eps` of the same channel of `other`.
    pub open spec fn within(self, other: Rgb, eps: int) -> bool {
        &&& -eps <= self.r - other.r <= eps
        &&& -eps <= self.g - other.g <= eps
        &&& -eps <= self.b - other.b <= eps
    }
}

/// The hue of a colour in millionths of a degree, in `[0, FULL_TURN)`.
///
/// The hue of a grey is 0. Otherwise the largest channel (red before green
/// before blue) fixes a third of the circle and the other two channels fix the
/// place within it: `60° * (6 + (g - b) / chroma)` where red is largest,
/// `60° * (2 + (b - r) / chroma)` for green, `60° * (4 + (r - g) / chroma)` for
/// blue, rounded to the nearest millionth and taken modulo a full turn.
pub open spec fn hue_of(c: Rgb) -> int {
    let d = c.chroma();
    if d == 0 {
        0
    } else if c.r == c.max() {
        div_round(SEXTANT * (6 * d + c.g - c.b), d) % (FULL_TURN as int)
    } else if c.g == c.max() {
        div_round(SEXTANT * (2 * d + c.b - c.r), d) % (FULL_TURN as int)
    } else {
        div_round(SEXTANT * (4 * d + c.r - c.g), d) % (FULL_TURN as int)
    }
}

/// Hue, saturation and value of a colour.
///
/// The value is the largest channel, the saturation is `chroma / value`
/// rounded to the nearest millionth, and 0 for black.
pub open spec fn hsv_of(c: Rgb) -> (int, int, int) {
    let s = if c.max() == 0 {
        0
    } else {
        div_round(c.chroma() * UNIT, c.max())
    };
    (hue_of(c), s, c.max())
}

/// How far a channel lies below the value at hue `h`, as a share of the
/// chroma, in sixtieths of a millionth: 0 where the channel is the largest,
/// `SEXTANT` where it is the smallest, linear in the hue in between.
///
/// `n` is 5 for red, 3 for green and 1 for blue.
pub open spec fn hsv_wedge(n: int, h: int) -> int {
    let k = (n * SEXTANT + h) % (FULL_TURN as int);
    clamp(min2(k, 4 * SEXTANT - k), 0, SEXTANT as int)
}

/// One channel of the colour with hue `h`, saturation `s` and value `v`:
/// `v - v * s * wedge`, rounded to the nearest millionth.
pub open spec fn hsv_channel(n: int, h: int, s: int, v: int) -> int {
    v - div_round(v * s * hsv_wedge(n, h), SEXTANT * UNIT)
}

/// The colour with hue `h`, saturation `s` and value `v`.
///
/// A hue above a full turn counts as a full turn, which is red again; a
/// saturation or value above 1 counts as 1.
pub open spec fn rgb_of_hsv(h: int, s: int, v: int) -> Rgb {
    let h = clamp(h, 0, FULL_TURN as int);
    let s = clamp(s, 0, UNIT as int);
    let v = clamp(v, 0, UNIT as int);
    Rgb { r: hsv_channel(5, h, s, v), g: hsv_channel(3, h, s, v), b: hsv_channel(1, h, s, v) }
}

/// Hue, saturation and lightness of a colour.
///
/// The lightness is the mean of the largest and the smallest channel. The
/// saturation is the chroma over the largest chroma that this lightness
/// admits, `1 - |max + min - 1|`, and 0 for a grey. Both are rounded to the
/// nearest millionth.
pub open spec fn hsl_of(c: Rgb) -> (int, int, int) {
    let sum = c.max() + c.min();
    let s = if c.chroma() == 0 {
        0
    } else {
        div_round(c.chroma() * UNIT, min2(sum, 2 * UNIT - sum))
    };
    (hue_of(c), s, div_round(sum, 2))
}

/// One channel of the colour with hue `h`, saturation `s` and lightness `l`:
/// `l + s * min(l, 1 - l) * (1 - 2 * wedge)`, rounded to the nearest
/// millionth.
pub open spec fn hsl_channel(n: int, h: int, s: int, l: int) -> int {
    l + div_round(
        s * min2(l, UNIT - l) * (SEXTANT - 2 * hsv_wedge(n, h)),
        SEXTANT * UNIT,
    )
}

/// The colour with hue `h`, saturation `s` and lightness `l`.
///
/// A hue above a full turn counts as a full turn, which is red again; a
/// saturation or lightness above 1 counts as 1.
pub open spec fn rgb_of_hsl(h: int, s: int, l: int) -> Rgb {
    let h = clamp(h, 0, FULL_TURN as int);
    let s = clamp(s, 0, UNIT as int);
    let l = clamp(l, 0, UNIT as int);
    Rgb { r: hsl_channel(5, h, s, l), g: hsl_channel(3, h, s, l), b: hsl_channel(1, h, s, l) }
}

/// A channel as a byte: `c * 255` rounded to the nearest integer.
pub open spec fn byte_of_channel(c: int) -> int {
    div_round(c * 255, UNIT as int)
}

/// A byte as a channel: `b / 255` rounded to the nearest millionth.
pub open spec fn channel_of_byte(b: int) -> int {
    div_round(b * UNIT, 255)
}

/// Red, green and blue as bytes.
pub open spec fn rgb8_of(c: Rgb) -> Seq<u8> {
    seq![byte_of_channel(c.r) as u8, byte_of_channel(c.g) as u8, byte_of_channel(c.b) as u8]
}

/// Red, green, blue and an opaque alpha as bytes.
pub open spec fn rgba8_of(c: Rgb) -> Seq<u8> {
    rgb8_of(c).push(255u8)
}

/// A colour: red, green and blue, each between 0 and `UNIT`.
#[derive(Clone, Copy, Debug, PartialEq, Eq, Structural)]
pub struct Color {
    r: u32,
    g: u32,
    b: u32,
}

impl View for Color {
    type V = Rgb;

    closed spec fn view(&self) -> Rgb {
        Rgb { r: self.r as int, g: self.g as int, b: self.b as int }
    }
}

impl Color {
    /// The invariant of the type: no channel exceeds `UNIT`.
    #[verifier::type_invariant]
    pub closed spec fn inv(self) -> bool {
        self.r <= UNIT && self.g <= UNIT && self.b <= UNIT
    }

    /// A colour that satisfies the invariant has a valid value.
    pub proof fn lemma_inv_valid(self)
        requires
            self.inv(),
        ensures
            self@.valid(),
    {
    }

    /// The colour with the given channels, each limited to `UNIT`.
    pub fn rgb(r: u32, g: u32, b: u32) -> (res: Color)
        ensures
            res@ == (Rgb {
                r: clamp(r as int, 0, UNIT as int),
                g: clamp(g as int, 0, UNIT as int),
                b: clamp(b as int, 0, UNIT as int),
            }),
            res@.valid(),
    {
        Color { r: clamp_unit(r), g: clamp_unit(g), b: clamp_unit(b) }
    }

    /// Black.
    pub fn black() -> (res: Color)
        ensures
            res@ == (Rgb { r: 0, g: 0, b: 0 }),
    {
        Color { r: 0, g: 0, b: 0 }
    }

    /// White.
    pub fn white() -> (res: Color)
        ensures
            res@ == (Rgb { r: UNIT as int, g: UNIT as int, b: UNIT as int }),
    {
        Color { r: UNIT, g: UNIT, b: UNIT }
    }

    /// The red channel.
    pub fn r(&self) -> (res: u32)
        ensures
            res == self@.r,
            res <= UNIT,
    {
        proof {
            use_type_invariant(self);
        }
        self.r
    }

    /// The green channel.
    pub fn g(&self) -> (res: u32)
        ensures
            res == self@.g,
            res <= UNIT,
    {
        proof {
            use_type_invariant(self);
        }
        self.g
    }

    /// The blue channel.
    pub fn b(&self) -> (res: u32)
        ensures
            res == self@.b,
            res <= UNIT,
    {
        proof {
            use_type_invariant(self);
        }
        self.b
    }

    /// Whether the colour is a grey: its three channels are equal, so that it
    /// has no hue of its own.
    pub fn is_grey(&self) -> (res: bool)
        ensures
            res == (self@.chroma() == 0),
    {
        self.r == self.g && self.g == self.b
    }

    /// Hue in `[0, FULL_TURN)`, saturation and value in `[0, UNIT]`.
    pub fn to_hsv(&self) -> (res: (u32, u32, u32))
        ensures
            (res.0 as int, res.1 as int, res.2 as int) == hsv_of(self@),
            res.0 < FULL_TURN,
            res.1 <= UNIT,
            res.2 <= UNIT,
    {
        proof {
            use_type_invariant(self);
        }
        let max: u32 = max3(self.r, self.g, self.b);
        let min: u32 = min3(self.r, self.g, self.b);
        let h: u32 = hue(self.r, self.g, self.b);
        let s: u32 = if max == 0 {
            0
        } else {
            ratio(max - min, max)
        };
        (h, s, max)
    }

    /// The colour with hue `h`, saturation `s` and value `v`; each argument
    /// above its range counts as the end of the range.
    pub fn from_hsv(h: u32, s: u32, v: u32) -> (res: Color)
        ensures
            res@ == rgb_of_hsv(h as int, s as int, v as int),
            res@.valid(),
    {
        let h: u32 = if h > FULL_TURN {
            FULL_TURN
        } else {
            h
        };
        let s: u32 = clamp_unit(s);
        let v: u32 = clamp_unit(v);
        Color {
            r: channel_from_hsv(5, h, s, v),
            g: channel_from_hsv(3, h, s, v),
            b: channel_from_hsv(1, h, s, v),
        }
    }

    /// Hue in `[0, FULL_TURN)`, saturation and lightness in `[0, UNIT]`.
    pub fn to_hsl(&self) -> (res: (u32, u32, u32))
        ensures
            (res.0 as int, res.1 as int, res.2 as int) == hsl_of(self@),
            res.0 < FULL_TURN,
            res.1 <= UNIT,
            res.2 <= UNIT,
    {
        proof {
            use_type_invariant(self);
        }
        let max: u32 = max3(self.r, self.g, self.b);
        let min: u32 = min3(self.r, self.g, self.b);
        let sum: u32 = max + min;
        let h: u32 = hue(self.r, self.g, self.b);
        let s: u32 = if max == min {
            0
        } else if sum <= UNIT {
            ratio(max - min, sum)
        } else {
            ratio(max - min, 2 * UNIT - sum)
        };
        proof {
            assert(0 * 2 == 0);
            assert(2 * UNIT == UNIT * 2);
            lemma_div_round_range(sum as int, 2, UNIT as int);
        }
        let l: u128 = round_div(sum as u128, 2);
        (h, s, l as u32)
    }

    /// Red, green and blue as bytes: each channel times 255, rounded.
    pub fn to_rgb8(&self) -> (res: [u8; 3])
        ensures
            res@ == rgb8_of(self@),
            0 <= byte_of_channel(self@.r) <= 255,
            0 <= byte_of_channel(self@.g) <= 255,
            0 <= byte_of_channel(self@.b) <= 255,
    {
        proof {
            use_type_invariant(self);
        }
        let res = [channel_to_byte(self.r), channel_to_byte(self.g), channel_to_byte(self.b)];
        assert(res@ =~= rgb8_of(self@));
        res
    }

    /// Red, green, blue and an opaque alpha as bytes.
    pub fn to_rgba8(&self) -> (res: [u8; 4])
        ensures
            res@ == rgba8_of(self@),
            0 <= byte_of_channel(self@.r) <= 255,
            0 <= byte_of_channel(self@.g) <= 255,
            0 <= byte_of_channel(self@.b) <= 255,
    {
        proof {
            use_type_invariant(self);
        }
        let res = [
            channel_to_byte(self.r),
            channel_to_byte(self.g),
            channel_to_byte(self.b),
            255,
        ];
        assert(res@ =~= rgba8_of(self@));
        res
    }

    /// The colour with the given bytes: each channel is its byte over 255,
    /// rounded to the nearest millionth.
    pub fn from_rgb8(r: u8, g: u8, b: u8) -> (res: Color)
        ensures
            res@ == (Rgb {
                r: channel_of_byte(r as int),
                g: channel_of_byte(g as int),
                b: channel_of_byte(b as int),
            }),
            res@.valid(),
    {
        Color { r: byte_to_channel(r), g: byte_to_channel(g), b: byte_to_channel(b) }
    }

    /// The colour with hue `h`, saturation `s` and lightness `l`; each
    /// argument above its range counts as the end of the range.
    pub fn from_hsl(h: u32, s: u32, l: u32) -> (res: Color)
        ensures
            res@ == rgb_of_hsl(h as int, s as int, l as int),
            res@.valid(),
    {
        let h: u32 = if h > FULL_TURN {
            FULL_TURN
        } else {
            h
        };
        let s: u32 = clamp_unit(s);
        let l: u32 = clamp_unit(l);
        Color {
            r: channel_from_hsl(5, h, s, l),
            g: channel_from_hsl(3, h, s, l),
            b: channel_from_hsl(1, h, s, l),
        }
    }
}

/// The largest of three channels.
fn max3(r: u32, g: u32, b: u32) -> (res: u32)
    ensures
        res == (Rgb { r: r as int, g: g as int, b: b as int }).max(),
{
    let m: u32 = if g >= b {
        g
    } else {
        b
    };
    if r >= m {
        r
    } else {
        m
    }
}

/// The smallest of three channels.
fn min3(r: u32, g: u32, b: u32) -> (res: u32)
    ensures
        res == (Rgb { r: r as int, g: g as int, b: b as int }).min(),
{
    let m: u32 = if g <= b {
        g
    } else {
        b
    };
    if r <= m {
        r
    } else {
        m
    }
}

/// `part / whole` as a fraction in millionths.
fn ratio(part: u32, whole: u32) -> (res: u32)
    requires
        part <= whole <= UNIT,
        whole > 0,
    ensures
        res == div_round(part * UNIT, whole as int),
        res <= UNIT,
{
    proof {
        assert(0 <= part * UNIT <= UNIT * whole) by (nonlinear_arith)
            requires
                0 <= part <= whole,
        ;
        lemma_div_round_range(part * UNIT, whole as int, UNIT as int);
    }
    let q: u128 = round_div(part as u128 * UNIT as u128, whole as u128);
    q as u32
}

/// The hue of the colour with the given channels.
fn hue(r: u32, g: u32, b: u32) -> (res: u32)
    requires
        r <= UNIT,
        g <= UNIT,
        b <= UNIT,
    ensures
        res == hue_of(Rgb { r: r as int, g: g as int, b: b as int }),
        res < FULL_TURN,
{
    let max: u32 = max3(r, g, b);
    let min: u32 = min3(r, g, b);
    let d: u32 = max - min;
    if d == 0 {
        return 0;
    }
    let offset: u64 = if r == max {
        6 * d as u64 + g as u64 - b as u64
    } else if g == max {
        2 * d as u64 + b as u64 - r as u64
    } else {
        4 * d as u64 + r as u64 - g as u64
    };
    assert(offset <= 7 * UNIT);
    assert(SEXTANT * offset <= SEXTANT * (7 * UNIT)) by (nonlinear_arith)
        requires
            offset <= 7 * UNIT,
    ;
    let q: u128 = round_div(SEXTANT as u128 * offset as u128, d as u128);
    (q % FULL_TURN as u128) as u32
}

/// A channel as a byte.
fn channel_to_byte(c: u32) -> (res: u8)
    requires
        c <= UNIT,
    ensures
        res == byte_of_channel(c as int),
{
    proof {
        lemma_div_round_range(c * 255, UNIT as int, 255);
    }
    let q: u128 = round_div(c as u128 * 255, UNIT as u128);
    q as u8
}

/// A byte as a channel.
fn byte_to_channel(b: u8) -> (res: u32)
    ensures
        res == channel_of_byte(b as int),
        res <= UNIT,
{
    proof {
        lemma_div_round_range(b * UNIT, 255, UNIT as int);
    }
    let q: u128 = round_div(b as u128 * UNIT as u128, 255);
    q as u32
}

/// The wedge of channel `n` at hue `h`.
fn wedge(n: u32, h: u32) -> (res: u32)
    requires
        n <= 5,
        h <= FULL_TURN,
    ensures
        res == hsv_wedge(n as int, h as int),
        res <= SEXTANT,
{
    let k: u32 = (n * SEXTANT + h) % FULL_TURN;
    if k <= SEXTANT {
        k
    } else if k <= 3 * SEXTANT {
        SEXTANT
    } else if k <= 4 * SEXTANT {
        4 * SEXTANT - k
    } else {
        0
    }
}

/// One channel of the colour with hue `h`, saturation `s` and value `v`.
fn channel_from_hsv(n: u32, h: u32, s: u32, v: u32) -> (res: u32)
    requires
        n <= 5,
        h <= FULL_TURN,
        s <= UNIT,
        v <= UNIT,
    ensures
        res == hsv_channel(n as int, h as int, s as int, v as int),
        res <= UNIT,
{
    let w: u32 = wedge(n, h);
    proof {
        assert(0 <= v * s * w <= v * (SEXTANT * UNIT)) by (nonlinear_arith)
            requires
                0 <= s <= UNIT,
                0 <= w <= SEXTANT,
                0 <= v,
        ;
        lemma_div_round_range(v * s * w, SEXTANT * UNIT, v as int);
        assert(v * (SEXTANT * UNIT) <= UNIT * (SEXTANT * UNIT)) by (nonlinear_arith)
            requires
                0 <= v <= UNIT,
        ;
        assert(0 <= v * s <= UNIT * UNIT) by (nonlinear_arith)
            requires
                0 <= v <= UNIT,
                0 <= s <= UNIT,
        ;
    }
    let q: u128 = round_div(
        v as u128 * s as u128 * w as u128,
        SEXTANT as u128 * UNIT as u128,
    );
    v - q as u32
}

/// One channel of the colour with hue `h`, saturation `s` and lightness `l`.
fn channel_from_hsl(n: u32, h: u32, s: u32, l: u32) -> (res: u32)
    requires
        n <= 5,
        h <= FULL_TURN,
        s <= UNIT,
        l <= UNIT,
    ensures
        res == hsl_channel(n as int, h as int, s as int, l as int),
        res <= UNIT,
{
    let w: u32 = wedge(n, h);
    let half: u32 = if l <= UNIT - l {
        l
    } else {
        UNIT - l
    };
    let ghost su: int = SEXTANT * UNIT;
    let ghost amp: int = s * half;
    let ghost signed: int = amp * (SEXTANT - 2 * w);
    proof {
        assert(su == 60_000_000_000_000) by (nonlinear_arith)
            requires
                su == SEXTANT * UNIT,
        ;
        assert(0 <= amp <= UNIT * half) by (nonlinear_arith)
            requires
                amp == s * half,
                0 <= s <= UNIT,
                0 <= half,
        ;
        assert(amp * SEXTANT <= su * half && amp * SEXTANT <= su * l) by (nonlinear_arith)
            requires
                0 <= amp <= UNIT * half,
                half <= l,
                su == SEXTANT * UNIT,
        ;
        assert(0 <= 2 * amp * w <= 2 * (amp * SEXTANT)) by (nonlinear_arith)
            requires
                0 <= amp,
                0 <= w <= SEXTANT,
        ;
        assert(signed == amp * SEXTANT - 2 * amp * w) by (nonlinear_arith)
            requires
                signed == amp * (SEXTANT - 2 * w),
        ;
        assert(l * su == su * l) by (nonlinear_arith);
        lemma_div_round_shift(signed, l as int, su);
        assert(UNIT * su == su * UNIT) by (nonlinear_arith);
        lemma_div_round_range(signed + l * su, su, UNIT as int);
    }
    let scale: u128 = SEXTANT as u128 * UNIT as u128;
    let a: u128 = s as u128 * half as u128;
    let num: u128 = scale * l as u128 + a * SEXTANT as u128 - 2 * a * w as u128;
    let q: u128 = round_div(num, scale);
    q as u32
}

} // verus!
