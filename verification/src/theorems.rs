//! What holds of the colour model, for every colour.
//!
//! Every derived form stays in its range. Each of them rounds, so a colour
//! that is taken to a derived form and back differs a little: by at most one
//! millionth per channel through HSV or HSL, which is a tenth of a
//! hundred-thousandth, and by at most 1/255 through bytes or through the
//! hexadecimal text. Bytes themselves come back unchanged.

use vstd::prelude::*;
use crate::color::{
    byte_of_channel, channel_of_byte, hsl_channel, hsl_of, hsv_channel, hsv_of, hsv_wedge,
    rgb_of_hsl, rgb_of_hsv, Rgb, FULL_TURN, SEXTANT,
};
use crate::hex::{hex_of, hex_text, lemma_hex_digit_value, parse_hex, rgb_of_bytes};
use crate::fixed::{
    clamp, div_round, lemma_div_round_bounds, lemma_div_round_exact, lemma_div_round_monotonic,
    lemma_div_round_shift, min2, UNIT,
};

verus! {

/// The wedge of `hsv_wedge` as a function of the angle `t` alone.
spec fn wedge_at(t: int) -> int {
    let k = t % (FULL_TURN as int);
    clamp(min2(k, 4 * SEXTANT - k), 0, SEXTANT as int)
}

/// The offset `e` of a hue within its third of the circle, where `x` is the
/// channel that follows the largest one and `y` the one that precedes it.
spec fn hue_offset(x: int, y: int, d: int) -> int {
    div_round(SEXTANT * (x - y), d)
}

/// The wedges of the three channels, for a hue that lies `e` from the centre
/// of the third of the circle that belongs to the largest channel: the
/// largest channel has wedge 0, and the wedges of the other two are within
/// half a step of `SEXTANT * (max - channel) / chroma`.
proof fn lemma_sector(max: int, x: int, y: int)
    requires
        0 <= x <= max,
        0 <= y <= max,
        max - min2(x, y) > 0,
    ensures
        ({
            let d = max - min2(x, y);
            let e = hue_offset(x, y, d);
            &&& -SEXTANT <= e <= SEXTANT
            &&& wedge_at(5 * SEXTANT + e) == 0
            &&& 0 <= wedge_at(3 * SEXTANT + e) <= SEXTANT
            &&& 0 <= wedge_at(SEXTANT + e) <= SEXTANT
            &&& -d <= 2 * (d * wedge_at(3 * SEXTANT + e) - SEXTANT * (max - x)) <= d
            &&& -d <= 2 * (d * wedge_at(SEXTANT + e) - SEXTANT * (max - y)) <= d
        }),
{
    let s = SEXTANT as int;
    let d = max - min2(x, y);
    let e = hue_offset(x, y, d);
    lemma_div_round_bounds(s * (x - y), d);
    lemma_div_round_exact(-s, d);
    lemma_div_round_exact(s, d);
    lemma_div_round_exact(0, d);
    assert(0 * d == 0);
    assert((-s) * d <= s * (x - y) <= s * d) by (nonlinear_arith)
        requires
            -d <= x - y <= d,
            s == 60_000_000,
    ;
    lemma_div_round_monotonic((-s) * d, s * (x - y), d);
    lemma_div_round_monotonic(s * (x - y), s * d, d);
    assert(-s <= e <= s);
    assert(wedge_at(5 * s + e) == 0);
    assert(2 * d * e == 2 * (d * e)) by (nonlinear_arith);
    if x >= y {
        lemma_div_round_monotonic(0, s * (x - y), d);
        assert(0 <= e);
        assert(wedge_at(3 * s + e) == s - e);
        assert(wedge_at(s + e) == s);
        assert(d * (s - e) == d * s - d * e) by (nonlinear_arith);
    } else {
        lemma_div_round_monotonic(s * (x - y), 0, d);
        assert(e <= 0);
        assert(wedge_at(3 * s + e) == s);
        assert(wedge_at(s + e) == s + e);
        assert(d * (s + e) == d * s + d * e) by (nonlinear_arith);
    }
}

/// The product of two approximations: where `a2` is within `ea` of `2 * p`
/// and `b2` within `eb` of `2 * q`, `a2 * b2` is within
/// `2 * pm * eb + 2 * qm * ea + ea * eb` of `4 * p * q`, for any bounds `pm`
/// and `qm` on the sizes of `p` and `q`.
proof fn lemma_product_error(a2: int, p: int, pm: int, ea: int, b2: int, q: int, qm: int, eb: int)
    requires
        -pm <= p <= pm,
        -qm <= q <= qm,
        -ea <= a2 - 2 * p <= ea,
        -eb <= b2 - 2 * q <= eb,
    ensures
        a2 * b2 - 4 * (p * q) <= 2 * (pm * eb) + 2 * (qm * ea) + ea * eb,
        4 * (p * q) - a2 * b2 <= 2 * (pm * eb) + 2 * (qm * ea) + ea * eb,
{
    let a = a2 - 2 * p;
    let b = b2 - 2 * q;
    assert(a2 * b2 == 4 * (p * q) + 2 * (p * b) + 2 * (q * a) + a * b) by (nonlinear_arith)
        requires
            a == a2 - 2 * p,
            b == b2 - 2 * q,
    ;
    assert(-(pm * eb) <= p * b <= pm * eb) by (nonlinear_arith)
        requires
            -pm <= p <= pm,
            -eb <= b <= eb,
    ;
    assert(-(qm * ea) <= q * a <= qm * ea) by (nonlinear_arith)
        requires
            -qm <= q <= qm,
            -ea <= a <= ea,
    ;
    assert(-(ea * eb) <= a * b <= ea * eb) by (nonlinear_arith)
        requires
            -ea <= a <= ea,
            -eb <= b <= eb,
    ;
}

/// One channel of a round trip through HSV: where the wedge `w` is within
/// half a step of `SEXTANT * m / d`, the channel comes out within one step
/// of `max - m`.
proof fn lemma_hsv_channel_close(max: int, d: int, w: int, m: int)
    requires
        0 < d <= max <= UNIT,
        0 <= m <= d,
        0 <= w <= SEXTANT,
        -d <= 2 * (d * w - SEXTANT * m) <= d,
    ensures
        ({
            let s = div_round(d * UNIT, max);
            m - 1 <= div_round(max * s * w, SEXTANT * UNIT) <= m + 1
        }),
{
    let u = UNIT as int;
    let s60 = SEXTANT as int;
    let s = div_round(d * u, max);
    let t = max * s * w;
    let q = div_round(t, s60 * u);
    lemma_div_round_bounds(d * u, max);
    lemma_div_round_bounds(t, s60 * u);
    let a2 = 2 * max * s;
    let b2 = 2 * (d * w);
    lemma_product_error(a2, d * u, d * u, max, b2, s60 * m, s60 * m, d);
    assert(a2 * b2 == 4 * (d * t)) by (nonlinear_arith)
        requires
            a2 == 2 * max * s,
            b2 == 2 * (d * w),
            t == max * s * w,
    ;
    // The three error terms, each at most a multiple of d.
    assert((d * u) * d == d * (d * u)) by (nonlinear_arith);
    assert((s60 * m) * max <= d * (s60 * u)) by (nonlinear_arith)
        requires
            0 <= m <= d,
            0 <= max <= u,
            s60 == 60_000_000,
    ;
    assert(max * d <= d * u) by (nonlinear_arith)
        requires
            0 <= max <= u,
            0 <= d,
    ;
    assert((d * u) * (s60 * m) == d * (u * s60 * m)) by (nonlinear_arith);
    let k = 2 * (d * u) + 2 * (s60 * u) + u;
    assert(d * k == 2 * (d * (d * u)) + 2 * (d * (s60 * u)) + d * u) by (nonlinear_arith)
        requires
            k == 2 * (d * u) + 2 * (s60 * u) + u,
    ;
    let y = t - u * s60 * m;
    assert(4 * (d * t) - 4 * (d * (u * s60 * m)) == d * (4 * y)) by (nonlinear_arith)
        requires
            y == t - u * s60 * m,
    ;
    assert(-k <= 4 * y <= k) by (nonlinear_arith)
        requires
            d > 0,
            -(d * k) <= d * (4 * y) <= d * k,
    ;
    assert(s60 * u == 60_000_000_000_000) by (nonlinear_arith)
        requires
            s60 == 60_000_000,
            u == 1_000_000,
    ;
    assert(d * u == 1_000_000 * d);
    assert(u * s60 * m == 60_000_000_000_000 * m);
    assert(2 * (s60 * u) * q == 120_000_000_000_000 * q);
}

/// The numbers that belong to one third of the circle: `k` is 6, 2 or 4
/// where the largest channel is red, green or blue, and `nmax`, `nx` and `ny`
/// are the wedge numbers of the largest channel, of the one that follows it
/// in the order red, green, blue, red, and of the one that precedes it.
spec fn sector_numbers(k: int, nmax: int, nx: int, ny: int) -> bool {
    ||| k == 6 && nmax == 5 && nx == 3 && ny == 1
    ||| k == 2 && nmax == 3 && nx == 1 && ny == 5
    ||| k == 4 && nmax == 1 && nx == 5 && ny == 3
}

/// At the hue of a colour that is no grey, the wedge of the largest channel
/// `max` is 0, and the wedges of the channel `x` that follows it and of the
/// channel `y` that precedes it are within half a step of
/// `SEXTANT * (max - channel) / chroma`.
proof fn lemma_wedges_of_hue(max: int, x: int, y: int, k: int, nmax: int, nx: int, ny: int)
    requires
        0 <= x <= max,
        0 <= y <= max,
        max - min2(x, y) > 0,
        sector_numbers(k, nmax, nx, ny),
    ensures
        ({
            let d = max - min2(x, y);
            let h = div_round(SEXTANT * (k * d + x - y), d) % (FULL_TURN as int);
            &&& 0 <= h < FULL_TURN
            &&& hsv_wedge(nmax, h) == 0
            &&& 0 <= hsv_wedge(nx, h) <= SEXTANT
            &&& 0 <= hsv_wedge(ny, h) <= SEXTANT
            &&& -d <= 2 * (d * hsv_wedge(nx, h) - SEXTANT * (max - x)) <= d
            &&& -d <= 2 * (d * hsv_wedge(ny, h) - SEXTANT * (max - y)) <= d
        }),
{
    let s60 = SEXTANT as int;
    let d = max - min2(x, y);
    let e = hue_offset(x, y, d);
    let h = div_round(s60 * (k * d + x - y), d) % (FULL_TURN as int);
    lemma_sector(max, x, y);
    assert(s60 * (k * d + x - y) == s60 * (x - y) + (k * s60) * d) by (nonlinear_arith);
    lemma_div_round_shift(s60 * (x - y), k * s60, d);
    assert(h == (k * s60 + e) % (FULL_TURN as int));
    assert(hsv_wedge(nmax, h) == wedge_at(5 * s60 + e));
    assert(hsv_wedge(nx, h) == wedge_at(3 * s60 + e));
    assert(hsv_wedge(ny, h) == wedge_at(s60 + e));
}

/// A round trip through HSV for a colour that is no grey, channel by channel.
proof fn lemma_hsv_sector_round_trip(
    max: int,
    x: int,
    y: int,
    k: int,
    nmax: int,
    nx: int,
    ny: int,
)
    requires
        0 <= x <= max <= UNIT,
        0 <= y <= max,
        max - min2(x, y) > 0,
        sector_numbers(k, nmax, nx, ny),
    ensures
        ({
            let d = max - min2(x, y);
            let h = div_round(SEXTANT * (k * d + x - y), d) % (FULL_TURN as int);
            let s = div_round(d * UNIT, max);
            &&& 0 <= h < FULL_TURN
            &&& max - 1 <= hsv_channel(nmax, h, s, max) <= max + 1
            &&& x - 1 <= hsv_channel(nx, h, s, max) <= x + 1
            &&& y - 1 <= hsv_channel(ny, h, s, max) <= y + 1
        }),
{
    let d = max - min2(x, y);
    let h = div_round(SEXTANT * (k * d + x - y), d) % (FULL_TURN as int);
    lemma_wedges_of_hue(max, x, y, k, nmax, nx, ny);
    assert(d * 0 == 0);
    lemma_hsv_channel_close(max, d, hsv_wedge(nmax, h), 0);
    lemma_hsv_channel_close(max, d, hsv_wedge(nx, h), max - x);
    lemma_hsv_channel_close(max, d, hsv_wedge(ny, h), max - y);
}

/// A colour that is taken to hue, saturation and value and back comes out
/// within one millionth per channel, ten times closer than a
/// hundred-thousandth.
pub proof fn lemma_hsv_round_trip(c: Rgb)
    requires
        c.valid(),
    ensures
        ({
            let (h, s, v) = hsv_of(c);
            rgb_of_hsv(h, s, v).within(c, 1)
        }),
{
    let (h, s, v) = hsv_of(c);
    let max = c.max();
    let d = c.chroma();
    if d == 0 {
        assert(s == 0) by {
            if max != 0 {
                assert(0 * UNIT == 0);
                assert(0 * max == 0);
                lemma_div_round_exact(0, max);
            }
        }
        assert forall|n: int| #[trigger] hsv_channel(n, h, s, v) == v by {
            assert(v * 0 * hsv_wedge(n, h) == 0) by (nonlinear_arith);
            assert(0 * (SEXTANT * UNIT) == 0);
            lemma_div_round_exact(0, SEXTANT * UNIT);
        }
    } else {
        assert(0 <= d * UNIT <= UNIT * max) by (nonlinear_arith)
            requires
                0 <= d <= max,
        ;
        crate::fixed::lemma_div_round_range(d * UNIT, max, UNIT as int);
        if c.r == max {
            lemma_hsv_sector_round_trip(max, c.g, c.b, 6, 5, 3, 1);
        } else if c.g == max {
            lemma_hsv_sector_round_trip(max, c.b, c.r, 2, 3, 1, 5);
        } else {
            lemma_hsv_sector_round_trip(max, c.r, c.g, 4, 1, 5, 3);
        }
    }
}

/// The saturation that `hsl_of` gives a colour with largest channel `max`
/// and smallest channel `min`.
spec fn hsl_saturation(max: int, min: int) -> int {
    div_round((max - min) * UNIT, min2(max + min, 2 * UNIT - (max + min)))
}

/// One channel of a round trip through HSL: where the wedge `w` is within
/// half a step of `SEXTANT * m / d`, the channel comes out within one step
/// of `max - m`.
proof fn lemma_hsl_channel_close(max: int, min: int, w: int, m: int)
    requires
        0 <= min < max <= UNIT,
        0 <= m <= max - min,
        0 <= w <= SEXTANT,
        -(max - min) <= 2 * ((max - min) * w - SEXTANT * m) <= max - min,
    ensures
        ({
            let s = hsl_saturation(max, min);
            let l = div_round(max + min, 2);
            let q = div_round(s * min2(l, UNIT - l) * (SEXTANT - 2 * w), SEXTANT * UNIT);
            &&& 0 <= s <= UNIT
            &&& 0 <= l <= UNIT
            &&& max - m - 1 <= l + q <= max - m + 1
        }),
{
    let u = UNIT as int;
    let s60 = SEXTANT as int;
    let d = max - min;
    let sum = max + min;
    let cap = min2(sum, 2 * u - sum);
    let s = hsl_saturation(max, min);
    let l = div_round(sum, 2);
    let ml = min2(l, u - l);
    let t = s * ml * (s60 - 2 * w);
    let q = div_round(t, s60 * u);
    assert(s60 * u == 60_000_000_000_000) by (nonlinear_arith)
        requires
            s60 == 60_000_000,
            u == 1_000_000,
    ;
    // The saturation: within half a step of d / cap, and at most 1.
    lemma_div_round_bounds(d * u, cap);
    assert(0 <= d * u <= u * cap) by (nonlinear_arith)
        requires
            0 <= d <= cap,
            u == 1_000_000,
    ;
    crate::fixed::lemma_div_round_range(d * u, cap, u);
    // The lightness: the mean, or half a step above it.
    lemma_div_round_bounds(sum, 2);
    lemma_div_round_bounds(t, s60 * u);
    let e2 = 2 * ml - cap;
    assert(-1 <= e2 <= 1);
    // a2 approximates 2 * (d * u), b2 approximates 2 * (s60 * (d - 2 * m)).
    let a2 = 4 * (s * ml);
    let b2 = 2 * (d * (s60 - 2 * w));
    assert(a2 == 2 * cap * s + 2 * (s * e2)) by (nonlinear_arith)
        requires
            a2 == 4 * (s * ml),
            e2 == 2 * ml - cap,
    ;
    assert(-s <= s * e2 <= s) by (nonlinear_arith)
        requires
            0 <= s,
            -1 <= e2 <= 1,
    ;
    assert(b2 == 2 * (d * s60) - 4 * (d * w)) by (nonlinear_arith)
        requires
            b2 == 2 * (d * (s60 - 2 * w)),
    ;
    lemma_product_error(a2, d * u, d * u, 3 * u, b2, s60 * (d - 2 * m), s60 * d, 2 * d);
    assert(a2 * b2 == 8 * (d * t)) by (nonlinear_arith)
        requires
            a2 == 4 * (s * ml),
            b2 == 2 * (d * (s60 - 2 * w)),
            t == s * ml * (s60 - 2 * w),
    ;
    let k = 4 * (d * u) + 6 * (s60 * u) + 6 * u;
    assert(2 * ((d * u) * (2 * d)) + 2 * ((s60 * d) * (3 * u)) + (3 * u) * (2 * d) == d * k)
        by (nonlinear_arith)
        requires
            k == 4 * (d * u) + 6 * (s60 * u) + 6 * u,
    ;
    let y = 2 * t - u * s60 * (d - 2 * m);
    assert(8 * (d * t) - 4 * ((d * u) * (s60 * (d - 2 * m))) == d * (4 * y)) by (nonlinear_arith)
        requires
            y == 2 * t - u * s60 * (d - 2 * m),
    ;
    assert(-k <= 4 * y <= k) by (nonlinear_arith)
        requires
            d > 0,
            -(d * k) <= d * (4 * y) <= d * k,
    ;
    assert(d * u == 1_000_000 * d);
    assert(u * s60 * (d - 2 * m) == 60_000_000_000_000 * (d - 2 * m));
    assert(2 * (s60 * u) * q == 120_000_000_000_000 * q);
}

/// A round trip through HSL for a colour that is no grey, channel by channel.
proof fn lemma_hsl_sector_round_trip(
    max: int,
    x: int,
    y: int,
    k: int,
    nmax: int,
    nx: int,
    ny: int,
)
    requires
        0 <= x <= max <= UNIT,
        0 <= y <= max,
        max - min2(x, y) > 0,
        sector_numbers(k, nmax, nx, ny),
    ensures
        ({
            let min = min2(x, y);
            let h = div_round(SEXTANT * (k * (max - min) + x - y), max - min) % (FULL_TURN as int);
            let s = hsl_saturation(max, min);
            let l = div_round(max + min, 2);
            &&& 0 <= h < FULL_TURN
            &&& 0 <= s <= UNIT
            &&& 0 <= l <= UNIT
            &&& max - 1 <= hsl_channel(nmax, h, s, l) <= max + 1
            &&& x - 1 <= hsl_channel(nx, h, s, l) <= x + 1
            &&& y - 1 <= hsl_channel(ny, h, s, l) <= y + 1
        }),
{
    let min = min2(x, y);
    let d = max - min;
    let h = div_round(SEXTANT * (k * d + x - y), d) % (FULL_TURN as int);
    lemma_wedges_of_hue(max, x, y, k, nmax, nx, ny);
    assert(d * 0 == 0);
    lemma_hsl_channel_close(max, min, hsv_wedge(nmax, h), 0);
    lemma_hsl_channel_close(max, min, hsv_wedge(nx, h), max - x);
    lemma_hsl_channel_close(max, min, hsv_wedge(ny, h), max - y);
}

/// A colour that is taken to hue, saturation and lightness and back comes out
/// within one millionth per channel, ten times closer than a
/// hundred-thousandth.
pub proof fn lemma_hsl_round_trip(c: Rgb)
    requires
        c.valid(),
    ensures
        ({
            let (h, s, l) = hsl_of(c);
            rgb_of_hsl(h, s, l).within(c, 1)
        }),
{
    let (h, s, l) = hsl_of(c);
    let max = c.max();
    let d = c.chroma();
    if d == 0 {
        assert(c.max() + c.min() == max * 2);
        lemma_div_round_exact(max, 2);
        assert forall|n: int| #[trigger] hsl_channel(n, h, s, l) == l by {
            assert(0 * min2(l, UNIT - l) * (SEXTANT - 2 * hsv_wedge(n, h)) == 0)
                by (nonlinear_arith);
            assert(0 * (SEXTANT * UNIT) == 0);
            lemma_div_round_exact(0, SEXTANT * UNIT);
        }
    } else {
        if c.r == max {
            lemma_hsl_sector_round_trip(max, c.g, c.b, 6, 5, 3, 1);
        } else if c.g == max {
            lemma_hsl_sector_round_trip(max, c.b, c.r, 2, 3, 1, 5);
        } else {
            lemma_hsl_sector_round_trip(max, c.r, c.g, 4, 1, 5, 3);
        }
    }
}

/// Hue, saturation and value of a colour lie in their ranges: the hue below
/// a full turn, the other two between 0 and 1.
pub proof fn lemma_hsv_of_in_range(c: Rgb)
    requires
        c.valid(),
    ensures
        0 <= hsv_of(c).0 < FULL_TURN,
        0 <= hsv_of(c).1 <= UNIT,
        0 <= hsv_of(c).2 <= UNIT,
{
    if c.max() > 0 {
        assert(0 <= c.chroma() * UNIT <= UNIT * c.max()) by (nonlinear_arith)
            requires
                0 <= c.chroma() <= c.max(),
        ;
        crate::fixed::lemma_div_round_range(c.chroma() * UNIT, c.max(), UNIT as int);
    }
}

/// Hue, saturation and lightness of a colour lie in their ranges: the hue
/// below a full turn, the other two between 0 and 1.
pub proof fn lemma_hsl_of_in_range(c: Rgb)
    requires
        c.valid(),
    ensures
        0 <= hsl_of(c).0 < FULL_TURN,
        0 <= hsl_of(c).1 <= UNIT,
        0 <= hsl_of(c).2 <= UNIT,
{
    let sum = c.max() + c.min();
    let cap = min2(sum, 2 * UNIT - sum);
    if c.chroma() > 0 {
        assert(0 <= c.chroma() * UNIT <= UNIT * cap) by (nonlinear_arith)
            requires
                0 <= c.chroma() <= cap,
        ;
        crate::fixed::lemma_div_round_range(c.chroma() * UNIT, cap, UNIT as int);
    }
    assert(UNIT * 2 == 2 * UNIT);
    crate::fixed::lemma_div_round_range(sum, 2, UNIT as int);
}

/// Whatever the arguments, no channel of a colour made from hue, saturation
/// and value leaves the range from 0 to 1, and none exceeds the value.
pub proof fn lemma_rgb_of_hsv_valid(h: int, s: int, v: int)
    ensures
        rgb_of_hsv(h, s, v).valid(),
        rgb_of_hsv(h, s, v).max() <= clamp(v, 0, UNIT as int),
{
    let hc = clamp(h, 0, FULL_TURN as int);
    let sc = clamp(s, 0, UNIT as int);
    let vc = clamp(v, 0, UNIT as int);
    assert forall|n: int| 0 <= #[trigger] hsv_channel(n, hc, sc, vc) <= vc by {
        let w = hsv_wedge(n, hc);
        assert(0 <= vc * sc * w <= vc * (SEXTANT * UNIT)) by (nonlinear_arith)
            requires
                0 <= sc <= UNIT,
                0 <= w <= SEXTANT,
                0 <= vc,
        ;
        crate::fixed::lemma_div_round_range(vc * sc * w, SEXTANT * UNIT, vc);
    }
}

/// Whatever the arguments, no channel of a colour made from hue, saturation
/// and lightness leaves the range from 0 to 1.
pub proof fn lemma_rgb_of_hsl_valid(h: int, s: int, l: int)
    ensures
        rgb_of_hsl(h, s, l).valid(),
{
    let hc = clamp(h, 0, FULL_TURN as int);
    let sc = clamp(s, 0, UNIT as int);
    let lc = clamp(l, 0, UNIT as int);
    let half = min2(lc, UNIT - lc);
    let su = SEXTANT * UNIT;
    assert forall|n: int| 0 <= #[trigger] hsl_channel(n, hc, sc, lc) <= UNIT by {
        let f = SEXTANT - 2 * hsv_wedge(n, hc);
        let t = sc * half * f;
        assert(-(half * su) <= t <= half * su) by (nonlinear_arith)
            requires
                t == sc * half * f,
                0 <= sc <= UNIT,
                0 <= half,
                -SEXTANT <= f <= SEXTANT,
                su == SEXTANT * UNIT,
        ;
        assert((-half) * su == -(half * su)) by (nonlinear_arith);
        lemma_div_round_exact(-half, su);
        lemma_div_round_exact(half, su);
        lemma_div_round_monotonic((-half) * su, t, su);
        lemma_div_round_monotonic(t, half * su, su);
    }
}

/// The saturation of a colour is 0 exactly where the colour is a grey, in
/// HSV and in HSL alike, and the hue of a grey is 0.
pub proof fn lemma_unsaturated_iff_grey(c: Rgb)
    requires
        c.valid(),
    ensures
        hsv_of(c).1 == 0 <==> c.chroma() == 0,
        hsl_of(c).1 == 0 <==> c.chroma() == 0,
        c.chroma() == 0 ==> hsv_of(c).0 == 0 && hsl_of(c).0 == 0,
{
    let d = c.chroma();
    let sum = c.max() + c.min();
    let cap = min2(sum, 2 * UNIT - sum);
    if d == 0 {
        if c.max() != 0 {
            assert(0 * UNIT == 0);
            assert(0 * c.max() == 0);
            lemma_div_round_exact(0, c.max());
        }
    } else {
        lemma_div_round_bounds(d * UNIT, c.max());
        lemma_div_round_bounds(d * UNIT, cap);
        assert(d * UNIT >= UNIT) by (nonlinear_arith)
            requires
                d >= 1,
        ;
        assert(2 * c.max() * 0 == 0);
        assert(2 * cap * 0 == 0);
    }
}

/// The value of a colour made from hue, saturation and value is its largest
/// channel, exactly, and its chroma is the value times the saturation,
/// rounded to the nearest millionth.
pub proof fn lemma_value_is_largest(h: int, s: int, v: int)
    ensures
        ({
            let sc = clamp(s, 0, UNIT as int);
            let vc = clamp(v, 0, UNIT as int);
            &&& rgb_of_hsv(h, s, v).max() == vc
            &&& rgb_of_hsv(h, s, v).chroma() == div_round(vc * sc, UNIT as int)
            &&& hsv_of(rgb_of_hsv(h, s, v)).2 == vc
        }),
{
    let hc = clamp(h, 0, FULL_TURN as int);
    let sc = clamp(s, 0, UNIT as int);
    let vc = clamp(v, 0, UNIT as int);
    let su = SEXTANT * UNIT;
    let full = div_round(vc * sc * SEXTANT, su);
    // One wedge is 0 and one is a whole sextant, whatever the hue.
    assert(hsv_wedge(5, hc) == 0 || hsv_wedge(3, hc) == 0 || hsv_wedge(1, hc) == 0);
    assert(hsv_wedge(5, hc) == SEXTANT || hsv_wedge(3, hc) == SEXTANT || hsv_wedge(1, hc)
        == SEXTANT);
    assert(vc * sc * 0 == 0) by (nonlinear_arith);
    assert(0 * su == 0);
    lemma_div_round_exact(0, su);
    assert forall|n: int| vc - full <= #[trigger] hsv_channel(n, hc, sc, vc) <= vc by {
        let w = hsv_wedge(n, hc);
        assert(0 <= vc * sc * w <= vc * sc * SEXTANT) by (nonlinear_arith)
            requires
                0 <= sc,
                0 <= vc,
                0 <= w <= SEXTANT,
        ;
        lemma_div_round_monotonic(0, vc * sc * w, su);
        lemma_div_round_monotonic(vc * sc * w, vc * sc * SEXTANT, su);
    }
    // The full wedge takes the whole chroma off the value.
    assert(vc * sc * SEXTANT == SEXTANT * (vc * sc)) by (nonlinear_arith);
    assert(su == SEXTANT * UNIT);
    assert(SEXTANT * (2 * (vc * sc) + UNIT) == 2 * (SEXTANT * (vc * sc)) + su) by (nonlinear_arith)
        requires
            su == SEXTANT * UNIT,
    ;
    assert(SEXTANT * (2 * UNIT) == 2 * su) by (nonlinear_arith)
        requires
            su == SEXTANT * UNIT,
    ;
    vstd::arithmetic::div_mod::lemma_div_multiples_vanish_quotient(
        SEXTANT as int,
        2 * (vc * sc) + UNIT,
        2 * UNIT,
    );
    assert(full == div_round(vc * sc, UNIT as int));
}

/// A colour without saturation is the grey of its value, whatever the hue.
pub proof fn lemma_unsaturated_is_grey(h: int, v: int)
    ensures
        ({
            let grey = clamp(v, 0, UNIT as int);
            rgb_of_hsv(h, 0, v) == (Rgb { r: grey, g: grey, b: grey })
        }),
{
    let hc = clamp(h, 0, FULL_TURN as int);
    let vc = clamp(v, 0, UNIT as int);
    assert forall|n: int| #[trigger] hsv_channel(n, hc, 0, vc) == vc by {
        assert(vc * 0 * hsv_wedge(n, hc) == 0) by (nonlinear_arith);
        assert(0 * (SEXTANT * UNIT) == 0);
        lemma_div_round_exact(0, SEXTANT * UNIT);
    }
}

/// A colour without value is black, whatever the hue and the saturation.
pub proof fn lemma_valueless_is_black(h: int, s: int)
    ensures
        rgb_of_hsv(h, s, 0) == (Rgb { r: 0, g: 0, b: 0 }),
{
    let hc = clamp(h, 0, FULL_TURN as int);
    let sc = clamp(s, 0, UNIT as int);
    assert forall|n: int| #[trigger] hsv_channel(n, hc, sc, 0) == 0 by {
        assert(0 * sc * hsv_wedge(n, hc) == 0) by (nonlinear_arith);
        assert(0 * (SEXTANT * UNIT) == 0);
        lemma_div_round_exact(0, SEXTANT * UNIT);
    }
}

/// The hue wraps: a full turn gives the colours of hue 0.
pub proof fn lemma_full_turn_wraps(s: int, x: int)
    ensures
        rgb_of_hsv(FULL_TURN as int, s, x) == rgb_of_hsv(0, s, x),
        rgb_of_hsl(FULL_TURN as int, s, x) == rgb_of_hsl(0, s, x),
{
    assert forall|n: int| 0 <= n <= 5 implies #[trigger] hsv_wedge(n, FULL_TURN as int)
        == hsv_wedge(n, 0) by {}
}

/// Hue 0 at full saturation and value is pure red, and so is a full turn.
pub proof fn lemma_red_at_both_ends()
    ensures
        rgb_of_hsv(0, UNIT as int, UNIT as int) == (Rgb { r: UNIT as int, g: 0, b: 0 }),
        rgb_of_hsv(FULL_TURN as int, UNIT as int, UNIT as int) == (Rgb {
            r: UNIT as int,
            g: 0,
            b: 0,
        }),
{
    let u = UNIT as int;
    lemma_full_turn_wraps(u, u);
    assert(hsv_wedge(5, 0) == 0);
    assert(hsv_wedge(3, 0) == SEXTANT);
    assert(hsv_wedge(1, 0) == SEXTANT);
    assert(u * u * 0 == 0 * (SEXTANT * u)) by (nonlinear_arith);
    assert(u * u * SEXTANT == u * (SEXTANT * u)) by (nonlinear_arith);
    lemma_div_round_exact(0, SEXTANT * u);
    lemma_div_round_exact(u, SEXTANT * u);
}

/// Black is written as 0 and white as 255.
pub proof fn lemma_byte_ends()
    ensures
        byte_of_channel(0) == 0,
        byte_of_channel(UNIT as int) == 255,
{
    assert(0 * 255 == 0 * UNIT);
    assert(UNIT * 255 == 255 * UNIT);
    lemma_div_round_exact(0, UNIT as int);
    lemma_div_round_exact(255, UNIT as int);
}

/// A byte that is taken to a channel and back is unchanged.
pub proof fn lemma_byte_round_trip(b: int)
    requires
        0 <= b <= 255,
    ensures
        0 <= channel_of_byte(b) <= UNIT,
        byte_of_channel(channel_of_byte(b)) == b,
{
    let c = channel_of_byte(b);
    lemma_div_round_bounds(b * UNIT, 255);
    crate::fixed::lemma_div_round_range(b * UNIT, 255, UNIT as int);
    crate::fixed::lemma_div_round_unique(c * 255, UNIT as int, b);
}

/// A channel that is taken to a byte and back comes out within 1/255.
pub proof fn lemma_channel_byte_close(c: int)
    requires
        0 <= c <= UNIT,
    ensures
        0 <= byte_of_channel(c) <= 255,
        -(UNIT / 255) <= channel_of_byte(byte_of_channel(c)) - c <= UNIT / 255,
{
    let q = byte_of_channel(c);
    lemma_div_round_bounds(c * 255, UNIT as int);
    crate::fixed::lemma_div_round_range(c * 255, UNIT as int, 255);
    lemma_div_round_bounds(q * UNIT, 255);
}

/// The text of three bytes is read back as the same three bytes.
pub proof fn lemma_hex_text_round_trip(r: int, g: int, b: int)
    requires
        0 <= r <= 255,
        0 <= g <= 255,
        0 <= b <= 255,
    ensures
        parse_hex(hex_text(r, g, b)) == Some((r, g, b)),
{
    lemma_hex_digit_value(r / 16);
    lemma_hex_digit_value(r % 16);
    lemma_hex_digit_value(g / 16);
    lemma_hex_digit_value(g % 16);
    lemma_hex_digit_value(b / 16);
    lemma_hex_digit_value(b % 16);
}

/// The hexadecimal text of a colour is read back as a colour within 1/255
/// per channel.
pub proof fn lemma_hex_round_trip(c: Rgb)
    requires
        c.valid(),
    ensures
        ({
            let read = parse_hex(hex_of(c));
            &&& read is Some
            &&& rgb_of_bytes(read->Some_0).within(c, UNIT as int / 255)
        }),
{
    lemma_channel_byte_close(c.r);
    lemma_channel_byte_close(c.g);
    lemma_channel_byte_close(c.b);
    lemma_hex_text_round_trip(byte_of_channel(c.r), byte_of_channel(c.g), byte_of_channel(c.b));
}

} // verus!
