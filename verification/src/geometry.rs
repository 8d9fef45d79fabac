//! Positions and extents of a widget, in whole pixels, and the fraction of
//! an extent that a position marks.

use vstd::prelude::*;
use crate::fixed::{div_round, lemma_div_round_range, max2, min2, round_div, UNIT};

verus! {

/// A position relative to the top left corner of a widget, or a pair of
/// fractions in millionths.
#[derive(Clone, Copy, Debug, PartialEq, Eq, Structural)]
pub struct Point {
    pub x: i64,
    pub y: i64,
}

/// The extent of a widget.
#[derive(Clone, Copy, Debug, PartialEq, Eq, Structural)]
pub struct Size {
    pub width: u32,
    pub height: u32,
}

/// The least and the greatest extent that a layout admits.
#[derive(Clone, Copy, Debug, PartialEq, Eq, Structural)]
pub struct Space {
    pub min: Size,
    pub max: Size,
}

/// The share of `whole` that `pos` marks along `extent`: `whole * pos /
/// extent` rounded to the nearest integer, 0 for a position before the start
/// and `whole` for one at or after the end.
pub open spec fn share_of(pos: int, extent: int, whole: int) -> int {
    if pos <= 0 {
        0
    } else if pos >= extent {
        whole
    } else {
        div_round(pos * whole, extent)
    }
}

/// The fraction of `extent` that `pos` marks, in millionths, limited to the
/// range from 0 to 1.
pub open spec fn fraction_of(pos: int, extent: int) -> int {
    share_of(pos, extent, UNIT as int)
}

/// `value` limited to the range from `lo` to `hi`; `lo` where the range is
/// empty.
pub open spec fn fit_extent(value: int, lo: int, hi: int) -> int {
    max2(lo, min2(value, hi))
}

impl Point {
    /// The point with the given coordinates.
    pub fn new(x: i64, y: i64) -> (res: Point)
        ensures
            res == (Point { x, y }),
    {
        Point { x, y }
    }
}

impl Size {
    /// The extent with the given width and height.
    pub fn new(width: u32, height: u32) -> (res: Size)
        ensures
            res == (Size { width, height }),
    {
        Size { width, height }
    }

    /// Whether `p` lies within this extent, the edges included.
    pub open spec fn holds(self, p: Point) -> bool {
        0 <= p.x <= self.width && 0 <= p.y <= self.height
    }

    /// Whether `p` lies within this extent, the edges included.
    pub fn contains(&self, p: Point) -> (res: bool)
        ensures
            res == self.holds(p),
    {
        p.x >= 0 && p.y >= 0 && p.x <= self.width as i64 && p.y <= self.height as i64
    }
}

impl Space {
    /// The extent nearest to `size` that this space admits.
    pub open spec fn fitted(self, size: Size) -> Size {
        Size {
            width: fit_extent(size.width as int, self.min.width as int, self.max.width as int) as u32,
            height: fit_extent(
                size.height as int,
                self.min.height as int,
                self.max.height as int,
            ) as u32,
        }
    }

    /// The extent nearest to `size` that this space admits.
    pub fn fit(&self, size: Size) -> (res: Size)
        ensures
            res == self.fitted(size),
    {
        Size {
            width: fit_one(size.width, self.min.width, self.max.width),
            height: fit_one(size.height, self.min.height, self.max.height),
        }
    }
}

/// One extent limited to a range.
fn fit_one(value: u32, lo: u32, hi: u32) -> (res: u32)
    ensures
        res == fit_extent(value as int, lo as int, hi as int),
{
    if value > hi && hi >= lo {
        hi
    } else if value < lo || hi < lo {
        lo
    } else {
        value
    }
}

/// The share of `whole` that `pos` marks along `extent`, limited to the range
/// from 0 to `whole`.
pub fn share(pos: i64, extent: u32, whole: u32) -> (res: u32)
    ensures
        res == share_of(pos as int, extent as int, whole as int),
        res <= whole,
{
    if pos <= 0 {
        0
    } else if pos >= extent as i64 {
        whole
    } else {
        proof {
            assert(0 <= pos * whole <= whole * extent && pos * whole <= 0x1_0000_0000 * 0x1_0000_0000)
                by (nonlinear_arith)
                requires
                    0 <= pos <= extent < 0x1_0000_0000,
                    0 <= whole < 0x1_0000_0000,
            ;
            lemma_div_round_range(pos * whole, extent as int, whole as int);
        }
        let q: u128 = round_div(pos as u128 * whole as u128, extent as u128);
        q as u32
    }
}

/// The fraction of `extent` that `pos` marks, limited to the range from 0
/// to 1.
pub fn fraction(pos: i64, extent: u32) -> (res: u32)
    ensures
        res == fraction_of(pos as int, extent as int),
        res <= UNIT,
{
    share(pos, extent, UNIT)
}

} // verus!
