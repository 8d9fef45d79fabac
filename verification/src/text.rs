//! The texts in which a colour is shown and copied.
//!
//! Each notation has two texts: the one shown, whose fields are filled with
//! spaces on the right so that the lines stand in columns, and the one put
//! on the clipboard, which has no padding. Numbers are decimal fractions of
//! at most six places, written without trailing zeros.

use vstd::prelude::*;
use vstd::string::*;
use crate::color::{byte_of_channel, hsl_of, hsv_of, Rgb};
use crate::data::{Data, Output};
use crate::fixed::{div_round, lemma_div_round_bounds, round_div, UNIT};
use crate::hex::{digit_text, digit_char, hex_of};

verus! {

/// The largest size of a number that `round` accepts.
pub const ROUND_LIMIT: i64 = 9_000_000_000_000_000_000;

/// The distance between two neighbours of a fixed-point number that has
/// `decimals` decimal places: a power of ten, 1 from six places on.
pub open spec fn round_step(decimals: int) -> int {
    if decimals <= 0 {
        1_000_000
    } else if decimals == 1 {
        100_000
    } else if decimals == 2 {
        10_000
    } else if decimals == 3 {
        1_000
    } else if decimals == 4 {
        100
    } else if decimals == 5 {
        10
    } else {
        1
    }
}

/// `x` rounded to `decimals` decimal places, halves away from zero.
pub open spec fn rounded(x: int, decimals: int) -> int {
    let step = round_step(decimals);
    if x >= 0 {
        div_round(x, step) * step
    } else {
        -(div_round(-x, step) * step)
    }
}

/// The decimal digits of a natural number, without leading zeros.
pub open spec fn nat_text(n: nat) -> Seq<char>
    decreases n,
{
    if n < 10 {
        seq![digit_char(n as int)]
    } else {
        nat_text(n / 10).push(digit_char((n % 10) as int))
    }
}

/// The last `places` decimal digits of `f`, leading zeros included.
pub open spec fn places_text(f: nat, places: nat) -> Seq<char>
    decreases places,
{
    if places == 0 {
        Seq::empty()
    } else {
        places_text(f / 10, (places - 1) as nat).push(digit_char((f % 10) as int))
    }
}

/// The number of decimal places that `f`, a count of `10^-places`, needs:
/// `places` less its trailing zeros, but at least `keep`.
pub open spec fn places_needed(f: nat, places: nat, keep: nat) -> nat
    decreases places,
{
    if places > keep && f % 10 == 0 {
        places_needed(f / 10, (places - 1) as nat, keep)
    } else {
        places
    }
}

/// `f` without the trailing zeros that `places_needed` drops.
pub open spec fn places_kept(f: nat, places: nat, keep: nat) -> nat
    decreases places,
{
    if places > keep && f % 10 == 0 {
        places_kept(f / 10, (places - 1) as nat, keep)
    } else {
        f
    }
}

/// A fixed-point number as a decimal fraction: the whole part, then, where
/// any decimal place is needed, a point and the places, with at least `keep`
/// of them.
pub open spec fn decimal_text(x: nat, keep: nat) -> Seq<char> {
    let whole = x / (UNIT as nat);
    let f = x % (UNIT as nat);
    let places = places_needed(f, 6, keep);
    if places == 0 {
        nat_text(whole)
    } else {
        nat_text(whole) + seq!['.'] + places_text(places_kept(f, 6, keep), places)
    }
}

/// A text filled with spaces on the right up to `width` characters.
pub open spec fn padded(s: Seq<char>, width: nat) -> Seq<char> {
    if s.len() >= width {
        s
    } else {
        s + Seq::new((width - s.len()) as nat, |i: int| ' ')
    }
}

/// Rounds a fixed-point number to `decimals` decimal places, halves away
/// from zero.
pub fn round(x: i64, decimals: u32) -> (res: i64)
    requires
        -ROUND_LIMIT <= x <= ROUND_LIMIT,
    ensures
        res == rounded(x as int, decimals as int),
{
    let step: u128 = if decimals == 0 {
        1_000_000
    } else if decimals == 1 {
        100_000
    } else if decimals == 2 {
        10_000
    } else if decimals == 3 {
        1_000
    } else if decimals == 4 {
        100
    } else if decimals == 5 {
        10
    } else {
        1
    };
    if x >= 0 {
        let q: u128 = round_div(x as u128, step);
        proof {
            lemma_div_round_bounds(x as int, step as int);
            assert(q * step <= x + step) by (nonlinear_arith)
                requires
                    2 * step * q <= 2 * x + step,
                    step > 0,
            ;
            assert(0 <= q * step) by (nonlinear_arith)
                requires
                    q >= 0,
                    step > 0,
            ;
        }
        (q * step) as i64
    } else {
        let n: u128 = (-(x as i128)) as u128;
        let q: u128 = round_div(n, step);
        proof {
            lemma_div_round_bounds(n as int, step as int);
            assert(q * step <= n + step) by (nonlinear_arith)
                requires
                    2 * step * q <= 2 * n + step,
                    step > 0,
            ;
            assert(0 <= q * step) by (nonlinear_arith)
                requires
                    q >= 0,
                    step > 0,
            ;
        }
        -((q * step) as i64)
    }
}

/// Appends the decimal digits of `n`.
fn push_nat(out: &mut String, n: u64)
    ensures
        final(out)@ == old(out)@ + nat_text(n as nat),
    decreases n,
{
    if n >= 10 {
        push_nat(out, n / 10);
    }
    out.append(digit_text((n % 10) as u8));
    assert(final(out)@ =~= old(out)@ + nat_text(n as nat));
}

/// Appends the last `places` decimal digits of `f`.
fn push_places(out: &mut String, f: u64, places: u32)
    ensures
        final(out)@ == old(out)@ + places_text(f as nat, places as nat),
    decreases places,
{
    if places > 0 {
        push_places(out, f / 10, places - 1);
        out.append(digit_text((f % 10) as u8));
    }
    assert(final(out)@ =~= old(out)@ + places_text(f as nat, places as nat));
}

/// Appends a fixed-point number as a decimal fraction with at least `keep`
/// decimal places.
fn push_decimal(out: &mut String, x: u64, keep: u32)
    ensures
        final(out)@ == old(out)@ + decimal_text(x as nat, keep as nat),
{
    let whole: u64 = x / (UNIT as u64);
    let mut f: u64 = x % (UNIT as u64);
    let mut places: u32 = 6;
    while places > keep && f % 10 == 0
        invariant
            places <= 6,
            places_needed(f as nat, places as nat, keep as nat) == places_needed(
                (x % (UNIT as u64)) as nat,
                6,
                keep as nat,
            ),
            places_kept(f as nat, places as nat, keep as nat) == places_kept(
                (x % (UNIT as u64)) as nat,
                6,
                keep as nat,
            ),
        decreases places,
    {
        f = f / 10;
        places = places - 1;
    }
    push_nat(out, whole);
    if places > 0 {
        proof {
            reveal_strlit(".");
        }
        out.append(".");
        push_places(out, f, places);
    }
    assert(final(out)@ =~= old(out)@ + decimal_text(x as nat, keep as nat));
}

/// Fills a text with spaces on the right up to `width` characters.
fn pad(field: String, width: usize) -> (res: String)
    ensures
        res@ == padded(field@, width as nat),
{
    let mut out = field;
    let len: usize = out.as_str().unicode_len();
    let mut n: usize = len;
    while n < width
        invariant
            len == field@.len(),
            len <= n,
            n <= width || n == len,
            out@ == field@ + Seq::new((n - len) as nat, |i: int| ' '),
        decreases width - n,
    {
        proof {
            reveal_strlit(" ");
        }
        out.append(" ");
        n = n + 1;
        assert(out@ =~= field@ + Seq::new((n - len) as nat, |i: int| ' '));
    }
    assert(out@ =~= padded(field@, width as nat));
    out
}

/// A number as a field: rounded to `places` decimal places where `places` is
/// given, written with at least `keep` places, and followed by `suffix`.
pub open spec fn number_text(x: nat, places: Option<nat>, keep: nat, suffix: Seq<char>) -> Seq<char> {
    match places {
        Some(d) => decimal_text(rounded(x as int, d as int) as nat, keep) + suffix,
        None => decimal_text(x, keep) + suffix,
    }
}

/// A line of three fields after a name, `name(a, b, c)`, the fields filled
/// up to the given widths.
pub open spec fn line_text(
    name: Seq<char>,
    fields: (Seq<char>, Seq<char>, Seq<char>),
    widths: (nat, nat, nat),
) -> Seq<char> {
    name + "("@ + padded(fields.0, widths.0) + ", "@ + padded(fields.1, widths.1) + ", "@ + padded(
        fields.2,
        widths.2,
    ) + ")"@
}

/// The two texts of a line: shown with its fields filled up to 5, 4 and 4
/// characters, copied without padding.
pub struct Texts {
    pub shown: Seq<char>,
    pub copied: Seq<char>,
}

/// The fields of a hue and two fractions in the notation of CSS: as shown,
/// each is rounded to a whole number; as copied, each has all its places. The
/// fractions are percentages.
pub open spec fn css_fields(t: (int, int, int), shown: bool) -> (Seq<char>, Seq<char>, Seq<char>) {
    let places = if shown {
        Some(0nat)
    } else {
        None
    };
    (
        number_text(t.0 as nat, places, 0, Seq::empty()),
        number_text((100 * t.1) as nat, places, 0, "%"@),
        number_text((100 * t.2) as nat, places, 0, "%"@),
    )
}

/// The fields of three numbers in the structured notation: the first rounded
/// to `first` decimal places (one for a hue, two for a fraction), the other
/// two to two, each written with at least one place.
pub open spec fn ori_fields(t: (int, int, int), first: nat) -> (Seq<char>, Seq<char>, Seq<char>) {
    (
        number_text(t.0 as nat, Some(first), 1, Seq::empty()),
        number_text(t.1 as nat, Some(2nat), 1, Seq::empty()),
        number_text(t.2 as nat, Some(2nat), 1, Seq::empty()),
    )
}

/// A line in the notation of CSS.
pub open spec fn css_line(name: Seq<char>, t: (int, int, int)) -> Texts {
    Texts {
        shown: line_text(name, css_fields(t, true), (5, 4, 4)),
        copied: line_text(name, css_fields(t, false), (0, 0, 0)),
    }
}

/// A line in the structured notation.
pub open spec fn ori_line(name: Seq<char>, t: (int, int, int), first: nat) -> Texts {
    Texts {
        shown: line_text(name, ori_fields(t, first), (5, 4, 4)),
        copied: line_text(name, ori_fields(t, first), (0, 0, 0)),
    }
}

/// The three bytes of a colour, as whole numbers.
pub open spec fn byte_fields(c: Rgb) -> (Seq<char>, Seq<char>, Seq<char>) {
    (
        nat_text(byte_of_channel(c.r) as nat),
        nat_text(byte_of_channel(c.g) as nat),
        nat_text(byte_of_channel(c.b) as nat),
    )
}

/// `hsl(H, S%, L%)`.
pub open spec fn hsl_css_texts(c: Rgb) -> Texts {
    css_line("hsl"@, hsl_of(c))
}

/// `hsv(H, S%, V%)`.
pub open spec fn hsv_css_texts(c: Rgb) -> Texts {
    css_line("hsv"@, hsv_of(c))
}

/// `rgb(R, G, B)`, of bytes.
pub open spec fn rgb_css_texts(c: Rgb) -> Texts {
    Texts {
        shown: line_text("rgb"@, byte_fields(c), (5, 4, 4)),
        copied: line_text("rgb"@, byte_fields(c), (0, 0, 0)),
    }
}

/// `#rrggbb`.
pub open spec fn hex_css_texts(c: Rgb) -> Texts {
    Texts { shown: hex_of(c), copied: hex_of(c) }
}

/// `hsl(H, S, L)`, of a hue in degrees and two fractions.
pub open spec fn ori_hsl_texts(c: Rgb) -> Texts {
    ori_line("hsl"@, hsl_of(c), 1)
}

/// `hsv(H, S, V)`, of a hue in degrees and two fractions.
pub open spec fn ori_hsv_texts(c: Rgb) -> Texts {
    ori_line("hsv"@, hsv_of(c), 1)
}

/// `rgb(R, G, B)`, of fractions.
pub open spec fn ori_rgb_texts(c: Rgb) -> Texts {
    ori_line("rgb"@, (c.r, c.g, c.b), 2)
}

/// `hex("#rrggbb")`.
pub open spec fn ori_hex_texts(c: Rgb) -> Texts {
    let text = "hex(\""@ + hex_of(c) + "\")"@;
    Texts { shown: text, copied: text }
}

/// The four lines of a notation: HSL, HSV, RGB and the hexadecimal form.
pub open spec fn output_texts(c: Rgb, output: Output) -> Seq<Texts> {
    match output {
        Output::Css => seq![hsl_css_texts(c), hsv_css_texts(c), rgb_css_texts(c), hex_css_texts(c)],
        Output::Ori => seq![ori_hsl_texts(c), ori_hsv_texts(c), ori_rgb_texts(c), ori_hex_texts(c)],
    }
}

/// A line of the output: the text that is shown and the text that is copied.
#[derive(Debug, PartialEq, Eq)]
pub struct Copyable {
    pub shown: String,
    pub copied: String,
}

impl View for Copyable {
    type V = Texts;

    open spec fn view(&self) -> Texts {
        Texts { shown: self.shown@, copied: self.copied@ }
    }
}

/// A number as a field.
fn number(x: u64, places: Option<u32>, keep: u32, suffix: &str) -> (res: String)
    requires
        x <= 1_000_000_000_000,
    ensures
        res@ == number_text(
            x as nat,
            match places {
                Some(d) => Some(d as nat),
                None => None,
            },
            keep as nat,
            suffix@,
        ),
{
    let mut out = String::new();
    match places {
        Some(d) => {
            let r: i64 = round(x as i64, d);
            proof {
                lemma_rounded_nonnegative(x as int, d as int);
            }
            push_decimal(&mut out, r as u64, keep);
        },
        None => {
            push_decimal(&mut out, x, keep);
        },
    }
    out.append(suffix);
    out
}

/// A line of three fields after a name.
fn line(name: &str, a: String, b: String, c: String, widths: (usize, usize, usize)) -> (res: String)
    ensures
        res@ == line_text(
            name@,
            (a@, b@, c@),
            (widths.0 as nat, widths.1 as nat, widths.2 as nat),
        ),
{
    let mut out = String::from_str(name);
    out.append("(");
    out.append(pad(a, widths.0).as_str());
    out.append(", ");
    out.append(pad(b, widths.1).as_str());
    out.append(", ");
    out.append(pad(c, widths.2).as_str());
    out.append(")");
    out
}

/// A line in the notation of CSS.
fn css(name: &str, h: u32, s: u32, x: u32) -> (res: Copyable)
    requires
        s <= UNIT,
        x <= UNIT,
    ensures
        res@ == css_line(name@, (h as int, s as int, x as int)),
{
    let shown = line(
        name,
        number(h as u64, Some(0), 0, ""),
        number(100 * s as u64, Some(0), 0, "%"),
        number(100 * x as u64, Some(0), 0, "%"),
        (5, 4, 4),
    );
    let copied = line(
        name,
        number(h as u64, None, 0, ""),
        number(100 * s as u64, None, 0, "%"),
        number(100 * x as u64, None, 0, "%"),
        (0, 0, 0),
    );
    proof {
        reveal_strlit("");
        assert(""@ =~= Seq::<char>::empty());
    }
    Copyable { shown, copied }
}

/// A line in the structured notation.
fn ori(name: &str, h: u32, s: u32, x: u32, first: u32) -> (res: Copyable)
    ensures
        res@ == ori_line(name@, (h as int, s as int, x as int), first as nat),
{
    let shown = line(
        name,
        number(h as u64, Some(first), 1, ""),
        number(s as u64, Some(2), 1, ""),
        number(x as u64, Some(2), 1, ""),
        (5, 4, 4),
    );
    let copied = line(
        name,
        number(h as u64, Some(first), 1, ""),
        number(s as u64, Some(2), 1, ""),
        number(x as u64, Some(2), 1, ""),
        (0, 0, 0),
    );
    proof {
        reveal_strlit("");
        assert(""@ =~= Seq::<char>::empty());
    }
    Copyable { shown, copied }
}

/// A whole number as a field.
fn whole(n: u8) -> (res: String)
    ensures
        res@ == nat_text(n as nat),
{
    let mut out = String::new();
    push_nat(&mut out, n as u64);
    out
}

/// A number that is rounded stays non-negative.
proof fn lemma_rounded_nonnegative(x: int, decimals: int)
    requires
        x >= 0,
    ensures
        rounded(x, decimals) >= 0,
{
    let step = round_step(decimals);
    crate::fixed::lemma_div_round_range(0, step, 0);
    crate::fixed::lemma_div_round_monotonic(0, x, step);
    assert(div_round(x, step) * step >= 0) by (nonlinear_arith)
        requires
            div_round(x, step) >= 0,
            step > 0,
    ;
}

/// The colour as `hsl(H, S%, L%)`.
pub fn hsl_css(data: &Data) -> (res: Copyable)
    ensures
        res@ == hsl_css_texts(data.color@),
{
    let (h, s, l) = data.color.to_hsl();
    css("hsl", h, s, l)
}

/// The colour as `hsv(H, S%, V%)`.
pub fn hsv_css(data: &Data) -> (res: Copyable)
    ensures
        res@ == hsv_css_texts(data.color@),
{
    let (h, s, v) = data.color.to_hsv();
    css("hsv", h, s, v)
}

/// The colour as `rgb(R, G, B)`, of bytes.
pub fn rgb_css(data: &Data) -> (res: Copyable)
    ensures
        res@ == rgb_css_texts(data.color@),
{
    let bytes = data.color.to_rgba8();
    let shown = line("rgb", whole(bytes[0]), whole(bytes[1]), whole(bytes[2]), (5, 4, 4));
    let copied = line("rgb", whole(bytes[0]), whole(bytes[1]), whole(bytes[2]), (0, 0, 0));
    Copyable { shown, copied }
}

/// The colour as `#rrggbb`.
pub fn hex_css(data: &Data) -> (res: Copyable)
    ensures
        res@ == hex_css_texts(data.color@),
{
    Copyable { shown: data.color.to_hex(), copied: data.color.to_hex() }
}

/// The colour as `hsl(H, S, L)`, rounded for reading.
pub fn ori_hsl(data: &Data) -> (res: Copyable)
    ensures
        res@ == ori_hsl_texts(data.color@),
{
    let (h, s, l) = data.color.to_hsl();
    ori("hsl", h, s, l, 1)
}

/// The colour as `hsv(H, S, V)`, rounded for reading.
pub fn ori_hsv(data: &Data) -> (res: Copyable)
    ensures
        res@ == ori_hsv_texts(data.color@),
{
    let (h, s, v) = data.color.to_hsv();
    ori("hsv", h, s, v, 1)
}

/// The colour as `rgb(R, G, B)`, of fractions rounded for reading.
pub fn ori_rgb(data: &Data) -> (res: Copyable)
    ensures
        res@ == ori_rgb_texts(data.color@),
{
    ori("rgb", data.color.r(), data.color.g(), data.color.b(), 2)
}

/// The colour as `hex("#rrggbb")`.
pub fn ori_hex(data: &Data) -> (res: Copyable)
    ensures
        res@ == ori_hex_texts(data.color@),
{
    let mut shown = String::from_str("hex(\"");
    shown.append(data.color.to_hex().as_str());
    shown.append("\")");
    let mut copied = String::from_str("hex(\"");
    copied.append(data.color.to_hex().as_str());
    copied.append("\")");
    Copyable { shown, copied }
}

/// The four lines of the notation that the data selects.
pub fn output(data: &Data) -> (res: [Copyable; 4])
    ensures
        forall|i: int| 0 <= i < 4 ==> (#[trigger] res@[i])@ == output_texts(data.color@, data.output)[i],
{
    match data.output {
        Output::Css => {
            let res = [hsl_css(data), hsv_css(data), rgb_css(data), hex_css(data)];
            assert(res@[0]@ == hsl_css_texts(data.color@));
            assert(res@[1]@ == hsv_css_texts(data.color@));
            assert(res@[2]@ == rgb_css_texts(data.color@));
            assert(res@[3]@ == hex_css_texts(data.color@));
            res
        },
        Output::Ori => {
            let res = [ori_hsl(data), ori_hsv(data), ori_rgb(data), ori_hex(data)];
            assert(res@[0]@ == ori_hsl_texts(data.color@));
            assert(res@[1]@ == ori_hsv_texts(data.color@));
            assert(res@[2]@ == ori_rgb_texts(data.color@));
            assert(res@[3]@ == ori_hex_texts(data.color@));
            res
        },
    }
}

} // verus!
