//! Strokes and images moved from page coordinates onto the continuous canvas,
//! where page `i` starts `i` canvas heights down.

use vstd::prelude::*;
use crate::hex::Rgba;

verus! {

/// One pen sample: a position and the pen pressure, in fixed-point units.
#[derive(Clone, Copy, Debug, PartialEq, Eq, Structural)]
pub struct Sample {
    pub x: i64,
    pub y: i64,
    pub pressure: u64,
}

/// A stroke as recorded on one page.
#[derive(Debug)]
pub struct StrokeRecord {
    pub points: Vec<Sample>,
    pub color: Rgba,
    pub box_width: u64,
    pub box_height: u64,
    pub ignore_pressure: bool,
}

/// How the pen width follows pressure.
#[derive(Clone, Copy, Debug, PartialEq, Eq, Structural)]
pub enum PressureCurve {
    Const,
    Linear,
}

/// A stroke ready for the document: canvas points, color, width and pressure response.
#[derive(Debug)]
pub struct PlacedStroke {
    pub points: Vec<Sample>,
    pub color: Rgba,
    pub width: u64,
    pub pressure_curve: PressureCurve,
}

/// How far down the canvas page `index` starts.
pub open spec fn page_offset(index: int, height: int) -> int {
    index * height
}

pub open spec fn shift(p: Sample, off: int) -> Sample {
    Sample { x: p.x, y: (p.y + off) as i64, pressure: p.pressure }
}

/// Every sample, moved down by `off`, still fits the coordinate type.
pub open spec fn shift_fits(points: Seq<Sample>, off: int) -> bool {
    forall|i: int| 0 <= i < points.len() ==> i64::MIN <= #[trigger] points[i].y + off <= i64::MAX
}

pub open spec fn shifted(points: Seq<Sample>, off: int) -> Seq<Sample> {
    points.map_values(|p: Sample| shift(p, off))
}

pub open spec fn stroke_width(s: StrokeRecord) -> u64 {
    if s.box_height >= s.box_width { s.box_height } else { s.box_width }
}

pub open spec fn curve_of(ignore_pressure: bool) -> PressureCurve {
    if ignore_pressure { PressureCurve::Const } else { PressureCurve::Linear }
}

/// Whether a stroke of page `index` can be placed on a canvas `height` tall.
pub open spec fn stroke_fits(s: StrokeRecord, index: int, height: int) -> bool {
    &&& page_offset(index, height) <= i64::MAX
    &&& shift_fits(s.points@, page_offset(index, height))
}

/// The offset of page `index` on a canvas `height` tall; `None` when it does
/// not fit the coordinate type.
pub fn offset_of_page(index: u64, height: u64) -> (r: Option<i64>)
    ensures
        r is Some <==> page_offset(index as int, height as int) <= i64::MAX,
        r matches Some(off) ==> off == page_offset(index as int, height as int),
{
    match index.checked_mul(height) {
        Some(v) => {
            if v <= i64::MAX as u64 {
                Some(v as i64)
            } else {
                None
            }
        },
        None => {
            proof {
                vstd::arithmetic::mul::lemma_mul_nonnegative(index as int, height as int);
            }
            None
        },
    }
}

fn shift_points(points: &Vec<Sample>, off: i64) -> (r: Option<Vec<Sample>>)
    ensures
        r is Some <==> shift_fits(points@, off as int),
        r matches Some(v) ==> v@ == shifted(points@, off as int),
{
    let mut out: Vec<Sample> = Vec::new();
    let mut i: usize = 0;
    while i < points.len()
        invariant
            0 <= i <= points@.len(),
            shift_fits(points@.subrange(0, i as int), off as int),
            out@ == shifted(points@.subrange(0, i as int), off as int),
        decreases points@.len() - i,
    {
        let p = points[i];
        let ghost before = points@.subrange(0, i as int);
        let ghost after = points@.subrange(0, i + 1);
        match p.y.checked_add(off) {
            Some(y) => {
                out.push(Sample { x: p.x, y, pressure: p.pressure });
                assert forall|j: int| 0 <= j < after.len() implies i64::MIN <= #[trigger] after[j].y
                    + off <= i64::MAX by {
                    if j < i {
                        assert(after[j] == before[j]);
                    }
                }
                assert(out@ =~= shifted(after, off as int));
            },
            None => {
                assert(points@[i as int].y + off < i64::MIN || points@[i as int].y + off > i64::MAX);
                return None;
            },
        }
        i += 1;
    }
    assert(points@.subrange(0, points@.len() as int) =~= points@);
    Some(out)
}

/// Builds the stroke of page `page_index` on a canvas `canvas_height` tall:
/// samples move down by the page's offset, the width is the larger side of the
/// stroke's box, and pressure is ignored or followed linearly. `None` when a
/// moved coordinate does not fit.
pub fn place_stroke(stroke: &StrokeRecord, page_index: u64, canvas_height: u64) -> (r: Option<
    PlacedStroke,
>)
    ensures
        r is Some <==> stroke_fits(*stroke, page_index as int, canvas_height as int),
        r matches Some(ps) ==> {
            &&& ps.points@ == shifted(
                stroke.points@,
                page_offset(page_index as int, canvas_height as int),
            )
            &&& ps.color == stroke.color
            &&& ps.width == stroke_width(*stroke)
            &&& ps.pressure_curve == curve_of(stroke.ignore_pressure)
        },
{
    let off = match offset_of_page(page_index, canvas_height) {
        Some(off) => off,
        None => return None,
    };
    let points = match shift_points(&stroke.points, off) {
        Some(v) => v,
        None => return None,
    };
    let width = if stroke.box_height >= stroke.box_width {
        stroke.box_height
    } else {
        stroke.box_width
    };
    let pressure_curve = if stroke.ignore_pressure {
        PressureCurve::Const
    } else {
        PressureCurve::Linear
    };
    Some(PlacedStroke { points, color: stroke.color, width, pressure_curve })
}

/// A requested image side: a given length, or one to derive from the image's
/// own aspect ratio.
#[derive(Clone, Copy, Debug, PartialEq, Eq, Structural)]
pub enum Dim {
    Explicit(u64),
    Derive,
}

/// The size an image is drawn at, from the requested sides and the image's
/// pixel size `pw` by `ph`. A derived width is `height * pw / ph`, a derived
/// height `width * ph / pw`, both rounded down. Nothing when both sides are to
/// be derived, or when the needed pixel side is 0.
pub open spec fn resolved_size(width: Dim, height: Dim, pw: int, ph: int) -> Option<(int, int)> {
    match (width, height) {
        (Dim::Explicit(w), Dim::Explicit(h)) => Some((w as int, h as int)),
        (Dim::Derive, Dim::Explicit(h)) => if ph == 0 {
            None
        } else {
            Some(((h as int * pw) / ph, h as int))
        },
        (Dim::Explicit(w), Dim::Derive) => if pw == 0 {
            None
        } else {
            Some((w as int, (w as int * ph) / pw))
        },
        (Dim::Derive, Dim::Derive) => None,
    }
}

pub open spec fn size_fits(s: Option<(int, int)>) -> bool {
    s matches Some(p) && p.0 <= u64::MAX && p.1 <= u64::MAX
}

fn scale(v: u64, num: u64, den: u64) -> (r: Option<u64>)
    requires
        den > 0,
    ensures
        r is Some <==> (v as int * num as int) / (den as int) <= u64::MAX,
        r matches Some(x) ==> x == (v as int * num as int) / (den as int),
{
    proof {
        vstd::arithmetic::mul::lemma_mul_upper_bound(
            v as int,
            u64::MAX as int,
            num as int,
            u64::MAX as int,
        );
    }
    let prod: u128 = (v as u128) * (num as u128);
    let q: u128 = prod / (den as u128);
    if q <= u64::MAX as u128 {
        Some(q as u64)
    } else {
        None
    }
}

/// The drawn size of an image; `None` exactly when `resolved_size` gives
/// nothing or a side that does not fit in 64 bits.
pub fn resolve_size(width: Dim, height: Dim, pixel_width: u64, pixel_height: u64) -> (r: Option<
    (u64, u64),
>)
    ensures
        r is Some <==> size_fits(
            resolved_size(width, height, pixel_width as int, pixel_height as int),
        ),
        r matches Some(s) ==> resolved_size(width, height, pixel_width as int, pixel_height as int)
            == Some((s.0 as int, s.1 as int)),
{
    match (width, height) {
        (Dim::Explicit(w), Dim::Explicit(h)) => Some((w, h)),
        (Dim::Derive, Dim::Explicit(h)) => {
            if pixel_height == 0 {
                return None;
            }
            match scale(h, pixel_width, pixel_height) {
                Some(w) => Some((w, h)),
                None => None,
            }
        },
        (Dim::Explicit(w), Dim::Derive) => {
            if pixel_width == 0 {
                return None;
            }
            match scale(w, pixel_height, pixel_width) {
                Some(h) => Some((w, h)),
                None => None,
            }
        },
        (Dim::Derive, Dim::Derive) => None,
    }
}

/// A rectangle on the canvas, from its top-left to its bottom-right corner.
#[derive(Clone, Copy, Debug, PartialEq, Eq, Structural)]
pub struct Rect {
    pub x0: i64,
    pub y0: i64,
    pub x1: i64,
    pub y1: i64,
}

pub open spec fn fits_i64(v: int) -> bool {
    i64::MIN <= v <= i64::MAX
}

/// Where an image at page position (`x`, `y`) of page `index`, drawn
/// `width` by `height`, lands on a canvas `canvas_height` tall.
pub open spec fn image_rect(x: int, y: int, width: int, height: int, index: int, canvas_height: int) -> (int, int, int, int) {
    let top = y + page_offset(index, canvas_height);
    (x, top, x + width, top + height)
}

pub open spec fn rect_fits(c: (int, int, int, int)) -> bool {
    fits_i64(c.0) && fits_i64(c.1) && fits_i64(c.2) && fits_i64(c.3)
}

/// Places an image on the canvas; `None` exactly when a corner, or the
/// page's offset, does not fit the coordinate type.
pub fn place_image(x: i64, y: i64, width: u64, height: u64, page_index: u64, canvas_height: u64) -> (r:
    Option<Rect>)
    ensures
        r is Some <==> page_offset(page_index as int, canvas_height as int) <= i64::MAX
            && rect_fits(
            image_rect(x as int, y as int, width as int, height as int, page_index as int, canvas_height as int),
        ),
        r matches Some(rect) ==> image_rect(
            x as int,
            y as int,
            width as int,
            height as int,
            page_index as int,
            canvas_height as int,
        ) == (rect.x0 as int, rect.y0 as int, rect.x1 as int, rect.y1 as int),
{
    let off = match offset_of_page(page_index, canvas_height) {
        Some(off) => off,
        None => return None,
    };
    let top = match y.checked_add(off) {
        Some(t) => t,
        None => return None,
    };
    let right: i128 = x as i128 + width as i128;
    let bottom: i128 = top as i128 + height as i128;
    if right > i64::MAX as i128 || bottom > i64::MAX as i128 {
        return None;
    }
    let right = right as i64;
    let bottom = bottom as i64;
    Some(Rect { x0: x, y0: top, x1: right, y1: bottom })
}

} // verus!
