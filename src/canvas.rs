//! The one canvas that all pages of a book share.

use vstd::prelude::*;
use crate::hex::Rgba;
use crate::records::{CanvasStyle, Page};

verus! {

/// The grid drawn behind every page.
#[derive(Clone, Copy, Debug, PartialEq, Eq, Structural)]
pub struct Grid {
    pub size: u64,
    pub color: Rgba,
}

/// Document settings for a book: the canvas size of one page, the
/// background color, and a grid when any page asks for one. A grid also
/// means that pages are laid out one below the other without breaks.
#[derive(Clone, Copy, Debug, PartialEq, Eq, Structural)]
pub struct CanvasPlan {
    pub width: u64,
    pub height: u64,
    pub background: Rgba,
    pub grid: Option<Grid>,
}

pub open spec fn no_color() -> Rgba {
    Rgba { r: 0, g: 0, b: 0, a: 0 }
}

pub open spec fn max_width(pages: Seq<Page>) -> int
    decreases pages.len(),
{
    if pages.len() == 0 {
        0
    } else {
        let w = max_width(pages.drop_last());
        if pages.last().width > w { pages.last().width as int } else { w }
    }
}

pub open spec fn max_height(pages: Seq<Page>) -> int
    decreases pages.len(),
{
    if pages.len() == 0 {
        0
    } else {
        let h = max_height(pages.drop_last());
        if pages.last().height > h { pages.last().height as int } else { h }
    }
}

pub open spec fn any_grid(pages: Seq<Page>) -> bool {
    exists|i: int| 0 <= i < pages.len() && #[trigger] pages[i].style == CanvasStyle::Grid
}

/// The smallest multiple of `g` that is at least `h`; `h` itself when `g` is 0.
pub open spec fn round_up(h: int, g: int) -> int {
    if g == 0 {
        h
    } else {
        ((h + g - 1) / g) * g
    }
}

/// The settings of the last page win: background, grid size and grid color.
pub open spec fn last_color(pages: Seq<Page>) -> Rgba {
    if pages.len() == 0 { no_color() } else { pages.last().color }
}

pub open spec fn last_grid(pages: Seq<Page>) -> Grid {
    if pages.len() == 0 {
        Grid { size: 0, color: no_color() }
    } else {
        Grid { size: pages.last().grid_size, color: pages.last().lines_color }
    }
}

/// The canvas height: the tallest page, rounded up to the grid when there is one.
pub open spec fn planned_height(pages: Seq<Page>) -> int {
    if any_grid(pages) {
        round_up(max_height(pages), last_grid(pages).size as int)
    } else {
        max_height(pages)
    }
}

/// The plan for a book's pages, given that its height fits in 64 bits.
pub open spec fn planned(pages: Seq<Page>) -> CanvasPlan {
    CanvasPlan {
        width: max_width(pages) as u64,
        height: planned_height(pages) as u64,
        background: last_color(pages),
        grid: if any_grid(pages) { Some(last_grid(pages)) } else { None },
    }
}

proof fn lemma_max_bounds(pages: Seq<Page>)
    ensures
        0 <= max_width(pages) <= u64::MAX,
        0 <= max_height(pages) <= u64::MAX,
    decreases pages.len(),
{
    if pages.len() > 0 {
        lemma_max_bounds(pages.drop_last());
    }
}

/// The grid case rounds the height up to the least multiple of the grid size
/// that holds the tallest page.
pub proof fn lemma_grid_height(h: int, g: int)
    requires
        h >= 0,
        g > 0,
    ensures
        round_up(h, g) >= h,
        round_up(h, g) < h + g,
        round_up(h, g) % g == 0,
{
    let q = (h + g - 1) / g;
    assert(q * g <= h + g - 1 && h + g - 1 < q * g + g) by (nonlinear_arith)
        requires
            q == (h + g - 1) / g,
            g > 0,
            h >= 0,
    ;
    assert((q * g) % g == 0) by (nonlinear_arith)
        requires
            g > 0,
    ;
}

/// Plans the canvas of a book from its ordered pages; `None` when the
/// rounded height does not fit in 64 bits.
pub fn plan_canvas(pages: &Vec<Page>) -> (r: Option<CanvasPlan>)
    ensures
        r is Some <==> planned_height(pages@) <= u64::MAX,
        r matches Some(plan) ==> plan == planned(pages@),
{
    let mut width: u64 = 0;
    let mut height: u64 = 0;
    let mut grid_seen = false;
    let mut i: usize = 0;
    while i < pages.len()
        invariant
            0 <= i <= pages@.len(),
            width == max_width(pages@.subrange(0, i as int)),
            height == max_height(pages@.subrange(0, i as int)),
            grid_seen == any_grid(pages@.subrange(0, i as int)),
        decreases pages@.len() - i,
    {
        let ghost before = pages@.subrange(0, i as int);
        let ghost after = pages@.subrange(0, i + 1);
        assert(after.drop_last() =~= before);
        proof {
            if grid_seen {
                let k = choose|k: int| 0 <= k < before.len() && #[trigger] before[k].style
                    == CanvasStyle::Grid;
                assert(after[k] == before[k]);
            }
            if any_grid(after) && !grid_seen {
                let k = choose|k: int| 0 <= k < after.len() && #[trigger] after[k].style
                    == CanvasStyle::Grid;
                if k < i {
                    assert(before[k] == after[k]);
                }
            }
        }
        let p = &pages[i];
        if p.width > width {
            width = p.width;
        }
        if p.height > height {
            height = p.height;
        }
        grid_seen = grid_seen || p.style == CanvasStyle::Grid;
        assert(after[i as int] == pages@[i as int]);
        i += 1;
    }
    assert(pages@.subrange(0, pages@.len() as int) =~= pages@);
    let n = pages.len();
    let background = if n == 0 { Rgba { r: 0, g: 0, b: 0, a: 0 } } else { pages[n - 1].color };
    if !grid_seen {
        return Some(CanvasPlan { width, height, background, grid: None });
    }
    let grid = if n == 0 {
        Grid { size: 0, color: Rgba { r: 0, g: 0, b: 0, a: 0 } }
    } else {
        Grid { size: pages[n - 1].grid_size, color: pages[n - 1].lines_color }
    };
    if grid.size == 0 {
        return Some(CanvasPlan { width, height, background, grid: Some(grid) });
    }
    let g = grid.size;
    proof {
        let hh = height as int;
        let gg = g as int;
        vstd::arithmetic::div_mod::lemma_fundamental_div_mod(hh, gg);
        assert(hh % gg != 0 ==> hh / gg < u64::MAX) by (nonlinear_arith)
            requires
                gg > 0,
                hh >= 0,
                hh <= u64::MAX,
                (hh / gg) * gg + hh % gg == hh,
                0 <= hh % gg < gg,
        ;
    }
    let q = if height % g == 0 { height / g } else { height / g + 1 };
    proof {
        let hh = height as int;
        let gg = g as int;
        assert(q == (hh + gg - 1) / gg) by (nonlinear_arith)
            requires
                gg > 0,
                hh >= 0,
                q == if hh % gg == 0 { hh / gg } else { hh / gg + 1 },
        ;
    }
    match q.checked_mul(g) {
        Some(rounded) => Some(CanvasPlan { width, height: rounded, background, grid: Some(grid) }),
        None => None,
    }
}

} // verus!
