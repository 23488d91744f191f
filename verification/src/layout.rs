//! Page layout: grid geometry, cut-guide measurements, and the partition of
//! a flattened request sequence into page-sized chunks.

use vstd::prelude::*;
use crate::cards::{CardKey, CardOptions, key_of};

verus! {

/// Width of one card cell in pixels: the canonical raster width of fetched artwork.
pub const CELL_WIDTH: u32 = 745;

/// Height of one card cell in pixels: the canonical raster height of fetched artwork.
pub const CELL_HEIGHT: u32 = 1040;

/// An opaque RGBA color value.
#[derive(Clone, Copy, PartialEq, Eq, Structural, Debug)]
pub struct Color {
    pub r: u8,
    pub g: u8,
    pub b: u8,
    pub a: u8,
}

/// Measurements for laying cards out on a page.
#[derive(Clone, Copy, PartialEq, Eq, Structural, Debug)]
pub struct PageOptions {
    /// Number of rows of cards per page.
    pub rows: u32,
    /// Number of columns of cards per page.
    pub cols: u32,
    /// Half the length of a cut-guide mark; also the canvas margin around the grid.
    pub line_len: u32,
    /// Half the width of a cut-guide mark.
    pub line_width: u32,
    /// Color of cut-guide marks.
    pub line_color: Color,
    /// Number of pixels of black background bleed around the grid.
    pub black_bleed: u32,
    /// Width of the page in document units.
    pub page_width: u32,
    /// Height of the page in document units.
    pub page_height: u32,
}

impl PageOptions {
    /// Pixel width of a composed page canvas.
    pub open spec fn canvas_width(self) -> int {
        self.cols * CELL_WIDTH + 2 * self.line_len
    }

    /// Pixel height of a composed page canvas.
    pub open spec fn canvas_height(self) -> int {
        self.rows * CELL_HEIGHT + 2 * self.line_len
    }

    /// A layout the pipeline accepts: a non-empty grid, guide marks that fit
    /// inside the canvas margin, bleed no wider than the margin, and
    /// dimensions small enough that every intermediate of the fixed-point
    /// arithmetic below fits its machine type.
    pub open spec fn valid(self) -> bool {
        &&& 1 <= self.rows
        &&& 1 <= self.cols
        &&& self.rows * self.cols <= u32::MAX
        &&& 1 <= self.line_width <= self.line_len
        &&& self.black_bleed <= self.line_len
        &&& self.canvas_width() * 72 <= u32::MAX
        &&& self.canvas_height() * 72 <= u32::MAX
        &&& self.canvas_width() * self.canvas_height() * 4 <= usize::MAX
        &&& self.canvas_width() * 72 / 298 <= self.page_width
        &&& self.canvas_height() * 72 / 297 <= self.page_height
    }

    /// Grid capacity: the number of card cells on one page.
    pub fn card_count(&self) -> (r: u32)
        requires
            self.valid(),
        ensures
            r == self.rows * self.cols,
            1 <= r,
    {
        proof {
            assert(1 <= self.rows * self.cols) by (nonlinear_arith)
                requires 1 <= self.rows, 1 <= self.cols;
        }
        self.rows * self.cols
    }
}

/// The default layout: a 3×3 grid with letter-sized pages.
pub open spec fn default_options() -> PageOptions {
    PageOptions {
        rows: 3,
        cols: 3,
        line_len: 40,
        line_width: 1,
        line_color: Color { r: 0x7f, g: 0x7f, b: 0x7f, a: 0xff },
        black_bleed: 8,
        page_width: 595,
        page_height: 792,
    }
}

impl Default for PageOptions {
    /// Default options when printing.
    fn default() -> (r: Self)
        ensures
            r == default_options(),
            r.valid(),
    {
        let r = PageOptions {
            rows: 3,
            cols: 3,
            line_len: 40,
            line_width: 1,
            line_color: Color { r: 0x7f, g: 0x7f, b: 0x7f, a: 0xff },
            black_bleed: 8,
            page_width: 595,
            page_height: 792,
        };
        proof {
            let o = default_options();
            assert(o.canvas_width() == 2315);
            assert(o.canvas_height() == 3200);
            assert(o.valid());
        }
        r
    }
}

/// The flattened key sequence of a request list: each request expanded into
/// `quantity` copies of its key, in input order.
pub open spec fn expanded_keys(cards: Seq<CardOptions>) -> Seq<CardKey>
    decreases cards.len(),
{
    if cards.len() == 0 {
        Seq::empty()
    } else {
        expanded_keys(cards.drop_last()) + Seq::new(cards.last().quantity as nat, |i: int| key_of(cards.last()))
    }
}

/// Number of pages needed for `n` cells at `cap` cells per page: ⌈n / cap⌉.
pub open spec fn page_count_of(n: int, cap: int) -> int {
    (n + cap - 1) / cap
}

/// The cells of page `j`: the `j`-th capacity-sized slice of the flattened sequence.
pub open spec fn chunk_at<T>(s: Seq<T>, cap: int, j: int) -> Seq<T> {
    s.subrange(j * cap, if j * cap + cap <= s.len() { j * cap + cap } else { s.len() as int })
}

/// The partition of the flattened sequence into page-sized chunks, in order.
pub open spec fn chunks_of<T>(s: Seq<T>, cap: int) -> Seq<Seq<T>> {
    Seq::new(page_count_of(s.len() as int, cap) as nat, |j: int| chunk_at(s, cap, j))
}

/// Law: for a grid of capacity `cap` and `n` requested units in total, the
/// page count is exactly ⌈n / cap⌉, and zero units yield zero pages; every
/// page but the last is full, and the last page is never empty nor padded
/// beyond capacity.
pub proof fn lemma_page_count<T>(s: Seq<T>, cap: int)
    requires
        cap >= 1,
    ensures
        chunks_of(s, cap).len() == (s.len() + cap - 1) / cap,
        s.len() == 0 ==> chunks_of(s, cap).len() == 0,
        s.len() >= 1 ==> chunks_of(s, cap).len() >= 1,
        forall|j: int| 0 <= j < chunks_of(s, cap).len() - 1 ==> (#[trigger] chunks_of(s, cap)[j]).len() == cap,
        chunks_of(s, cap).len() >= 1 ==> {
            let last = chunks_of(s, cap)[chunks_of(s, cap).len() - 1];
            1 <= last.len() <= cap
        },
{
    let n = s.len() as int;
    let pc = page_count_of(n, cap);
    if n == 0 {
        assert(pc == 0) by (nonlinear_arith)
            requires cap >= 1, n == 0, pc == (n + cap - 1) / cap;
    }
    if n >= 1 {
        assert(pc >= 1) by (nonlinear_arith)
            requires cap >= 1, n >= 1, pc == (n + cap - 1) / cap;
    }
    assert forall|j: int| 0 <= j < pc - 1 implies (#[trigger] chunks_of(s, cap)[j]).len() == cap by {
        assert(j * cap + cap <= n) by (nonlinear_arith)
            requires cap >= 1, j >= 0, j < (n + cap - 1) / cap - 1;
        assert(j * cap >= 0) by (nonlinear_arith)
            requires j >= 0, cap >= 1;
    }
    if pc >= 1 {
        let j = pc - 1;
        assert(0 <= j * cap < n && n - j * cap <= cap) by (nonlinear_arith)
            requires cap >= 1, n >= 1, j == (n + cap - 1) / cap - 1;
    }
}

/// Element `l` of chunk `j` is flattened entry `j·cap + l`.
pub proof fn lemma_chunk_index<T>(flat: Seq<T>, cap: int, j: int, l: int)
    requires
        cap >= 1,
        j >= 0,
        j * cap <= flat.len(),
        0 <= l < chunk_at(flat, cap, j).len(),
    ensures
        0 <= j * cap + l < flat.len(),
        chunk_at(flat, cap, j)[l] == flat[j * cap + l],
{
    assert(j * cap >= 0) by (nonlinear_arith)
        requires j >= 0, cap >= 1;
    let start = j * cap;
    let end = if start + cap <= flat.len() { start + cap } else { flat.len() as int };
    assert(chunk_at(flat, cap, j) == flat.subrange(start, end));
    assert(chunk_at(flat, cap, j)[l] == flat[start + l]);
}

/// Flattened entry `i` is element `i % cap` of chunk `i / cap`, and that
/// chunk exists.
pub proof fn lemma_index_chunk<T>(flat: Seq<T>, cap: int, i: int)
    requires
        cap >= 1,
        0 <= i < flat.len(),
    ensures
        0 <= i / cap < page_count_of(flat.len() as int, cap),
        0 <= i % cap < chunk_at(flat, cap, i / cap).len(),
        chunk_at(flat, cap, i / cap)[i % cap] == flat[i],
{
    let n = flat.len() as int;
    assert(0 <= i / cap && 0 <= i % cap < cap && (i / cap) * cap + (i % cap) == i
        && i / cap < (n + cap - 1) / cap) by (nonlinear_arith)
        requires cap >= 1, 0 <= i < n;
    let start = (i / cap) * cap;
    let end = if start + cap <= n { start + cap } else { n };
    assert(chunk_at(flat, cap, i / cap) == flat.subrange(start, end));
    assert(start + (i % cap) == i && i < end);
    assert(chunk_at(flat, cap, i / cap)[i % cap] == flat[i]);
}

} // verus!
