//! The page compositor: one grid page of card artwork from one chunk of
//! raw image bytes.
//!
//! A page is built in four layers, each pinned down as a pixel mapping:
//! a white canvas, a black bleed rectangle behind the grid, the card cells
//! in row-major order (blank white cells pad a short chunk), and finally a
//! cut-guide mark at every grid intersection, outer border included.

use vstd::prelude::*;
use crate::layout::{PageOptions, Color, CELL_WIDTH, CELL_HEIGHT};
use crate::error::PrintError;
use crate::raster::{
    Raster, raster_pixels, raster_width, raster_height, png_of, rgb_flat_of,
    fill_map, overlay_map, fill_rect_map, grid_dom,
    img_filled, img_dims, img_overlay, img_draw_rect, decode_png, rgb_bytes,
};

verus! {

/// The blank color: opaque white, used for the canvas and padding cells.
pub open spec fn white() -> Color {
    Color { r: 0xff, g: 0xff, b: 0xff, a: 0xff }
}

/// The bleed color: opaque black, laid behind the grid area.
pub open spec fn black() -> Color {
    Color { r: 0x00, g: 0x00, b: 0x00, a: 0xff }
}

/// The byte sequences of a chunk of owned byte vectors.
pub open spec fn views_of(chunk: Seq<Vec<u8>>) -> Seq<Seq<u8>> {
    chunk.map_values(|v: Vec<u8>| v@)
}

/// Whether one cell's bytes decode to a card-sized raster.
pub open spec fn cell_ok(bytes: Seq<u8>) -> bool {
    png_of(bytes).ok && png_of(bytes).width == CELL_WIDTH && png_of(bytes).height == CELL_HEIGHT
}

/// Whether every cell of the chunk decodes; composing succeeds exactly then.
pub open spec fn chunk_ok(chunk: Seq<Seq<u8>>) -> bool {
    forall|k: int| 0 <= k < chunk.len() ==> cell_ok(#[trigger] chunk[k])
}

/// The pixels of grid slot `k`: the decoded cell, or a blank padding cell
/// past the end of the chunk.
pub open spec fn cell_map(chunk: Seq<Seq<u8>>, k: int) -> Map<(int, int), Color> {
    if k < chunk.len() {
        png_of(chunk[k]).pixels
    } else {
        fill_map(CELL_WIDTH as int, CELL_HEIGHT as int, white())
    }
}

/// The canvas before any cell is laid: white, with the black bleed
/// rectangle composited behind the grid area.
pub open spec fn base_pixels(o: PageOptions) -> Map<(int, int), Color> {
    overlay_map(
        fill_map(o.canvas_width(), o.canvas_height(), white()),
        fill_map(o.cols * CELL_WIDTH + 2 * o.black_bleed, o.rows * CELL_HEIGHT + 2 * o.black_bleed, black()),
        o.cols * CELL_WIDTH + 2 * o.black_bleed,
        o.rows * CELL_HEIGHT + 2 * o.black_bleed,
        o.line_len - o.black_bleed,
        o.line_len - o.black_bleed,
    )
}

/// Pixel x of grid slot `k` (row-major).
pub open spec fn cell_x(o: PageOptions, k: int) -> int {
    (k % (o.cols as int)) * CELL_WIDTH + o.line_len
}

/// Pixel y of grid slot `k` (row-major).
pub open spec fn cell_y(o: PageOptions, k: int) -> int {
    (k / (o.cols as int)) * CELL_HEIGHT + o.line_len
}

/// The canvas after the first `k` grid slots have been laid.
pub open spec fn after_cells(chunk: Seq<Seq<u8>>, o: PageOptions, k: int) -> Map<(int, int), Color>
    decreases k,
{
    if k <= 0 {
        base_pixels(o)
    } else {
        overlay_map(
            after_cells(chunk, o, k - 1),
            cell_map(chunk, k - 1),
            CELL_WIDTH as int,
            CELL_HEIGHT as int,
            cell_x(o, k - 1),
            cell_y(o, k - 1),
        )
    }
}

/// Pixel x of the vertical grid line `i` (0 through `cols`).
pub open spec fn guide_x(o: PageOptions, i: int) -> int {
    o.line_len + i * CELL_WIDTH
}

/// Pixel y of the horizontal grid line `j` (0 through `rows`).
pub open spec fn guide_y(o: PageOptions, j: int) -> int {
    o.line_len + j * CELL_HEIGHT
}

/// The canvas after the first `g` of the `(cols+1)·(rows+1)` cut-guide
/// intersections have been marked; each mark is a horizontal and a vertical
/// segment centered on the intersection.
pub open spec fn after_guides(chunk: Seq<Seq<u8>>, o: PageOptions, g: int) -> Map<(int, int), Color>
    decreases g,
{
    if g <= 0 {
        after_cells(chunk, o, (o.rows * o.cols) as int)
    } else {
        let i = (g - 1) / ((o.rows + 1) as int);
        let j = (g - 1) % ((o.rows + 1) as int);
        let with_h = fill_rect_map(
            after_guides(chunk, o, g - 1),
            i * CELL_WIDTH,
            guide_y(o, j) - o.line_width,
            2 * o.line_len,
            2 * o.line_width,
            o.line_color,
        );
        fill_rect_map(
            with_h,
            guide_x(o, i) - o.line_width,
            j * CELL_HEIGHT,
            2 * o.line_width,
            2 * o.line_len,
            o.line_color,
        )
    }
}

/// The finished page canvas: all cells laid and all guides marked.
pub open spec fn page_pixels(chunk: Seq<Seq<u8>>, o: PageOptions) -> Map<(int, int), Color> {
    after_guides(chunk, o, ((o.cols + 1) * (o.rows + 1)) as int)
}

/// The finished page flattened to opaque RGB bytes.
pub open spec fn page_data_spec(chunk: Seq<Seq<u8>>, o: PageOptions) -> Seq<u8> {
    rgb_flat_of(o.canvas_width() as u32, o.canvas_height() as u32, page_pixels(chunk, o))
}

/// One composed raster page, as opaque RGB bytes with its dimensions.
#[derive(Debug)]
pub struct Page {
    pub width: u32,
    pub height: u32,
    pub data: Vec<u8>,
}

proof fn mul_le(a: int, b: int, c: int)
    requires
        0 <= a <= b,
        0 <= c,
    ensures
        a * c <= b * c,
{
    assert(a * c <= b * c) by (nonlinear_arith)
        requires 0 <= a <= b, 0 <= c;
}

proof fn divmod_id(j: int, i: int, c: int)
    requires
        0 <= i < c,
        0 <= j,
    ensures
        (j * c + i) / c == j,
        (j * c + i) % c == i,
        0 <= j * c + i,
{
    assert((j * c + i) / c == j && (j * c + i) % c == i && 0 <= j * c + i) by (nonlinear_arith)
        requires 0 <= i < c, 0 <= j;
}

/// Compose one page from a chunk of raw PNG byte blobs (at most grid
/// capacity many). Succeeds if and only if every cell decodes to a
/// card-sized raster; the canvas then measures exactly
/// `cols·745 + 2·line_len` by `rows·1040 + 2·line_len` pixels and its
/// contents are the layered composition `page_pixels`.
pub fn compose_page(chunk: &Vec<Vec<u8>>, options: &PageOptions) -> (r: Result<Page, PrintError>)
    requires
        options.valid(),
        chunk@.len() <= options.rows * options.cols,
    ensures
        match r {
            Ok(page) => {
                &&& chunk_ok(views_of(chunk@))
                &&& page.width == options.canvas_width()
                &&& page.height == options.canvas_height()
                &&& page.data@ == page_data_spec(views_of(chunk@), *options)
                &&& page.data@.len() == 3 * options.canvas_width() * options.canvas_height()
            },
            Err(e) => e == PrintError::DecodeFailure && !chunk_ok(views_of(chunk@)),
        },
{
    let ghost o = *options;
    let ghost views = views_of(chunk@);
    let rows = options.rows;
    let cols = options.cols;
    let ll = options.line_len;
    let lw = options.line_width;
    let pad = options.black_bleed;
    let cap = options.card_count();

    proof {
        assert(views.len() == chunk@.len());
        assert(cols * CELL_WIDTH <= o.canvas_width());
        assert(rows * CELL_HEIGHT <= o.canvas_height());
        assert(o.canvas_width() <= u32::MAX && o.canvas_height() <= u32::MAX) by {
            assert(o.canvas_width() <= o.canvas_width() * 72) by (nonlinear_arith)
                requires o.canvas_width() >= 0;
            assert(o.canvas_height() <= o.canvas_height() * 72) by (nonlinear_arith)
                requires o.canvas_height() >= 0;
        }
    }

    // Decode every cell of the chunk.
    let mut images: Vec<Raster> = Vec::new();
    let mut k: usize = 0;
    while k < chunk.len()
        invariant
            0 <= k <= chunk@.len(),
            views == views_of(chunk@),
            views.len() == chunk@.len(),
            images@.len() == k,
            forall|l: int| 0 <= l < k ==> cell_ok(#[trigger] views[l]),
            forall|l: int| 0 <= l < k ==> raster_pixels(#[trigger] images@[l]) == cell_map(views, l)
                && raster_width(images@[l]) == CELL_WIDTH
                && raster_height(images@[l]) == CELL_HEIGHT,
        decreases chunk@.len() - k,
    {
        proof {
            assert(views[k as int] == chunk@[k as int]@);
        }
        let img = match decode_png(&chunk[k]) {
            Ok(img) => img,
            Err(e) => {
                proof {
                    assert(!cell_ok(views[k as int]));
                }
                return Err(e);
            }
        };
        let dims = img_dims(&img);
        if dims.0 != CELL_WIDTH || dims.1 != CELL_HEIGHT {
            proof {
                assert(!cell_ok(views[k as int]));
            }
            return Err(PrintError::DecodeFailure);
        }
        images.push(img);
        k += 1;
    }

    // Pad with blank white cells up to grid capacity.
    proof {
        assert(CELL_WIDTH * CELL_HEIGHT * 4 <= usize::MAX) by (nonlinear_arith);
    }
    while images.len() < cap as usize
        invariant
            views.len() == chunk@.len() <= images@.len() <= cap,
            cap == o.rows * o.cols,
            o.valid(),
            forall|l: int| 0 <= l < images@.len() ==> raster_pixels(#[trigger] images@[l]) == cell_map(views, l)
                && raster_width(images@[l]) == CELL_WIDTH
                && raster_height(images@[l]) == CELL_HEIGHT,
        decreases cap - images.len(),
    {
        let blank = img_filled(CELL_WIDTH, CELL_HEIGHT, Color { r: 0xff, g: 0xff, b: 0xff, a: 0xff });
        images.push(blank);
    }

    // The canvas, with the black bleed rectangle behind the grid area.
    proof {
        assert(o.canvas_width() * o.canvas_height() * 4 <= usize::MAX);
    }
    let cw = cols * CELL_WIDTH + 2 * ll;
    let ch = rows * CELL_HEIGHT + 2 * ll;
    let mut canvas = img_filled(cw, ch, Color { r: 0xff, g: 0xff, b: 0xff, a: 0xff });
    let bw = cols * CELL_WIDTH + 2 * pad;
    let bh = rows * CELL_HEIGHT + 2 * pad;
    proof {
        assert(bw * bh * 4 <= cw * ch * 4) by (nonlinear_arith)
            requires 0 <= bw <= cw, 0 <= bh <= ch;
    }
    let bleed = img_filled(bw, bh, Color { r: 0x00, g: 0x00, b: 0x00, a: 0xff });
    img_overlay(&mut canvas, &bleed, (ll - pad) as i64, (ll - pad) as i64);
    proof {
        assert(raster_pixels(canvas) == base_pixels(o));
        assert(after_cells(views, o, 0) == base_pixels(o));
    }

    // Lay the cells in row-major order.
    let mut j: u32 = 0;
    while j < rows
        invariant
            0 <= j <= rows,
            o == *options,
            rows == o.rows && cols == o.cols && ll == o.line_len && lw == o.line_width,
            cw == o.canvas_width() && ch == o.canvas_height(),
            cap == o.rows * o.cols,
            o.valid(),
            views.len() <= cap,
            images@.len() == cap,
            forall|l: int| 0 <= l < images@.len() ==> raster_pixels(#[trigger] images@[l]) == cell_map(views, l)
                && raster_width(images@[l]) == CELL_WIDTH
                && raster_height(images@[l]) == CELL_HEIGHT,
            raster_width(canvas) == cw && raster_height(canvas) == ch,
            raster_pixels(canvas) == after_cells(views, o, j as int * cols as int),
        decreases rows - j,
    {
        let mut i: u32 = 0;
        proof {
            mul_le(j as int, rows as int - 1, cols as int);
        }
        while i < cols
            invariant
                0 <= i <= cols,
                0 <= j < rows,
                o == *options,
            rows == o.rows && cols == o.cols && ll == o.line_len && lw == o.line_width,
                cw == o.canvas_width() && ch == o.canvas_height(),
                cap == o.rows * o.cols,
                o.valid(),
                views.len() <= cap,
                images@.len() == cap,
                forall|l: int| 0 <= l < images@.len() ==> raster_pixels(#[trigger] images@[l]) == cell_map(views, l)
                    && raster_width(images@[l]) == CELL_WIDTH
                    && raster_height(images@[l]) == CELL_HEIGHT,
                raster_width(canvas) == cw && raster_height(canvas) == ch,
                raster_pixels(canvas) == after_cells(views, o, j as int * cols as int + i as int),
            decreases cols - i,
        {
            proof {
                mul_le(i as int, cols as int - 1, CELL_WIDTH as int);
                mul_le(i as int + 1, cols as int, CELL_WIDTH as int);
                mul_le(j as int, rows as int - 1, CELL_HEIGHT as int);
                mul_le(j as int + 1, rows as int, CELL_HEIGHT as int);
                mul_le(j as int, rows as int - 1, cols as int);
                divmod_id(j as int, i as int, cols as int);
                assert((j as int) * (cols as int) + (i as int) < cap) by (nonlinear_arith)
                    requires 0 <= i < cols, 0 <= j < rows, cap == (rows as int) * (cols as int);
            }
            let x = i * CELL_WIDTH + ll;
            let y = j * CELL_HEIGHT + ll;
            let idx = (j * cols + i) as usize;
            let ghost k_slot = j as int * cols as int + i as int;
            img_overlay(&mut canvas, &images[idx], x as i64, y as i64);
            proof {
                assert(cell_x(o, k_slot) == x as int && cell_y(o, k_slot) == y as int);
                assert(raster_pixels(canvas) == after_cells(views, o, k_slot + 1));
            }
            i += 1;
        }
        proof {
            assert((j as int) * (cols as int) + (cols as int) == ((j as int) + 1) * (cols as int)) by (nonlinear_arith);
        }
        j += 1;
    }
    proof {
        assert(rows as int * cols as int == cap as int);
        assert(raster_pixels(canvas) == after_cells(views, o, cap as int));
        assert(after_guides(views, o, 0) == after_cells(views, o, cap as int));
    }

    // Mark every grid intersection with a cut guide, borders included.
    let mut gi: u32 = 0;
    while gi < cols + 1
        invariant
            0 <= gi <= cols + 1,
            o == *options,
            rows == o.rows && cols == o.cols && ll == o.line_len && lw == o.line_width,
            cw == o.canvas_width() && ch == o.canvas_height(),
            o.valid(),
            raster_width(canvas) == cw && raster_height(canvas) == ch,
            raster_pixels(canvas) == after_guides(views, o, gi as int * (rows as int + 1)),
        decreases cols + 1 - gi,
    {
        let mut gj: u32 = 0;
        proof {
            mul_le(gi as int, cols as int, rows as int + 1);
        }
        while gj < rows + 1
            invariant
                0 <= gj <= rows + 1,
                0 <= gi <= cols,
                o == *options,
            rows == o.rows && cols == o.cols && ll == o.line_len && lw == o.line_width,
                cw == o.canvas_width() && ch == o.canvas_height(),
                o.valid(),
                raster_width(canvas) == cw && raster_height(canvas) == ch,
                raster_pixels(canvas) == after_guides(views, o, gi as int * (rows as int + 1) + gj as int),
            decreases rows + 1 - gj,
        {
            proof {
                mul_le(gi as int, cols as int, CELL_WIDTH as int);
                mul_le(gj as int, rows as int, CELL_HEIGHT as int);
                divmod_id(gi as int, gj as int, rows as int + 1);
            }
            proof {
                assert((cw as int) <= i32::MAX && (ch as int) <= i32::MAX) by (nonlinear_arith)
                    requires
                        (cw as int) * 72 <= u32::MAX,
                        (ch as int) * 72 <= u32::MAX,
                        0 <= cw as int,
                        0 <= ch as int;
            }
            let x = ll + gi * CELL_WIDTH;
            let y = ll + gj * CELL_HEIGHT;
            let ghost g = gi as int * (rows as int + 1) + gj as int;
            proof {
                assert(x as int == guide_x(o, gi as int) && y as int == guide_y(o, gj as int));
                assert(x <= cw && y <= ch);
                assert(((x - ll) as i32) as int == (gi as int) * (CELL_WIDTH as int));
                assert(((y - lw) as i32) as int == (y as int) - (lw as int));
                assert(((x - lw) as i32) as int == (x as int) - (lw as int));
                assert(((y - ll) as i32) as int == (gj as int) * (CELL_HEIGHT as int));
            }
            img_draw_rect(&mut canvas, (x - ll) as i32, (y - lw) as i32, 2 * ll, 2 * lw, options.line_color);
            img_draw_rect(&mut canvas, (x - lw) as i32, (y - ll) as i32, 2 * lw, 2 * ll, options.line_color);
            proof {
                assert(raster_pixels(canvas) == after_guides(views, o, g + 1));
            }
            gj += 1;
        }
        proof {
            assert((gi as int) * ((rows as int) + 1) + ((rows as int) + 1) == ((gi as int) + 1) * ((rows as int) + 1)) by (nonlinear_arith);
        }
        gi += 1;
    }
    proof {
        assert((cols as int + 1) * (rows as int + 1) == (o.cols + 1) * (o.rows + 1));
        assert(raster_pixels(canvas) == page_pixels(views, o));
    }

    let data = rgb_bytes(canvas);
    Ok(Page { width: cw, height: ch, data })
}


proof fn lemma_cells_dom(chunk: Seq<Seq<u8>>, o: PageOptions, k: int)
    requires
        o.valid(),
        0 <= k,
    ensures
        after_cells(chunk, o, k).dom() == grid_dom(o.canvas_width(), o.canvas_height()),
    decreases k,
{
    if k <= 0 {
        assert(after_cells(chunk, o, k).dom() =~= grid_dom(o.canvas_width(), o.canvas_height()));
    } else {
        lemma_cells_dom(chunk, o, k - 1);
        assert(after_cells(chunk, o, k).dom() =~= grid_dom(o.canvas_width(), o.canvas_height()));
    }
}

proof fn lemma_guides_dom(chunk: Seq<Seq<u8>>, o: PageOptions, g: int)
    requires
        o.valid(),
        0 <= g,
    ensures
        after_guides(chunk, o, g).dom() == grid_dom(o.canvas_width(), o.canvas_height()),
    decreases g,
{
    if g <= 0 {
        lemma_cells_dom(chunk, o, (o.rows * o.cols) as int);
    } else {
        lemma_guides_dom(chunk, o, g - 1);
        assert(after_guides(chunk, o, g).dom() =~= grid_dom(o.canvas_width(), o.canvas_height()));
    }
}

/// The intersection of grid lines `i` and `j` lies on the canvas.
proof fn lemma_mark_on_canvas(o: PageOptions, i: int, j: int)
    requires
        o.valid(),
        0 <= i <= o.cols,
        0 <= j <= o.rows,
    ensures
        0 < guide_x(o, i) < o.canvas_width(),
        0 < guide_y(o, j) < o.canvas_height(),
{
    mul_le(i, o.cols as int, CELL_WIDTH as int);
    mul_le(0, i, CELL_WIDTH as int);
    mul_le(j, o.rows as int, CELL_HEIGHT as int);
    mul_le(0, j, CELL_HEIGHT as int);
}

/// Marking intersection `(i, j)` colors the pixel at the intersection.
proof fn lemma_mark_set(chunk: Seq<Seq<u8>>, o: PageOptions, i: int, j: int)
    requires
        o.valid(),
        0 <= i <= o.cols,
        0 <= j <= o.rows,
    ensures
        after_guides(chunk, o, i * (o.rows + 1) + j + 1)[(guide_x(o, i), guide_y(o, j))] == o.line_color,
{
    let g = i * (o.rows + 1) + j + 1;
    divmod_id(i, j, o.rows as int + 1);
    lemma_guides_dom(chunk, o, g - 1);
    lemma_mark_on_canvas(o, i, j);
    let pt = (guide_x(o, i), guide_y(o, j));
    assert(after_guides(chunk, o, g - 1).dom().contains(pt));
    assert(after_guides(chunk, o, g)[pt] == o.line_color);
}

/// Once an intersection is marked, later marks leave its color in place:
/// every guide segment is drawn in the same configured color.
proof fn lemma_mark_keeps(chunk: Seq<Seq<u8>>, o: PageOptions, i: int, j: int, g: int)
    requires
        o.valid(),
        0 <= i <= o.cols,
        0 <= j <= o.rows,
        i * (o.rows + 1) + j + 1 <= g,
    ensures
        after_guides(chunk, o, g)[(guide_x(o, i), guide_y(o, j))] == o.line_color,
    decreases g,
{
    if g == i * (o.rows + 1) + j + 1 {
        lemma_mark_set(chunk, o, i, j);
    } else {
        divmod_id(i, j, o.rows as int + 1);
        lemma_mark_keeps(chunk, o, i, j, g - 1);
        lemma_guides_dom(chunk, o, g - 1);
        lemma_mark_on_canvas(o, i, j);
        let pt = (guide_x(o, i), guide_y(o, j));
        assert(after_guides(chunk, o, g - 1).dom().contains(pt));
        assert(after_guides(chunk, o, g)[pt] == o.line_color);
    }
}

/// Law: a cut-guide mark lies at every one of the `(cols+1)·(rows+1)` grid
/// intersections, the four page corners included: on the finished page, the
/// pixel where grid lines `i` and `j` cross carries the configured guide
/// color, for every `i` up to `cols` and `j` up to `rows` inclusive.
pub proof fn lemma_cut_guide_marks(chunk: Seq<Seq<u8>>, o: PageOptions)
    requires
        o.valid(),
    ensures
        forall|i: int, j: int| 0 <= i <= o.cols && 0 <= j <= o.rows ==>
            page_pixels(chunk, o)[(guide_x(o, i), guide_y(o, j))] == o.line_color,
{
    assert forall|i: int, j: int| 0 <= i <= o.cols && 0 <= j <= o.rows implies
        page_pixels(chunk, o)[(guide_x(o, i), guide_y(o, j))] == o.line_color by {
        let full = ((o.cols + 1) * (o.rows + 1)) as int;
        assert(i * (o.rows as int + 1) + j + 1 <= full) by (nonlinear_arith)
            requires
                0 <= i <= o.cols,
                0 <= j <= o.rows,
                full == ((o.cols as int) + 1) * ((o.rows as int) + 1);
        lemma_mark_keeps(chunk, o, i, j, full);
    }
}

} // verus!
