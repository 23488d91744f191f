use mtg_proxy::compose::{compose_page, Page};
use mtg_proxy::error::PrintError;
use mtg_proxy::layout::PageOptions;
use std::io::Cursor;

/// A card-sized PNG filled with one solid color.
fn solid_png(r: u8, g: u8, b: u8) -> Vec<u8> {
    sized_png(745, 1040, r, g, b)
}

fn sized_png(w: u32, h: u32, r: u8, g: u8, b: u8) -> Vec<u8> {
    let img = image::RgbaImage::from_pixel(w, h, image::Rgba([r, g, b, 0xff]));
    let mut bytes: Vec<u8> = Vec::new();
    image::DynamicImage::ImageRgba8(img)
        .write_to(&mut Cursor::new(&mut bytes), image::ImageFormat::Png)
        .unwrap();
    bytes
}

fn pixel(page: &Page, x: u32, y: u32) -> (u8, u8, u8) {
    let idx = (3 * (y as usize * page.width as usize + x as usize)) as usize;
    (page.data[idx], page.data[idx + 1], page.data[idx + 2])
}

#[test]
fn composed_page_has_exact_canvas_dimensions() {
    // rows=3, cols=3, line_len=40 gives 3·745+80 × 3·1040+80 = 2315 × 3200.
    let o = PageOptions::default();
    let page = compose_page(&vec![solid_png(200, 10, 10)], &o).unwrap();
    assert_eq!(page.width, 2315);
    assert_eq!(page.height, 3200);
    assert_eq!(page.data.len(), 3 * 2315 * 3200);
}

#[test]
fn cut_guides_mark_every_grid_intersection() {
    // All (cols+1)·(rows+1) = 16 intersections carry the guide color,
    // the four page corners of the grid included.
    let o = PageOptions::default();
    let page = compose_page(&Vec::new(), &o).unwrap();
    for i in 0..=3u32 {
        for j in 0..=3u32 {
            let x = 40 + i * 745;
            let y = 40 + j * 1040;
            assert_eq!(pixel(&page, x, y), (0x7f, 0x7f, 0x7f), "intersection {i},{j}");
        }
    }
}

#[test]
fn padding_cells_are_white_and_bleed_is_black() {
    let o = PageOptions::default();
    let page = compose_page(&Vec::new(), &o).unwrap();
    // Center of the first padding cell: white.
    assert_eq!(pixel(&page, 40 + 372, 40 + 520), (0xff, 0xff, 0xff));
    // Inside the bleed margin left of the grid, away from any guide: black.
    assert_eq!(pixel(&page, 34, 500), (0x00, 0x00, 0x00));
    // Outside the bleed rectangle entirely: the white canvas.
    assert_eq!(pixel(&page, 10, 500), (0xff, 0xff, 0xff));
}

#[test]
fn cells_lie_in_row_major_order() {
    let o = PageOptions::default();
    let chunk = vec![
        solid_png(200, 0, 0),
        solid_png(0, 200, 0),
        solid_png(0, 0, 200),
        solid_png(90, 90, 0),
    ];
    let page = compose_page(&chunk, &o).unwrap();
    let center = |col: u32, row: u32| pixel(&page, 40 + col * 745 + 372, 40 + row * 1040 + 520);
    assert_eq!(center(0, 0), (200, 0, 0));
    assert_eq!(center(1, 0), (0, 200, 0));
    assert_eq!(center(2, 0), (0, 0, 200));
    assert_eq!(center(0, 1), (90, 90, 0));
    // The remaining five cells are blank padding.
    assert_eq!(center(1, 1), (0xff, 0xff, 0xff));
    assert_eq!(center(2, 2), (0xff, 0xff, 0xff));
}

#[test]
fn malformed_bytes_fail_the_whole_page() {
    let o = PageOptions::default();
    let chunk = vec![solid_png(1, 2, 3), vec![1, 2, 3, 4, 5]];
    assert_eq!(compose_page(&chunk, &o).unwrap_err(), PrintError::DecodeFailure);
}

#[test]
fn wrong_raster_size_fails_the_page() {
    let o = PageOptions::default();
    let chunk = vec![sized_png(10, 10, 1, 2, 3)];
    assert_eq!(compose_page(&chunk, &o).unwrap_err(), PrintError::DecodeFailure);
}
