use mtg_proxy::cards::{CardFace, CardId, CardKey, CardOptions};
use mtg_proxy::error::PrintError;
use mtg_proxy::fetch::ImageStore;
use mtg_proxy::layout::PageOptions;
use mtg_proxy::print::Printer;
use mtg_proxy::cache::Cache;
use mtg_proxy::compose::compose_page;
use mtg_proxy::fetch::plan_fetches;
use mtg_proxy::print::expand_keys;
use std::io::Cursor;

fn req(n: u128, face: CardFace, quantity: u32) -> CardOptions {
    CardOptions { id: CardId { value: n }, face, quantity }
}

fn key(n: u128, face: CardFace) -> CardKey {
    CardKey { id: CardId { value: n }, face }
}

fn solid_png(r: u8, g: u8, b: u8) -> Vec<u8> {
    let img = image::RgbaImage::from_pixel(745, 1040, image::Rgba([r, g, b, 0xff]));
    let mut bytes: Vec<u8> = Vec::new();
    image::DynamicImage::ImageRgba8(img)
        .write_to(&mut Cursor::new(&mut bytes), image::ImageFormat::Png)
        .unwrap();
    bytes
}

fn page_count(pdf: &[u8]) -> usize {
    lopdf::Document::load_mem(pdf).unwrap().get_pages().len()
}

#[test]
fn eight_cards_on_a_nine_cell_grid_make_one_page_with_two_fetches() {
    // Four of A and four of B on a 3×3 grid: one page (four A cells, four
    // B cells, one blank), and exactly two distinct retrievals planned.
    let cards = [req(1, CardFace::Front, 4), req(2, CardFace::Front, 4)];
    let (_, misses) = plan_fetches(&cards, &Cache::new());
    assert_eq!(misses.len(), 2);

    let mut store = ImageStore::new();
    store.insert(key(1, CardFace::Front), solid_png(200, 0, 0));
    store.insert(key(2, CardFace::Front), solid_png(0, 0, 200));
    let pdf = Printer::print(&cards, &store, &PageOptions::default()).unwrap();
    assert_eq!(page_count(&pdf), 1);
    assert_eq!(&pdf[0..5], b"%PDF-");

    // The one page holds four A cells, then four B cells, then one blank
    // padding cell, in row-major order.
    let flat = expand_keys(&cards);
    assert_eq!(flat.len(), 8);
    let chunk: Vec<Vec<u8>> = flat.iter().map(|k| store.get(*k).unwrap().clone()).collect();
    let page = compose_page(&chunk, &PageOptions::default()).unwrap();
    let center = |cell: u32| {
        let x = 40 + (cell % 3) * 745 + 372;
        let y = 40 + (cell / 3) * 1040 + 520;
        let idx = 3 * (y as usize * page.width as usize + x as usize);
        (page.data[idx], page.data[idx + 1], page.data[idx + 2])
    };
    for cell in 0..4 {
        assert_eq!(center(cell), (200, 0, 0), "cell {cell} holds the first card");
    }
    for cell in 4..8 {
        assert_eq!(center(cell), (0, 0, 200), "cell {cell} holds the second card");
    }
    assert_eq!(center(8), (0xff, 0xff, 0xff), "the trailing cell is blank padding");
}

#[test]
fn page_count_is_the_ceiling_of_units_over_capacity() {
    let mut store = ImageStore::new();
    store.insert(key(1, CardFace::Front), solid_png(1, 2, 3));
    let o = PageOptions::default();

    // 0 units: a document with zero page objects.
    let pdf = Printer::print(&[], &store, &o).unwrap();
    assert_eq!(page_count(&pdf), 0);

    // 9 units on a 9-cell grid: one page.
    let pdf = Printer::print(&[req(1, CardFace::Front, 9)], &store, &o).unwrap();
    assert_eq!(page_count(&pdf), 1);

    // 10 units: two pages.
    let pdf = Printer::print(&[req(1, CardFace::Front, 10)], &store, &o).unwrap();
    assert_eq!(page_count(&pdf), 2);

    // 19 units: three pages.
    let pdf = Printer::print(&[req(1, CardFace::Front, 19)], &store, &o).unwrap();
    assert_eq!(page_count(&pdf), 3);
}

#[test]
fn printing_is_deterministic_for_identical_inputs() {
    let cards = [req(1, CardFace::Front, 4), req(2, CardFace::Back, 7)];
    let mut store = ImageStore::new();
    store.insert(key(1, CardFace::Front), solid_png(10, 200, 30));
    store.insert(key(2, CardFace::Back), solid_png(0, 0, 0));
    let o = PageOptions::default();
    let first = Printer::print(&cards, &store, &o).unwrap();
    let second = Printer::print(&cards, &store, &o).unwrap();
    assert_eq!(first, second);
}

#[test]
fn missing_resolved_image_aborts_the_job() {
    let cards = [req(1, CardFace::Front, 1), req(2, CardFace::Front, 1)];
    let mut store = ImageStore::new();
    store.insert(key(1, CardFace::Front), solid_png(1, 1, 1));
    let err = Printer::print(&cards, &store, &PageOptions::default()).unwrap_err();
    assert_eq!(err, PrintError::CompositionFailure);
}

#[test]
fn undecodable_resolved_image_aborts_the_job() {
    let cards = [req(1, CardFace::Front, 1)];
    let mut store = ImageStore::new();
    store.insert(key(1, CardFace::Front), vec![0xde, 0xad]);
    let err = Printer::print(&cards, &store, &PageOptions::default()).unwrap_err();
    assert_eq!(err, PrintError::DecodeFailure);
}
