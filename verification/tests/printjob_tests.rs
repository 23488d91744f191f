use mtg_proxy::cards::{CardFace, CardId, CardKey, CardOptions};
use mtg_proxy::fetch::ImageStore;
use mtg_proxy::layout::PageOptions;
use mtg_proxy::print::Printer;
use mtg_proxy::printjob::PrintJob;
use std::io::Cursor;

fn solid_png(r: u8, g: u8, b: u8) -> Vec<u8> {
    let img = image::RgbaImage::from_pixel(745, 1040, image::Rgba([r, g, b, 0xff]));
    let mut bytes: Vec<u8> = Vec::new();
    image::DynamicImage::ImageRgba8(img)
        .write_to(&mut Cursor::new(&mut bytes), image::ImageFormat::Png)
        .unwrap();
    bytes
}

fn page_count(pdf: &[u8]) -> usize {
    lopdf::Document::load_mem(pdf).unwrap().get_pages().len()
}

#[test]
fn job_from_raw_data_prints_one_page() {
    let mut job = PrintJob::new();
    job.add_card(4, solid_png(200, 0, 0));
    job.add_card(4, solid_png(0, 0, 200));
    let pdf = job.run().unwrap();
    assert_eq!(page_count(&pdf), 1);
}

#[test]
fn job_reports_milestones_per_page_and_for_assembly() {
    let mut job = PrintJob::new();
    job.add_card(10, solid_png(1, 2, 3));
    let pdf = job.run().unwrap();
    assert_eq!(page_count(&pdf), 2);
    let messages: Vec<String> = job.progress_messages().clone();
    assert_eq!(
        messages,
        vec![
            "Generating page images (1 / 2)".to_string(),
            "Generating page images (2 / 2)".to_string(),
            "Compressing pages".to_string(),
        ]
    );
}

#[test]
fn job_with_undecodable_data_reports_the_decode_failure() {
    let mut job = PrintJob::new();
    job.add_card(1, vec![1, 2, 3]);
    let err = job.run().unwrap_err();
    assert_eq!(err, "could not decode image");
}

#[test]
fn job_output_is_deterministic() {
    let mut first = PrintJob::new();
    first.add_card(2, solid_png(9, 9, 9));
    let mut second = PrintJob::new();
    second.add_card(2, solid_png(9, 9, 9));
    assert_eq!(first.run().unwrap(), second.run().unwrap());
}

#[test]
fn job_and_keyed_printer_share_one_compositor() {
    // The same artwork printed through both entry points with the default
    // layout yields the same document.
    let art = solid_png(120, 40, 7);
    let mut job = PrintJob::new();
    job.add_card(3, art.clone());
    let from_job = job.run().unwrap();

    let k = CardKey { id: CardId { value: 42 }, face: CardFace::Front };
    let cards = [CardOptions { id: k.id, face: k.face, quantity: 3 }];
    let mut store = ImageStore::new();
    store.insert(k, art);
    let from_printer = Printer::print(&cards, &store, &PageOptions::default()).unwrap();
    assert_eq!(from_job, from_printer);
}
