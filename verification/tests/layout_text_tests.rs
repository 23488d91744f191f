use mtg_proxy::cards::{card_image_url, CardFace, CardId, CardKey};
use mtg_proxy::error::PrintError;
use mtg_proxy::layout::PageOptions;
use mtg_proxy::text::{mb_string, u64_string};

#[test]
fn default_options_match_the_printed_sheet() {
    let o = PageOptions::default();
    assert_eq!(o.rows, 3);
    assert_eq!(o.cols, 3);
    assert_eq!(o.line_len, 40);
    assert_eq!(o.line_width, 1);
    assert_eq!((o.line_color.r, o.line_color.g, o.line_color.b, o.line_color.a), (0x7f, 0x7f, 0x7f, 0xff));
    assert_eq!(o.black_bleed, 8);
    assert_eq!(o.page_width, 595);
    assert_eq!(o.page_height, 792);
    assert_eq!(o.card_count(), 9);
}

#[test]
fn face_selector_strings() {
    assert_eq!(CardFace::Front.as_str(), "front");
    assert_eq!(CardFace::Back.as_str(), "back");
}

#[test]
fn error_labels() {
    assert_eq!(PrintError::NetworkFailure.describe(), "network retrieval failed");
    assert_eq!(PrintError::DecodeFailure.describe(), "could not decode image");
    assert_eq!(PrintError::CompositionFailure.describe(), "image missing while composing page");
    assert_eq!(PrintError::AssemblyFailure.describe(), "could not assemble document");
}

#[test]
fn decimal_formatting() {
    assert_eq!(u64_string(0), "0");
    assert_eq!(u64_string(7), "7");
    assert_eq!(u64_string(12034), "12034");
    assert_eq!(u64_string(u64::MAX), "18446744073709551615");
}

#[test]
fn megabyte_formatting_truncates_to_two_digits() {
    assert_eq!(mb_string(0), "0.00MB");
    assert_eq!(mb_string(500_000), "0.50MB");
    assert_eq!(mb_string(1_000_000), "1.00MB");
    assert_eq!(mb_string(12_345_678), "12.34MB");
    assert_eq!(mb_string(3_090_000), "3.09MB");
}

#[test]
fn image_url_spells_the_identifier_hyphenated() {
    let k = CardKey {
        id: CardId { value: 0xe01a59e7_bde1_4150_bb4f_a19d769764f2 },
        face: CardFace::Front,
    };
    assert_eq!(
        card_image_url(&k),
        "https://api.scryfall.com/cards/e01a59e7-bde1-4150-bb4f-a19d769764f2?format=image&version=png&face=front"
    );
    let back = CardKey { id: CardId { value: 0 }, face: CardFace::Back };
    assert_eq!(
        card_image_url(&back),
        "https://api.scryfall.com/cards/00000000-0000-0000-0000-000000000000?format=image&version=png&face=back"
    );
}
