use mtg_proxy::names::NormalName;

#[test]
fn plain_name_normalizes_whole_only() {
    let n = NormalName::new("Lightning Bolt");
    assert_eq!(n.original, "Lightning Bolt");
    assert_eq!(n.normal, "lightning bolt");
    assert!(n.normal_front.is_none());
    assert!(n.normal_back.is_none());
}

#[test]
fn double_faced_name_normalizes_each_face() {
    let n = NormalName::new("Fire // Ice");
    assert_eq!(n.normal, "fire ice");
    assert_eq!(n.normal_front.as_deref(), Some("fire"));
    assert_eq!(n.normal_back.as_deref(), Some("ice"));
}

#[test]
fn decomposed_accents_fold_to_ascii() {
    // The accent decomposes to a combining mark, which is dropped; the
    // base letters survive.
    let n = NormalName::new("L\u{f3}rien");
    assert_eq!(n.normal, "lorien");
}

#[test]
fn whitespace_runs_collapse_and_symbols_drop() {
    let n = NormalName::new("Borrowing  100,000 Arrows!");
    assert_eq!(n.normal, "borrowing 100000 arrows");
}

#[test]
fn separator_without_second_face_gives_empty_back() {
    let n = NormalName::new("Front // ");
    assert_eq!(n.normal, "front ");
    assert_eq!(n.normal_front.as_deref(), Some("front"));
    assert_eq!(n.normal_back.as_deref(), Some(""));
}
