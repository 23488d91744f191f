use mtg_proxy::cache::{Cache, DEFAULT_TTL_MS};
use mtg_proxy::cards::{CardFace, CardId, CardKey, CardOptions};
use mtg_proxy::fetch::{distinct_keys, plan_fetches, record_fetched, ImageStore};

fn req(n: u128, face: CardFace, quantity: u32) -> CardOptions {
    CardOptions { id: CardId { value: n }, face, quantity }
}

fn key(n: u128, face: CardFace) -> CardKey {
    CardKey { id: CardId { value: n }, face }
}

#[test]
fn distinct_keys_keep_first_seen_order() {
    let cards = [
        req(1, CardFace::Front, 1),
        req(2, CardFace::Front, 1),
        req(1, CardFace::Front, 3),
        req(1, CardFace::Back, 1),
    ];
    let keys = distinct_keys(&cards);
    assert_eq!(
        keys,
        vec![
            key(1, CardFace::Front),
            key(2, CardFace::Front),
            key(1, CardFace::Back),
        ]
    );
}

#[test]
fn one_retrieval_per_distinct_pair_regardless_of_quantity() {
    // Quantity 4 of each card still plans exactly one retrieval per
    // distinct (identifier, face) pair.
    let cards = [req(1, CardFace::Front, 4), req(2, CardFace::Front, 4)];
    let cache = Cache::new();
    let (_hits, misses) = plan_fetches(&cards, &cache);
    assert_eq!(misses.len(), 2);
    assert_eq!(misses, vec![key(1, CardFace::Front), key(2, CardFace::Front)]);
}

#[test]
fn plan_fetches_cold_cache_misses_everything() {
    let cards = [req(1, CardFace::Front, 2), req(2, CardFace::Back, 1)];
    let cache = Cache::new();
    let (hits, misses) = plan_fetches(&cards, &cache);
    assert!(hits.get(key(1, CardFace::Front)).is_none());
    assert!(hits.get(key(2, CardFace::Back)).is_none());
    assert_eq!(misses, vec![key(1, CardFace::Front), key(2, CardFace::Back)]);
}

#[test]
fn plan_fetches_takes_cached_bytes_and_misses_the_rest() {
    let cards = [req(1, CardFace::Front, 1), req(2, CardFace::Front, 1)];
    let mut cache = Cache::new();
    cache.insert(key(1, CardFace::Front), &[9, 9], DEFAULT_TTL_MS, 0);
    let (hits, misses) = plan_fetches(&cards, &cache);
    assert_eq!(hits.get(key(1, CardFace::Front)), Some(&vec![9, 9]));
    assert_eq!(misses, vec![key(2, CardFace::Front)]);
}

#[test]
fn record_fetched_fills_store_and_cache() {
    let mut store = ImageStore::new();
    let mut cache = Cache::new();
    let k = key(5, CardFace::Front);
    record_fetched(&mut store, &mut cache, k, vec![1, 2], DEFAULT_TTL_MS, 0);
    assert_eq!(store.get(k), Some(&vec![1, 2]));
    assert_eq!(cache.get(k), Some(vec![1, 2]));
    // The next plan over the same request finds the bytes cached.
    let cards = [req(5, CardFace::Front, 3)];
    let (hits, misses) = plan_fetches(&cards, &cache);
    assert_eq!(hits.get(k), Some(&vec![1, 2]));
    assert!(misses.is_empty());
}

#[test]
fn image_store_insert_replaces() {
    let mut store = ImageStore::new();
    let k = key(6, CardFace::Back);
    store.insert(k, vec![1]);
    store.insert(k, vec![2]);
    assert_eq!(store.get(k), Some(&vec![2]));
}
