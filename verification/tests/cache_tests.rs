use mtg_proxy::cache::{Cache, DEFAULT_TTL_MS};
use mtg_proxy::cards::{CardFace, CardId, CardKey};

fn key(n: u128, face: CardFace) -> CardKey {
    CardKey { id: CardId { value: n }, face }
}

#[test]
fn cache_miss_then_hit() {
    let mut cache = Cache::new();
    let k = key(7, CardFace::Front);
    assert!(cache.get(k).is_none());
    cache.insert(k, &[1, 2, 3], DEFAULT_TTL_MS, 0);
    assert_eq!(cache.get(k), Some(vec![1, 2, 3]));
}

#[test]
fn cache_keys_are_identifier_and_face() {
    let mut cache = Cache::new();
    let front = key(7, CardFace::Front);
    let back = key(7, CardFace::Back);
    cache.insert(front, &[1], DEFAULT_TTL_MS, 0);
    assert!(cache.get(back).is_none());
    cache.insert(back, &[2], DEFAULT_TTL_MS, 0);
    assert_eq!(cache.get(front), Some(vec![1]));
    assert_eq!(cache.get(back), Some(vec![2]));
}

#[test]
fn cache_insert_replaces_existing_entry() {
    let mut cache = Cache::new();
    let k = key(9, CardFace::Front);
    cache.insert(k, &[1], 1_000, 0);
    cache.insert(k, &[2, 2], 2_000, 0);
    assert_eq!(cache.get(k), Some(vec![2, 2]));
}

#[test]
fn prune_removes_only_expired_entries() {
    let mut cache = Cache::new();
    let a = key(1, CardFace::Front);
    let b = key(2, CardFace::Front);
    let c = key(3, CardFace::Back);
    cache.insert(a, &[10], 100, 0); // expires at 100
    cache.insert(b, &[20], 1_000, 0); // expires at 1000
    cache.insert(c, &[30], 400, 0); // expires at 400
    let removed = cache.prune(500);
    assert_eq!(removed, 2);
    assert!(cache.get(a).is_none());
    assert_eq!(cache.get(b), Some(vec![20]));
    assert!(cache.get(c).is_none());
    // A second sweep at the same instant removes nothing more.
    assert_eq!(cache.prune(500), 0);
}

#[test]
fn prune_at_exact_expiry_removes_the_entry() {
    let mut cache = Cache::new();
    let k = key(4, CardFace::Front);
    cache.insert(k, &[1], 100, 0);
    // The entry is kept only while its expiry lies strictly after the sweep time.
    assert_eq!(cache.prune(100), 1);
    assert!(cache.get(k).is_none());
}

#[test]
fn prune_empty_cache_removes_nothing() {
    let mut cache = Cache::new();
    assert_eq!(cache.prune(123), 0);
}
