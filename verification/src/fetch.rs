//! Fetch planning: request deduplication and cache consultation.
//!
//! Resolving a request list is split into a verified plan and an unverified
//! retrieval loop owned by the caller. `plan_fetches` derives the distinct
//! key list in first-seen order, takes what the cache already holds, and
//! returns the keys that still need a network retrieval, in order. The
//! caller retrieves each missing key (strictly sequentially, with its
//! inter-request delay) and hands the bytes back through `record_fetched`,
//! which stores them for the job and writes them into the cache.

use vstd::prelude::*;
use crate::cards::{CardKey, CardOptions, key_of};
use crate::cache::Cache;

verus! {

struct StoreEntry {
    key: CardKey,
    data: Vec<u8>,
}

/// The per-job mapping from card key to resolved image bytes.
pub struct ImageStore {
    entries: Vec<StoreEntry>,
}

spec fn store_wf(s: Seq<StoreEntry>) -> bool {
    forall|i: int, j: int| 0 <= i < j < s.len() ==> (#[trigger] s[i]).key != (#[trigger] s[j]).key
}

spec fn store_map(s: Seq<StoreEntry>) -> Map<CardKey, Seq<u8>>
    decreases s.len(),
{
    if s.len() == 0 {
        Map::empty()
    } else {
        store_map(s.drop_last()).insert(s.last().key, s.last().data@)
    }
}

proof fn lemma_store_map(s: Seq<StoreEntry>)
    ensures
        forall|k: CardKey|
            #[trigger] store_map(s).contains_key(k) <==> exists|i: int| 0 <= i < s.len() && (#[trigger] s[i]).key == k,
        forall|i: int| 0 <= i < s.len() && store_wf(s) ==> store_map(s)[(#[trigger] s[i]).key] == s[i].data@,
    decreases s.len(),
{
    if s.len() > 0 {
        let prefix = s.drop_last();
        lemma_store_map(prefix);
        assert forall|k: CardKey| #[trigger] store_map(s).contains_key(k) implies
            exists|i: int| 0 <= i < s.len() && (#[trigger] s[i]).key == k by {
            if k == s.last().key {
                assert(s[s.len() - 1].key == k);
            } else {
                assert(store_map(prefix).contains_key(k));
                let i = choose|i: int| 0 <= i < prefix.len() && (#[trigger] prefix[i]).key == k;
                assert(s[i] == prefix[i]);
                assert(s[i].key == k);
            }
        }
        assert forall|i: int| 0 <= i < s.len() implies
            store_map(s).contains_key((#[trigger] s[i]).key) by {
            if s[i].key != s.last().key {
                assert(prefix[i].key == s[i].key);
                assert(exists|j: int| 0 <= j < prefix.len() && (#[trigger] prefix[j]).key == s[i].key);
                assert(store_map(prefix).contains_key(s[i].key));
            }
        }
        if store_wf(s) {
            assert(store_wf(prefix));
            assert forall|i: int| 0 <= i < s.len() implies
                store_map(s)[(#[trigger] s[i]).key] == s[i].data@ by {
                if i < s.len() - 1 {
                    assert(prefix[i].key == s[i].key);
                    assert(s[i].key != s[s.len() - 1].key);
                }
            }
        }
    }
}

impl ImageStore {
    /// The mapping this store holds.
    pub closed spec fn view(&self) -> Map<CardKey, Seq<u8>> {
        store_map(self.entries@)
    }

    /// Internal shape: no key occurs twice.
    pub closed spec fn wf(&self) -> bool {
        store_wf(self.entries@)
    }

    /// An empty store.
    pub fn new() -> (r: Self)
        ensures
            r.wf(),
            r@ == Map::<CardKey, Seq<u8>>::empty(),
    {
        ImageStore { entries: Vec::new() }
    }

    /// Store bytes under the key; an existing entry is replaced.
    pub fn insert(&mut self, key: CardKey, data: Vec<u8>)
        requires
            old(self).wf(),
        ensures
            final(self).wf(),
            final(self)@ == old(self)@.insert(key, data@),
    {
        let ghost pre = self.entries@;
        let entry = StoreEntry { key, data };
        let n = self.entries.len();
        let mut i: usize = 0;
        while i < n
            invariant
                n == self.entries.len(),
                0 <= i <= n,
                self.entries@ == pre,
                pre == old(self).entries@,
                store_wf(pre),
                entry.key == key && entry.data@ == data@,
                forall|j: int| 0 <= j < i ==> (#[trigger] pre[j]).key != key,
            decreases n - i,
        {
            if self.entries[i].key == key {
                proof {
                    assert(pre[i as int].key == key);
                }
                self.entries.set(i, entry);
                proof {
                    lemma_store_update(pre, i as int, entry);
                }
                return;
            }
            i += 1;
        }
        self.entries.push(entry);
        proof {
            assert(self.entries@.drop_last() == pre);
            assert(self.entries@.last() == entry);
            assert forall|a: int, b: int| 0 <= a < b < self.entries@.len() implies
                (#[trigger] self.entries@[a]).key != (#[trigger] self.entries@[b]).key by {
                if b == self.entries@.len() - 1 {
                    assert(pre[a] == self.entries@[a]);
                } else {
                    assert(pre[a] == self.entries@[a] && pre[b] == self.entries@[b]);
                }
            }
        }
    }

    /// Look the key up.
    pub fn get(&self, key: CardKey) -> (r: Option<&Vec<u8>>)
        requires
            self.wf(),
        ensures
            match r {
                Some(v) => self@.contains_key(key) && v@ == self@[key],
                None => !self@.contains_key(key),
            },
    {
        let n = self.entries.len();
        let mut i: usize = 0;
        while i < n
            invariant
                n == self.entries.len(),
                0 <= i <= n,
                self.wf(),
                forall|j: int| 0 <= j < i ==> (#[trigger] self.entries@[j]).key != key,
            decreases n - i,
        {
            proof {
                lemma_store_map(self.entries@);
            }
            if self.entries[i].key == key {
                return Some(&self.entries[i].data);
            }
            i += 1;
        }
        proof {
            lemma_store_map(self.entries@);
        }
        None
    }
}

proof fn lemma_store_update(s: Seq<StoreEntry>, i: int, e: StoreEntry)
    requires
        store_wf(s),
        0 <= i < s.len(),
        s[i].key == e.key,
    ensures
        store_wf(s.update(i, e)),
        store_map(s.update(i, e)) == store_map(s).insert(e.key, e.data@),
    decreases s.len(),
{
    let t = s.update(i, e);
    assert forall|a: int, b: int| 0 <= a < b < t.len() implies
        (#[trigger] t[a]).key != (#[trigger] t[b]).key by {
        assert(s[a].key != s[b].key);
        assert(t[a].key == s[a].key && t[b].key == s[b].key);
    }
    if i == s.len() - 1 {
        assert(t.drop_last() == s.drop_last());
        assert(store_map(t) =~= store_map(s).insert(e.key, e.data@));
    } else {
        assert(t.drop_last() == s.drop_last().update(i, e));
        assert(t.last() == s.last());
        lemma_store_update(s.drop_last(), i, e);
        assert(s.last().key != e.key) by {
            assert(s[i].key != s[s.len() - 1].key);
        }
        assert(store_map(t) =~= store_map(s).insert(e.key, e.data@));
    }
}

/// The distinct keys of a request list, in first-seen order.
pub open spec fn distinct_list(cards: Seq<CardOptions>) -> Seq<CardKey>
    decreases cards.len(),
{
    if cards.len() == 0 {
        Seq::empty()
    } else {
        let p = distinct_list(cards.drop_last());
        if p.contains(key_of(cards.last())) {
            p
        } else {
            p.push(key_of(cards.last()))
        }
    }
}

/// The keys of `keys` that `cache` does not hold, in order.
pub open spec fn misses_of(keys: Seq<CardKey>, cache: Map<CardKey, (Seq<u8>, u64)>) -> Seq<CardKey>
    decreases keys.len(),
{
    if keys.len() == 0 {
        Seq::empty()
    } else {
        let p = misses_of(keys.drop_last(), cache);
        if cache.contains_key(keys.last()) {
            p
        } else {
            p.push(keys.last())
        }
    }
}

/// Basic shape of the distinct key list: no duplicates, and exactly the
/// keys that occur in the request list.
pub proof fn lemma_distinct_list(cards: Seq<CardOptions>)
    ensures
        distinct_list(cards).no_duplicates(),
        forall|k: CardKey| distinct_list(cards).contains(k)
            <==> exists|i: int| 0 <= i < cards.len() && key_of(#[trigger] cards[i]) == k,
    decreases cards.len(),
{
    if cards.len() > 0 {
        let prefix = cards.drop_last();
        lemma_distinct_list(prefix);
        let p = distinct_list(prefix);
        assert forall|k: CardKey| distinct_list(cards).contains(k) implies
            exists|i: int| 0 <= i < cards.len() && key_of(#[trigger] cards[i]) == k by {
            if p.contains(k) {
                let i = choose|i: int| 0 <= i < prefix.len() && key_of(#[trigger] prefix[i]) == k;
                assert(key_of(cards[i]) == k);
            } else {
                assert(key_of(cards[cards.len() - 1]) == k);
            }
        }
        assert forall|k: CardKey|
            (exists|i: int| 0 <= i < cards.len() && key_of(#[trigger] cards[i]) == k) implies
            distinct_list(cards).contains(k) by {
            let i = choose|i: int| 0 <= i < cards.len() && key_of(#[trigger] cards[i]) == k;
            if i < cards.len() - 1 {
                assert(key_of(prefix[i]) == k);
                assert(p.contains(k));
                if !p.contains(key_of(cards.last())) {
                    let j = choose|j: int| 0 <= j < p.len() && #[trigger] p[j] == k;
                    assert(distinct_list(cards)[j] == k);
                }
            } else {
                if p.contains(key_of(cards.last())) {
                } else {
                    assert(distinct_list(cards).last() == k);
                }
            }
        }
    }
}

/// Law: one network retrieval per distinct (identifier, face) pair. With a
/// cold cache every distinct key is retrieved exactly once — the retrieval
/// list is the distinct key list itself — and its length is the number of
/// distinct keys among the requests, independent of quantities.
pub proof fn lemma_retrievals_cold(cards: Seq<CardOptions>)
    ensures
        misses_of(distinct_list(cards), Map::<CardKey, (Seq<u8>, u64)>::empty()) == distinct_list(cards),
        distinct_list(cards).no_duplicates(),
        distinct_list(cards).len() ==
            Set::new(|k: CardKey| exists|i: int| 0 <= i < cards.len() && key_of(#[trigger] cards[i]) == k).len(),
{
    lemma_distinct_list(cards);
    lemma_misses_cold(distinct_list(cards));
    let d = distinct_list(cards);
    let ks = Set::new(|k: CardKey| exists|i: int| 0 <= i < cards.len() && key_of(#[trigger] cards[i]) == k);
    assert(d.to_set() =~= ks) by {
        assert forall|k: CardKey| d.to_set().contains(k) implies ks.contains(k) by {
            assert(d.contains(k));
        }
        assert forall|k: CardKey| ks.contains(k) implies d.to_set().contains(k) by {
            assert(d.contains(k));
        }
    }
    d.unique_seq_to_set();
}

/// Quantities do not matter: request lists with the same keys in the same
/// order have the same distinct key list.
pub proof fn lemma_distinct_ignores_quantity(a: Seq<CardOptions>, b: Seq<CardOptions>)
    requires
        a.len() == b.len(),
        forall|i: int| 0 <= i < a.len() ==> key_of(#[trigger] a[i]) == key_of(b[i]),
    ensures
        distinct_list(a) == distinct_list(b),
    decreases a.len(),
{
    if a.len() > 0 {
        lemma_distinct_ignores_quantity(a.drop_last(), b.drop_last());
        assert(key_of(a.last()) == key_of(b.last()));
    }
}

proof fn lemma_misses_cold(keys: Seq<CardKey>)
    ensures
        misses_of(keys, Map::<CardKey, (Seq<u8>, u64)>::empty()) == keys,
    decreases keys.len(),
{
    if keys.len() > 0 {
        lemma_misses_cold(keys.drop_last());
        assert(misses_of(keys, Map::<CardKey, (Seq<u8>, u64)>::empty()) =~= keys);
    }
}

/// Derive the distinct key list of the request list, in first-seen order.
pub fn distinct_keys(cards: &[CardOptions]) -> (r: Vec<CardKey>)
    ensures
        r@ == distinct_list(cards@),
{
    let mut out: Vec<CardKey> = Vec::new();
    let n = cards.len();
    let mut i: usize = 0;
    while i < n
        invariant
            n == cards@.len(),
            0 <= i <= n,
            out@ == distinct_list(cards@.subrange(0, i as int)),
        decreases n - i,
    {
        let key = CardKey::from(cards[i]);
        let mut seen = false;
        let m = out.len();
        let mut j: usize = 0;
        while j < m
            invariant
                m == out.len(),
                0 <= j <= m,
                key == key_of(cards@[i as int]),
                seen == exists|l: int| 0 <= l < j && out@[l] == key,
            decreases m - j,
        {
            if out[j] == key {
                seen = true;
            }
            j += 1;
        }
        proof {
            assert(seen == out@.contains(key));
            assert(cards@.subrange(0, i + 1).drop_last() == cards@.subrange(0, i as int));
            assert(cards@.subrange(0, i + 1).last() == cards@[i as int]);
        }
        if !seen {
            out.push(key);
        }
        i += 1;
    }
    proof {
        assert(cards@.subrange(0, n as int) == cards@);
    }
    out
}

/// Split the distinct keys of a request list into what the cache already
/// holds (taken into the job's store) and what must be retrieved, in order.
pub fn plan_fetches(cards: &[CardOptions], cache: &Cache) -> (r: (ImageStore, Vec<CardKey>))
    requires
        cache.wf(),
    ensures
        r.0.wf(),
        forall|k: CardKey| #[trigger] r.0@.contains_key(k)
            <==> (distinct_list(cards@).contains(k) && cache@.contains_key(k)),
        forall|k: CardKey| #[trigger] r.0@.contains_key(k) ==> r.0@[k] == cache@[k].0,
        r.1@ == misses_of(distinct_list(cards@), cache@),
{
    let keys = distinct_keys(cards);
    let mut hits = ImageStore::new();
    let mut misses: Vec<CardKey> = Vec::new();
    let n = keys.len();
    let mut i: usize = 0;
    while i < n
        invariant
            n == keys@.len(),
            0 <= i <= n,
            keys@ == distinct_list(cards@),
            cache.wf(),
            hits.wf(),
            forall|k: CardKey| #[trigger] hits@.contains_key(k)
                <==> (keys@.subrange(0, i as int).contains(k) && cache@.contains_key(k)),
            forall|k: CardKey| #[trigger] hits@.contains_key(k) ==> hits@[k] == cache@[k].0,
            misses@ == misses_of(keys@.subrange(0, i as int), cache@),
        decreases n - i,
    {
        let key = keys[i];
        proof {
            assert(keys@.subrange(0, i + 1).drop_last() == keys@.subrange(0, i as int));
            assert(keys@.subrange(0, i + 1).last() == keys@[i as int]);
        }
        match cache.get(key) {
            Some(bytes) => {
                hits.insert(key, bytes);
                proof {
                    assert forall|k: CardKey| #[trigger] hits@.contains_key(k) implies
                        (keys@.subrange(0, i + 1).contains(k) && cache@.contains_key(k)) by {
                        if k != key {
                            assert(keys@.subrange(0, i as int).contains(k));
                            let l = choose|l: int| 0 <= l < i && #[trigger] keys@.subrange(0, i as int)[l] == k;
                            assert(keys@.subrange(0, i + 1)[l] == k);
                        } else {
                            assert(keys@.subrange(0, i + 1)[i as int] == key);
                        }
                    }
                    assert forall|k: CardKey| keys@.subrange(0, i + 1).contains(k) && cache@.contains_key(k) implies
                        #[trigger] hits@.contains_key(k) by {
                        if k != key {
                            let l = choose|l: int| 0 <= l < i + 1 && #[trigger] keys@.subrange(0, i + 1)[l] == k;
                            assert(keys@.subrange(0, i as int)[l] == k);
                        }
                    }
                }
            }
            None => {
                misses.push(key);
                proof {
                    assert forall|k: CardKey| #[trigger] hits@.contains_key(k) implies
                        (keys@.subrange(0, i + 1).contains(k) && cache@.contains_key(k)) by {
                        assert(keys@.subrange(0, i as int).contains(k));
                        let l = choose|l: int| 0 <= l < i && #[trigger] keys@.subrange(0, i as int)[l] == k;
                        assert(keys@.subrange(0, i + 1)[l] == k);
                    }
                    assert forall|k: CardKey| keys@.subrange(0, i + 1).contains(k) && cache@.contains_key(k) implies
                        #[trigger] hits@.contains_key(k) by {
                        if k != key {
                            let l = choose|l: int| 0 <= l < i + 1 && #[trigger] keys@.subrange(0, i + 1)[l] == k;
                            assert(keys@.subrange(0, i as int)[l] == k);
                        }
                    }
                }
            }
        }
        i += 1;
    }
    proof {
        assert(keys@.subrange(0, n as int) == keys@);
    }
    (hits, misses)
}

/// Record bytes the caller retrieved for a key: they join the job's store
/// and are written into the cache under the given time-to-live.
pub fn record_fetched(
    store: &mut ImageStore,
    cache: &mut Cache,
    key: CardKey,
    data: Vec<u8>,
    ttl_ms: u64,
    now_ms: u64,
)
    requires
        old(store).wf(),
        old(cache).wf(),
        now_ms + ttl_ms <= u64::MAX,
    ensures
        final(store).wf(),
        final(store)@ == old(store)@.insert(key, data@),
        final(cache).wf(),
        final(cache)@ == old(cache)@.insert(key, (data@, (now_ms + ttl_ms) as u64)),
{
    cache.insert(key, data.as_slice(), ttl_ms, now_ms);
    store.insert(key, data);
}

} // verus!
