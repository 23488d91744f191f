//! A general purpose binary content cache with card keys and time-based
//! eviction.
//!
//! Entries carry an expiry instant (milliseconds on the caller's clock).
//! Lookups never consult the expiry: eviction is purely the `prune` sweep,
//! which the caller invokes on its own schedule with the current time.
//! The caller likewise passes the current time to `insert`; the cache itself
//! never reads a clock, so its behaviour is a function of its arguments.

use vstd::prelude::*;
use crate::cards::CardKey;

verus! {

/// Default time-to-live for inserted entries: one hour, in milliseconds.
pub const DEFAULT_TTL_MS: u64 = 3_600_000;

struct CacheEntry {
    key: CardKey,
    data: Vec<u8>,
    expires: u64,
}

/// The keyed store: raw image bytes under card keys, each with an expiry.
pub struct Cache {
    entries: Vec<CacheEntry>,
}

/// No key occurs twice in the backing sequence.
spec fn seq_wf(s: Seq<CacheEntry>) -> bool {
    forall|i: int, j: int| 0 <= i < j < s.len() ==> (#[trigger] s[i]).key != (#[trigger] s[j]).key
}

/// The mapping a backing sequence denotes: key to (bytes, expiry).
spec fn entries_map(s: Seq<CacheEntry>) -> Map<CardKey, (Seq<u8>, u64)>
    decreases s.len(),
{
    if s.len() == 0 {
        Map::empty()
    } else {
        entries_map(s.drop_last()).insert(s.last().key, (s.last().data@, s.last().expires))
    }
}

proof fn lemma_entries_map(s: Seq<CacheEntry>)
    ensures
        forall|k: CardKey|
            #[trigger] entries_map(s).contains_key(k) <==> exists|i: int| 0 <= i < s.len() && (#[trigger] s[i]).key == k,
        forall|i: int| 0 <= i < s.len() && seq_wf(s) ==> entries_map(s)[(#[trigger] s[i]).key] == (s[i].data@, s[i].expires),
        seq_wf(s) ==> entries_map(s).len() == s.len(),
        entries_map(s).dom().finite(),
    decreases s.len(),
{
    if s.len() == 0 {
    } else {
        let prefix = s.drop_last();
        lemma_entries_map(prefix);
        assert(seq_wf(s) ==> seq_wf(prefix));
        assert forall|k: CardKey| #[trigger] entries_map(s).contains_key(k) implies
            exists|i: int| 0 <= i < s.len() && (#[trigger] s[i]).key == k by {
            if k == s.last().key {
                assert(s[s.len() - 1].key == k);
            } else {
                let i = choose|i: int| 0 <= i < prefix.len() && (#[trigger] prefix[i]).key == k;
                assert(s[i].key == k);
            }
        }
        assert forall|i: int| 0 <= i < s.len() && (exists|j: int| 0 <= j < s.len() && (#[trigger] s[j]).key == s[i].key) implies
            entries_map(s).contains_key(s[i].key) by {
            if i < s.len() - 1 {
                assert(prefix[i].key == s[i].key);
            }
        }
        if seq_wf(s) {
            assert(!entries_map(prefix).contains_key(s.last().key)) by {
                if entries_map(prefix).contains_key(s.last().key) {
                    let i = choose|i: int| 0 <= i < prefix.len() && (#[trigger] prefix[i]).key == s.last().key;
                    assert(s[i].key == s[s.len() - 1].key);
                }
            }
            vstd::set::axiom_set_insert_len(entries_map(prefix).dom(), s.last().key);
            assert forall|i: int| 0 <= i < s.len() implies
                entries_map(s)[(#[trigger] s[i]).key] == (s[i].data@, s[i].expires) by {
                if i < s.len() - 1 {
                    assert(prefix[i].key == s[i].key);
                    assert(s[i].key != s.last().key);
                }
            }
        }
    }
}

impl Cache {
    /// The mapping this cache currently holds.
    pub closed spec fn view(&self) -> Map<CardKey, (Seq<u8>, u64)> {
        entries_map(self.entries@)
    }

    /// Internal shape: the backing sequence has no duplicate keys.
    pub closed spec fn wf(&self) -> bool {
        seq_wf(self.entries@)
    }

    /// An empty cache.
    pub fn new() -> (r: Self)
        ensures
            r.wf(),
            r@ == Map::<CardKey, (Seq<u8>, u64)>::empty(),
    {
        Cache { entries: Vec::new() }
    }

    /// Look the key up; expiry is not consulted.
    pub fn get(&self, key: CardKey) -> (r: Option<Vec<u8>>)
        requires
            self.wf(),
        ensures
            match r {
                Some(v) => self@.contains_key(key) && v@ == self@[key].0,
                None => !self@.contains_key(key),
            },
    {
        let n = self.entries.len();
        let mut i: usize = 0;
        while i < n
            invariant
                n == self.entries.len(),
                0 <= i <= n,
                self.wf(),
                forall|j: int| 0 <= j < i ==> (#[trigger] self.entries@[j]).key != key,
            decreases n - i,
        {
            proof {
                lemma_entries_map(self.entries@);
            }
            if self.entries[i].key == key {
                return Some(self.entries[i].data.clone());
            }
            i += 1;
        }
        proof {
            lemma_entries_map(self.entries@);
        }
        None
    }

    /// Store bytes under the key until `now_ms + ttl_ms`; an existing entry
    /// under the same key is replaced.
    pub fn insert(&mut self, key: CardKey, data: &[u8], ttl_ms: u64, now_ms: u64)
        requires
            old(self).wf(),
            now_ms + ttl_ms <= u64::MAX,
        ensures
            final(self).wf(),
            final(self)@ == old(self)@.insert(key, (data@, (now_ms + ttl_ms) as u64)),
    {
        proof {
            lemma_entries_map(self.entries@);
        }
        let expires = now_ms + ttl_ms;
        let entry = CacheEntry { key, data: vstd::slice::slice_to_vec(data), expires };
        let ghost pre = self.entries@;
        let n = self.entries.len();
        let mut i: usize = 0;
        while i < n
            invariant
                n == self.entries.len(),
                0 <= i <= n,
                self.entries@ == pre,
                pre == old(self).entries@,
                seq_wf(pre),
                entry.key == key && entry.data@ == data@ && entry.expires == now_ms + ttl_ms,
                forall|j: int| 0 <= j < i ==> (#[trigger] pre[j]).key != key,
            decreases n - i,
        {
            if self.entries[i].key == key {
                proof {
                    assert(pre[i as int].key == key);
                }
                self.entries.set(i, entry);
                proof {
                    lemma_update_map(pre, i as int, entry);
                }
                return;
            }
            i += 1;
        }
        self.entries.push(entry);
        proof {
            assert(self.entries@.drop_last() == pre);
            assert(self.entries@.last() == entry);
            assert forall|a: int, b: int| 0 <= a < b < self.entries@.len() implies
                (#[trigger] self.entries@[a]).key != (#[trigger] self.entries@[b]).key by {
                if b == self.entries@.len() - 1 {
                    assert(pre[a] == self.entries@[a]);
                } else {
                    assert(pre[a] == self.entries@[a] && pre[b] == self.entries@[b]);
                }
            }
        }
    }

    /// Remove every entry whose expiry has passed as of `now_ms`; unexpired
    /// entries are untouched. Returns how many entries were removed.
    pub fn prune(&mut self, now_ms: u64) -> (removed: usize)
        requires
            old(self).wf(),
        ensures
            final(self).wf(),
            forall|k: CardKey|
                #[trigger] final(self)@.contains_key(k) <==> (old(self)@.contains_key(k) && old(self)@[k].1 > now_ms),
            forall|k: CardKey| #[trigger] final(self)@.contains_key(k) ==> final(self)@[k] == old(self)@[k],
            removed + final(self)@.len() == old(self)@.len(),
    {
        let ghost pre = self.entries@;
        proof {
            lemma_entries_map(pre);
        }
        let mut kept: Vec<CacheEntry> = Vec::new();
        let n = self.entries.len();
        let mut i: usize = 0;
        while i < n
            invariant
                n == self.entries.len(),
                self.entries@ == pre,
                0 <= i <= n,
                seq_wf(pre),
                kept@.len() <= i,
                seq_wf(kept@),
                entries_map(kept@) == kept_upto(pre, i as int, now_ms),
            decreases n - i,
        {
            proof {
                lemma_kept_upto(pre, i as int, now_ms);
                lemma_kept_upto(pre, i + 1, now_ms);
            }
            let e = &self.entries[i];
            if e.expires > now_ms {
                let entry = CacheEntry { key: e.key, data: e.data.clone(), expires: e.expires };
                proof {
                    if entries_map(kept@).contains_key(entry.key) {
                        lemma_entries_map(kept@);
                        let j = choose|j: int| 0 <= j < kept@.len() && (#[trigger] kept@[j]).key == entry.key;
                        let l = choose|l: int| 0 <= l < i && (#[trigger] pre[l]).key == entry.key
                            && pre[l].expires > now_ms;
                        assert(pre[l].key == pre[i as int].key);
                        assert(false);
                    }
                    lemma_entries_map(kept@);
                }
                let ghost old_kept = kept@;
                kept.push(entry);
                proof {
                    assert(kept@.drop_last() == old_kept);
                    assert(kept@.last() == entry);
                    assert forall|a: int, b: int| 0 <= a < b < kept@.len() implies
                        (#[trigger] kept@[a]).key != (#[trigger] kept@[b]).key by {
                        if b < kept@.len() - 1 {
                            assert(old_kept[a] == kept@[a] && old_kept[b] == kept@[b]);
                        } else {
                            assert(old_kept[a] == kept@[a]);
                            assert(!entries_map(old_kept).contains_key(entry.key));
                        }
                    }
                    assert(entries_map(kept@) =~= kept_upto(pre, i + 1, now_ms));
                }
            } else {
                proof {
                    assert(entries_map(kept@) =~= kept_upto(pre, i + 1, now_ms));
                }
            }
            i += 1;
        }
        let removed = n - kept.len();
        proof {
            lemma_entries_map(kept@);
            lemma_kept_upto(pre, n as int, now_ms);
            assert forall|k: CardKey| #[trigger] entries_map(kept@).contains_key(k) implies
                (entries_map(pre).contains_key(k) && entries_map(pre)[k].1 > now_ms
                    && entries_map(kept@)[k] == entries_map(pre)[k]) by {
                let l = choose|l: int| 0 <= l < n && (#[trigger] pre[l]).key == k && pre[l].expires > now_ms;
                assert(entries_map(pre)[k] == (pre[l].data@, pre[l].expires));
            }
            assert forall|k: CardKey| entries_map(pre).contains_key(k) && entries_map(pre)[k].1 > now_ms implies
                #[trigger] entries_map(kept@).contains_key(k) by {
                let l = choose|l: int| 0 <= l < pre.len() && (#[trigger] pre[l]).key == k;
                assert(entries_map(pre)[k] == (pre[l].data@, pre[l].expires));
                assert(pre[l].expires > now_ms);
            }
        }
        self.entries = kept;
        removed
    }
}

/// The mapping kept by a prune sweep that has processed the first `i`
/// entries: those among them whose expiry lies after `now`.
spec fn kept_upto(s: Seq<CacheEntry>, i: int, now: u64) -> Map<CardKey, (Seq<u8>, u64)>
    decreases i,
{
    if i <= 0 {
        Map::empty()
    } else if s[i - 1].expires > now {
        kept_upto(s, i - 1, now).insert(s[i - 1].key, (s[i - 1].data@, s[i - 1].expires))
    } else {
        kept_upto(s, i - 1, now)
    }
}

/// What `kept_upto` holds: exactly the unexpired entries of the prefix.
proof fn lemma_kept_upto(s: Seq<CacheEntry>, i: int, now: u64)
    requires
        seq_wf(s),
        0 <= i <= s.len(),
    ensures
        forall|k: CardKey| #[trigger] kept_upto(s, i, now).contains_key(k)
            <==> exists|l: int| 0 <= l < i && (#[trigger] s[l]).key == k && s[l].expires > now,
        forall|l: int| 0 <= l < i && (#[trigger] s[l]).expires > now
            ==> kept_upto(s, i, now)[s[l].key] == (s[l].data@, s[l].expires),
    decreases i,
{
    if i > 0 {
        lemma_kept_upto(s, i - 1, now);
        assert forall|k: CardKey| #[trigger] kept_upto(s, i, now).contains_key(k) implies
            exists|l: int| 0 <= l < i && (#[trigger] s[l]).key == k && s[l].expires > now by {
            if s[i - 1].expires > now && k == s[i - 1].key {
                assert(s[i - 1].key == k && s[i - 1].expires > now);
            } else {
                assert(kept_upto(s, i - 1, now).contains_key(k));
            }
        }
        assert forall|k: CardKey|
            (exists|l: int| 0 <= l < i && (#[trigger] s[l]).key == k && s[l].expires > now) implies
            #[trigger] kept_upto(s, i, now).contains_key(k) by {
            let l = choose|l: int| 0 <= l < i && (#[trigger] s[l]).key == k && s[l].expires > now;
            if l < i - 1 {
                assert(kept_upto(s, i - 1, now).contains_key(k));
            }
        }
        assert forall|l: int| 0 <= l < i && (#[trigger] s[l]).expires > now implies
            kept_upto(s, i, now)[s[l].key] == (s[l].data@, s[l].expires) by {
            if l < i - 1 {
                assert(s[l].key != s[i - 1].key);
            }
        }
    }
}

/// Replacing the entry at the unique position of its key updates exactly
/// that key in the denoted map.
proof fn lemma_update_map(s: Seq<CacheEntry>, i: int, e: CacheEntry)
    requires
        seq_wf(s),
        0 <= i < s.len(),
        s[i].key == e.key,
    ensures
        seq_wf(s.update(i, e)),
        entries_map(s.update(i, e)) == entries_map(s).insert(e.key, (e.data@, e.expires)),
    decreases s.len(),
{
    let t = s.update(i, e);
    assert forall|a: int, b: int| 0 <= a < b < t.len() implies
        (#[trigger] t[a]).key != (#[trigger] t[b]).key by {
        assert(s[a].key != s[b].key);
        assert(t[a].key == s[a].key && t[b].key == s[b].key);
    }
    if i == s.len() - 1 {
        assert(t.drop_last() == s.drop_last());
        assert(entries_map(t) == entries_map(s.drop_last()).insert(e.key, (e.data@, e.expires)));
        assert(entries_map(s) == entries_map(s.drop_last()).insert(e.key, (s[i].data@, s[i].expires)));
        assert(entries_map(t) =~= entries_map(s).insert(e.key, (e.data@, e.expires)));
    } else {
        assert(t.drop_last() == s.drop_last().update(i, e));
        assert(t.last() == s.last());
        lemma_update_map(s.drop_last(), i, e);
        assert(s.last().key != e.key) by {
            assert(s[i].key != s[s.len() - 1].key);
        }
        assert(entries_map(t) =~= entries_map(s).insert(e.key, (e.data@, e.expires)));
    }
}

} // verus!
