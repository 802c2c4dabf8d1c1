//! The table-scoped result cache and the cache keys that address it.
//!
//! A cache key is derived deterministically from (table name, SQL text,
//! ordered parameter values): the decimal renderings of three 64-bit FNV-1a
//! hashes joined by `_`, the table hash first. Invalidation removes every
//! key that starts with the target table's hash, so a committed write to a
//! table purges all of that table's cached reads at once.

use vstd::prelude::*;

use crate::db::table::{lemma_name_index, name_index};
use crate::scalar::{Scalar, ScalarV};
use crate::text::{dec_of, has_prefix, str_starts_with, u64_to_string};

verus! {

/// Rows come out of the external projector as opaque JSON values; the cache
/// stores and returns them without reading inside.
#[verifier::external_type_specification]
#[verifier::external_body]
pub struct ExValue(serde_json::Value);

/// The bounded LRU map that physically holds the cached result sets.
#[verifier::external_type_specification]
#[verifier::external_body]
#[verifier::reject_recursive_types(K)]
#[verifier::reject_recursive_types(V)]
#[verifier::reject_recursive_types(S)]
pub struct ExLruCache<K: core::cmp::Eq + core::hash::Hash, V, S: core::hash::BuildHasher>(
    lru_cache::LruCache<K, V, S>,
);

/// What the LRU store holds: its entries as (key, rows) pairs in recency
/// order, least recently used first, most recently used last.
pub uninterp spec fn lru_seq(c: lru_cache::LruCache<String, Vec<serde_json::Value>>) -> Seq<
    (Seq<char>, Seq<serde_json::Value>),
>;

/// The fixed capacity that the LRU store was created with.
pub uninterp spec fn lru_capacity(c: lru_cache::LruCache<String, Vec<serde_json::Value>>) -> nat;

/// The keys of the cache model, in recency order.
pub open spec fn cache_keys(c: Seq<(Seq<char>, Seq<serde_json::Value>)>) -> Seq<Seq<char>> {
    Seq::new(c.len(), |i: int| c[i].0)
}

pub open spec fn keys_unique(c: Seq<(Seq<char>, Seq<serde_json::Value>)>) -> bool {
    forall|i: int, j: int| 0 <= i < j < c.len() ==> c[i].0 != c[j].0
}

/// The rows cached under a key, if any.
pub open spec fn cache_lookup(
    c: Seq<(Seq<char>, Seq<serde_json::Value>)>,
    key: Seq<char>,
) -> Option<Seq<serde_json::Value>> {
    let i = name_index(cache_keys(c), key);
    if i >= 0 {
        Some(c[i].1)
    } else {
        None
    }
}

/// The cache after a hit on `key`: the entry moves to most recent.
pub open spec fn cache_promote(
    c: Seq<(Seq<char>, Seq<serde_json::Value>)>,
    key: Seq<char>,
) -> Seq<(Seq<char>, Seq<serde_json::Value>)> {
    let i = name_index(cache_keys(c), key);
    c.remove(i).push(c[i])
}

/// The cache after storing `rows` under `key`: an existing entry is
/// replaced and refreshed; a new entry is appended as most recent, evicting
/// the least recently used entry when the cache is full. A zero-capacity
/// cache holds nothing, so storing into it changes nothing.
pub open spec fn cache_store(
    c: Seq<(Seq<char>, Seq<serde_json::Value>)>,
    key: Seq<char>,
    rows: Seq<serde_json::Value>,
    cap: nat,
) -> Seq<(Seq<char>, Seq<serde_json::Value>)> {
    let i = name_index(cache_keys(c), key);
    if i >= 0 {
        c.remove(i).push((key, rows))
    } else if cap == 0 {
        c
    } else if c.len() >= cap {
        c.drop_first().push((key, rows))
    } else {
        c.push((key, rows))
    }
}

/// The cache after table-scoped invalidation: every entry whose key starts
/// with the prefix is gone, the rest keep their order.
pub open spec fn cache_drop_prefix(
    c: Seq<(Seq<char>, Seq<serde_json::Value>)>,
    p: Seq<char>,
) -> Seq<(Seq<char>, Seq<serde_json::Value>)>
    decreases c.len(),
{
    if c.len() == 0 {
        c
    } else {
        let rest = cache_drop_prefix(c.drop_last(), p);
        if has_prefix(c.last().0, p) {
            rest
        } else {
            rest.push(c.last())
        }
    }
}

/// Relies on lru_cache::LruCache::new: an empty cache with the given
/// capacity.
#[verifier::external_body]
fn lru_new(capacity: usize) -> (c: lru_cache::LruCache<String, Vec<serde_json::Value>>)
    ensures
        lru_seq(c) == Seq::<(Seq<char>, Seq<serde_json::Value>)>::empty(),
        lru_capacity(c) == capacity as nat,
{
    lru_cache::LruCache::new(capacity)
}

/// Relies on lru_cache::LruCache::get_mut, which refreshes the entry it
/// finds, and on Clone for the stored rows: the copy equals what is stored.
#[verifier::external_body]
fn lru_get(c: &mut lru_cache::LruCache<String, Vec<serde_json::Value>>, key: &String) -> (r:
    Option<Vec<serde_json::Value>>)
    ensures
        lru_capacity(*final(c)) == lru_capacity(*old(c)),
        ({
            let s = lru_seq(*old(c));
            let i = name_index(cache_keys(s), key@);
            &&& (i < 0 ==> r is None && lru_seq(*final(c)) == s)
            &&& (i >= 0 ==> r is Some && r->0@ == s[i].1 && lru_seq(*final(c)) == s.remove(
                i,
            ).push(s[i]))
        }),
{
    c.get_mut(key).cloned()
}

/// Relies on lru_cache::LruCache::insert, which replaces and refreshes an
/// existing key, appends a new one as most recent, and then removes the
/// least recently used entry if the cache has grown past its capacity.
#[verifier::external_body]
fn lru_insert(
    c: &mut lru_cache::LruCache<String, Vec<serde_json::Value>>,
    key: String,
    rows: Vec<serde_json::Value>,
)
    ensures
        lru_capacity(*final(c)) == lru_capacity(*old(c)),
        ({
            let s = lru_seq(*old(c));
            let i = name_index(cache_keys(s), key@);
            &&& (i >= 0 ==> lru_seq(*final(c)) == s.remove(i).push((key@, rows@)))
            &&& (i < 0 && s.len() < lru_capacity(*old(c)) ==> lru_seq(*final(c)) == s.push(
                (key@, rows@),
            ))
            &&& (i < 0 && s.len() >= lru_capacity(*old(c)) ==> lru_seq(*final(c)) == s.push(
                (key@, rows@),
            ).drop_first())
        }),
{
    c.insert(key, rows);
}

/// Relies on lru_cache::LruCache::remove: the entry with the key leaves,
/// the rest keep their order.
#[verifier::external_body]
fn lru_remove(c: &mut lru_cache::LruCache<String, Vec<serde_json::Value>>, key: &String)
    ensures
        lru_capacity(*final(c)) == lru_capacity(*old(c)),
        ({
            let s = lru_seq(*old(c));
            let i = name_index(cache_keys(s), key@);
            &&& (i < 0 ==> lru_seq(*final(c)) == s)
            &&& (i >= 0 ==> lru_seq(*final(c)) == s.remove(i))
        }),
{
    c.remove(key);
}

pub open spec fn fnv_offset() -> u64 {
    0xcbf29ce484222325u64
}

pub open spec fn fnv_prime() -> u64 {
    0x100000001b3u64
}

pub open spec fn mul_wrap64(a: u64, b: u64) -> u64 {
    ((a as nat * b as nat) % 0x1_0000_0000_0000_0000nat) as u64
}

/// One FNV-1a step: fold a character's code point into the hash.
pub open spec fn fnv_step(h: u64, c: char) -> u64 {
    mul_wrap64(h ^ (c as u64), fnv_prime())
}

/// The 64-bit FNV-1a hash of a character sequence.
pub open spec fn fnv64(s: Seq<char>) -> u64
    decreases s.len(),
{
    if s.len() == 0 {
        fnv_offset()
    } else {
        fnv_step(fnv64(s.drop_last()), s.last())
    }
}

/// Computes the 64-bit FNV-1a hash of a string.
pub fn fnv64_str(s: &str) -> (h: u64)
    ensures
        h == fnv64(s@),
{
    let n = s.unicode_len();
    let mut h: u64 = 0xcbf29ce484222325u64;
    let mut i: usize = 0;
    while i < n
        invariant
            0 <= i <= n,
            n == s@.len(),
            h == fnv64(s@.subrange(0, i as int)),
        decreases n - i,
    {
        let c = s.get_char(i);
        h = (h ^ (c as u64)).wrapping_mul(0x100000001b3u64);
        proof {
            let pre = s@.subrange(0, i as int);
            let cur = s@.subrange(0, i + 1);
            assert(cur.drop_last() =~= pre);
            assert(cur.last() == s@[i as int]);
        }
        i = i + 1;
    }
    proof {
        assert(s@.subrange(0, n as int) =~= s@);
    }
    h
}

/// The canonical, collision-free encoding of one parameter value: a tag,
/// a length or sign where one is needed, and the value itself.
pub open spec fn scalar_enc(v: ScalarV) -> Seq<char> {
    match v {
        ScalarV::Str(s) => "s"@ + dec_of(s.len()) + ":"@ + s,
        ScalarV::Int(i) => "i"@ + (if i >= 0 {
            dec_of(i as nat)
        } else {
            "-"@ + dec_of((-i) as nat)
        }) + ";"@,
        ScalarV::Bool(b) => (if b {
            "b1"@
        } else {
            "b0"@
        }),
    }
}

/// The canonical encoding of an ordered parameter list.
pub open spec fn params_enc(ps: Seq<ScalarV>) -> Seq<char>
    decreases ps.len(),
{
    if ps.len() == 0 {
        Seq::empty()
    } else {
        params_enc(ps.drop_last()) + scalar_enc(ps.last())
    }
}

/// The cache key of a (table, SQL text, ordered parameters) triple: three
/// hash renderings joined by `_`, the table's first.
pub open spec fn cache_key_spec(table: Seq<char>, query: Seq<char>, ps: Seq<ScalarV>) -> Seq<
    char,
> {
    dec_of(fnv64(table) as nat) + "_"@ + dec_of(fnv64(query) as nat) + "_"@ + dec_of(
        fnv64(params_enc(ps)) as nat,
    )
}

/// The key index mirrors the store: same keys, same order.
pub open spec fn key_views(ks: Seq<String>) -> Seq<Seq<char>> {
    Seq::new(ks.len(), |i: int| ks[i]@)
}

pub open spec fn keys_mirror(
    c: Seq<(Seq<char>, Seq<serde_json::Value>)>,
    ks: Seq<String>,
) -> bool {
    &&& ks.len() == c.len()
    &&& forall|i: int| 0 <= i < c.len() ==> (#[trigger] ks[i])@ == c[i].0
}

proof fn lemma_mirror_remove_push(
    c: Seq<(Seq<char>, Seq<serde_json::Value>)>,
    ks: Seq<String>,
    i: int,
    e: (Seq<char>, Seq<serde_json::Value>),
    kk: String,
)
    requires
        keys_mirror(c, ks),
        0 <= i < c.len(),
        kk@ == e.0,
    ensures
        keys_mirror(c.remove(i).push(e), ks.remove(i).push(kk)),
{
    let c2 = c.remove(i).push(e);
    let k2 = ks.remove(i).push(kk);
    assert forall|j: int| 0 <= j < c2.len() implies (#[trigger] k2[j])@ == c2[j].0 by {
        if j < i {
            assert(c2[j] == c[j]);
            assert(k2[j] == ks[j]);
        } else if j < c.len() - 1 {
            assert(c2[j] == c[j + 1]);
            assert(k2[j] == ks[j + 1]);
        }
    }
}

proof fn lemma_unique_remove_push(
    c: Seq<(Seq<char>, Seq<serde_json::Value>)>,
    i: int,
    e: (Seq<char>, Seq<serde_json::Value>),
)
    requires
        keys_unique(c),
        0 <= i < c.len(),
        forall|j: int| 0 <= j < c.len() && j != i ==> (#[trigger] c[j]).0 != e.0,
    ensures
        keys_unique(c.remove(i).push(e)),
{
    let c2 = c.remove(i).push(e);
    assert forall|a: int, b: int| 0 <= a < b < c2.len() implies c2[a].0 != c2[b].0 by {
        let oa = if a < i {
            a
        } else {
            a + 1
        };
        if b < c2.len() - 1 {
            let ob = if b < i {
                b
            } else {
                b + 1
            };
            assert(c2[a] == c[oa]);
            assert(c2[b] == c[ob]);
        } else {
            assert(c2[a] == c[oa]);
            assert(c2[b] == e);
            assert(oa != i);
        }
    }
}

/// Position of a key in the key index.
fn key_pos(keys: &Vec<String>, key: &str) -> (r: Option<usize>)
    ensures
        r is Some <==> name_index(key_views(keys@), key@) >= 0,
        r is Some ==> r->0 == name_index(key_views(keys@), key@) && r->0 < keys@.len(),
{
    let ghost names = key_views(keys@);
    let n = keys.len();
    let mut i: usize = 0;
    while i < n
        invariant
            0 <= i <= n,
            n == keys@.len(),
            names == key_views(keys@),
            forall|k: int| 0 <= k < i ==> #[trigger] names[k] != key@,
        decreases n - i,
    {
        if crate::text::str_eq(keys[i].as_str(), key) {
            proof {
                assert(names[i as int] == key@);
                lemma_name_index(names, key@);
                let ci = name_index(names, key@);
                if ci == -1 {
                    assert(names[i as int] != key@);
                } else if ci < i as int {
                    assert(names[ci] != key@);
                } else if ci > i as int {
                    assert(names[i as int] != key@);
                }
            }
            return Some(i);
        }
        i = i + 1;
    }
    proof {
        lemma_name_index(names, key@);
        if name_index(names, key@) >= 0 {
            let ci = name_index(names, key@);
            assert(names[ci] != key@);
        }
    }
    None
}

/// The bounded, table-scoped result cache: a strict LRU store of projected
/// row sets, with a key index that lets a whole table's entries be purged
/// by their shared key prefix.
pub struct CacheManager {
    capacity: usize,
    store: lru_cache::LruCache<String, Vec<serde_json::Value>>,
    keys: Vec<String>,
}

impl View for CacheManager {
    type V = Seq<(Seq<char>, Seq<serde_json::Value>)>;

    closed spec fn view(&self) -> Seq<(Seq<char>, Seq<serde_json::Value>)> {
        lru_seq(self.store)
    }
}

impl CacheManager {
    /// The configured capacity.
    pub closed spec fn cap(&self) -> nat {
        self.capacity as nat
    }

    /// Well-formed: the store respects its capacity, the key index mirrors
    /// the store in order, and no key occurs twice.
    pub closed spec fn wf(&self) -> bool {
        &&& lru_capacity(self.store) == self.capacity as nat
        &&& self@.len() <= self.capacity as nat
        &&& keys_mirror(self@, self.keys@)
        &&& keys_unique(self@)
    }

    /// Capacity bound: a well-formed cache never holds more entries than
    /// its configured capacity.
    pub proof fn lemma_capacity_bound(&self)
        requires
            self.wf(),
        ensures
            self@.len() <= self.cap(),
    {
    }

    /// A well-formed cache holds each key at most once.
    pub proof fn lemma_wf_unique(&self)
        requires
            self.wf(),
        ensures
            keys_unique(self@),
    {
    }

    /// An empty cache with the given capacity.
    pub fn new(capacity: usize) -> (r: CacheManager)
        ensures
            r.wf(),
            r@ == Seq::<(Seq<char>, Seq<serde_json::Value>)>::empty(),
            r.cap() == capacity as nat,
    {
        let r = CacheManager { capacity, store: lru_new(capacity), keys: Vec::new() };
        r
    }

    /// Looks a key up; a hit returns a copy of the cached rows and promotes
    /// the entry to most recently used, a miss changes nothing.
    pub fn get(&mut self, key: &String) -> (r: Option<Vec<serde_json::Value>>)
        requires
            old(self).wf(),
        ensures
            final(self).wf(),
            final(self).cap() == old(self).cap(),
            r is Some <==> cache_lookup(old(self)@, key@) is Some,
            r is Some ==> r->0@ == cache_lookup(old(self)@, key@)->0,
            final(self)@ == (if cache_lookup(old(self)@, key@) is Some {
                cache_promote(old(self)@, key@)
            } else {
                old(self)@
            }),
    {
        let ghost c = self@;
        proof {
            assert(cache_keys(c) =~= key_views(self.keys@));
        }
        match key_pos(&self.keys, key.as_str()) {
            None => {
                proof {
                    assert(name_index(cache_keys(c), key@) < 0);
                }
                None
            },
            Some(i) => {
                let r = lru_get(&mut self.store, key);
                let k = self.keys.remove(i);
                self.keys.push(k);
                proof {
                    let ni = name_index(cache_keys(c), key@);
                    assert(ni == i as int);
                    assert(self@ == c.remove(i as int).push(c[i as int]));
                    lemma_mirror_remove_push(c, old(self).keys@, i as int, c[i as int], k);
                    lemma_unique_remove_push(c, i as int, c[i as int]);
                    assert(self@.len() == c.len());
                }
                r
            },
        }
    }

    /// Stores rows under a key: an existing entry is replaced and
    /// refreshed; a new entry is appended as most recent, evicting the
    /// least recently used entry when the cache is at capacity.
    pub fn insert(&mut self, key: String, value: Vec<serde_json::Value>)
        requires
            old(self).wf(),
        ensures
            final(self).wf(),
            final(self).cap() == old(self).cap(),
            final(self)@ == cache_store(old(self)@, key@, value@, old(self).cap()),
    {
        let ghost c = self@;
        let ghost e = (key@, value@);
        proof {
            assert(cache_keys(c) =~= key_views(self.keys@));
        }
        let kcopy = key.clone();
        match key_pos(&self.keys, key.as_str()) {
            Some(i) => {
                proof {
                    assert(name_index(cache_keys(c), key@) == i as int);
                    lemma_name_index(cache_keys(c), key@);
                }
                lru_insert(&mut self.store, key, value);
                let _ = self.keys.remove(i);
                self.keys.push(kcopy);
                proof {
                    assert(self@ == c.remove(i as int).push(e));
                    lemma_mirror_remove_push(c, old(self).keys@, i as int, e, kcopy);
                    assert forall|j: int|
                        0 <= j < c.len() && j != i as int implies (#[trigger] c[j]).0 != e.0 by {
                        if j < i as int {
                            assert(cache_keys(c)[j] != key@);
                        } else {
                            assert(c[i as int].0 == key@);
                        }
                    }
                    lemma_unique_remove_push(c, i as int, e);
                }
            },
            None => {
                proof {
                    assert(name_index(cache_keys(c), key@) < 0);
                    lemma_name_index(cache_keys(c), key@);
                    assert forall|j: int| 0 <= j < c.len() implies (#[trigger] c[j]).0 != key@ by {
                        assert(cache_keys(c)[j] != key@);
                    }
                }
                if self.capacity == 0 {
                    proof {
                        assert(c.len() == 0);
                        assert(self@ =~= cache_store(c, key@, value@, old(self).cap()));
                    }
                    return;
                }
                if self.keys.len() == self.capacity {
                    lru_insert(&mut self.store, key, value);
                    let _ = self.keys.remove(0);
                    self.keys.push(kcopy);
                    proof {
                        assert(self@ == c.push(e).drop_first());
                        assert(c.push(e).drop_first() =~= c.drop_first().push(e));
                        assert(keys_mirror(self@, self.keys@)) by {
                            assert(self.keys@ =~= old(self).keys@.remove(0).push(kcopy));
                            assert forall|j: int|
                                0 <= j < self@.len() implies (#[trigger] self.keys@[j])@
                                == self@[j].0 by {
                                if j < c.len() - 1 {
                                    assert(self@[j] == c[j + 1]);
                                    assert(self.keys@[j] == old(self).keys@[j + 1]);
                                } else {
                                    assert(self@[j] == e);
                                }
                            }
                        }
                        assert(keys_unique(self@)) by {
                            assert forall|a: int, b: int|
                                0 <= a < b < self@.len() implies self@[a].0 != self@[b].0 by {
                                if b < self@.len() - 1 {
                                    assert(self@[a] == c[a + 1]);
                                    assert(self@[b] == c[b + 1]);
                                } else {
                                    assert(self@[a] == c[a + 1]);
                                    assert(self@[b] == e);
                                }
                            }
                        }
                    }
                } else {
                    lru_insert(&mut self.store, key, value);
                    self.keys.push(kcopy);
                    proof {
                        assert(self@ == c.push(e));
                        assert(keys_mirror(self@, self.keys@)) by {
                            assert forall|j: int|
                                0 <= j < self@.len() implies (#[trigger] self.keys@[j])@
                                == self@[j].0 by {
                                if j < c.len() {
                                    assert(self@[j] == c[j]);
                                    assert(self.keys@[j] == old(self).keys@[j]);
                                }
                            }
                        }
                        assert(keys_unique(self@)) by {
                            assert forall|a: int, b: int|
                                0 <= a < b < self@.len() implies self@[a].0 != self@[b].0 by {
                                if b < c.len() {
                                    assert(self@[a] == c[a]);
                                    assert(self@[b] == c[b]);
                                } else {
                                    assert(self@[a] == c[a]);
                                    assert(self@[b] == e);
                                }
                            }
                        }
                    }
                }
            },
        }
    }

    /// Removes every entry whose key starts with the prefix; the remaining
    /// entries keep their order. A reader before this call sees the whole
    /// pre-invalidation set, a reader after it sees none of the purged
    /// entries.
    pub fn remove_by_prefix(&mut self, prefix: &str)
        requires
            old(self).wf(),
        ensures
            final(self).wf(),
            final(self).cap() == old(self).cap(),
            final(self)@ == cache_drop_prefix(old(self)@, prefix@),
    {
        let ghost c0 = self@;
        let ghost mut k: int = 0;
        let mut i: usize = 0;
        proof {
            assert(c0.subrange(0, 0) =~= Seq::<(Seq<char>, Seq<serde_json::Value>)>::empty());
            assert(cache_drop_prefix(c0.subrange(0, 0), prefix@) + c0.skip(0) =~= c0);
        }
        while i < self.keys.len()
            invariant
                0 <= i <= self.keys@.len(),
                0 <= k <= c0.len(),
                self.wf(),
                self.cap() == old(self).cap(),
                self@ == cache_drop_prefix(c0.subrange(0, k), prefix@) + c0.skip(k),
                i as int == cache_drop_prefix(c0.subrange(0, k), prefix@).len(),
            decreases c0.len() - k,
        {
            proof {
                assert(self@[i as int] == c0[k]);
                assert(cache_keys(self@) =~= key_views(self.keys@));
                assert(self.keys@[i as int]@ == c0[k].0);
            }
            let ghost c = self@;
            let hit = str_starts_with(self.keys[i].as_str(), prefix);
            if hit {
                proof {
                    lemma_name_index(cache_keys(c), c0[k].0);
                    let ci = name_index(cache_keys(c), c0[k].0);
                    if ci >= 0 && ci != i as int {
                        assert(c[ci].0 == c[i as int].0);
                        assert(false);
                    }
                    if ci < 0 {
                        assert(cache_keys(c)[i as int] != c0[k].0);
                        assert(false);
                    }
                }
                let ghost ks_pre = self.keys@;
                let kk = self.keys.remove(i);
                lru_remove(&mut self.store, &kk);
                proof {
                    assert(self@ == c.remove(i as int));
                    let pre = c0.subrange(0, k);
                    let cur = c0.subrange(0, k + 1);
                    assert(cur.drop_last() =~= pre);
                    assert(cur.last() == c0[k]);
                    assert(has_prefix(c0[k].0, prefix@));
                    assert(cache_drop_prefix(cur, prefix@) == cache_drop_prefix(pre, prefix@));
                    assert(self@ =~= cache_drop_prefix(cur, prefix@) + c0.skip(k + 1));
                    assert(keys_mirror(self@, self.keys@)) by {
                        assert forall|j: int|
                            0 <= j < self@.len() implies (#[trigger] self.keys@[j])@
                            == self@[j].0 by {
                            if j < i as int {
                                assert(self@[j] == c[j]);
                                assert(self.keys@[j] == ks_pre[j]);
                            } else {
                                assert(self@[j] == c[j + 1]);
                                assert(self.keys@[j] == ks_pre[j + 1]);
                            }
                        }
                    }
                    assert(keys_unique(self@)) by {
                        assert forall|a: int, b: int|
                            0 <= a < b < self@.len() implies self@[a].0 != self@[b].0 by {
                            let oa = if a < i as int {
                                a
                            } else {
                                a + 1
                            };
                            let ob = if b < i as int {
                                b
                            } else {
                                b + 1
                            };
                            assert(self@[a] == c[oa]);
                            assert(self@[b] == c[ob]);
                        }
                    }
                    k = k + 1;
                }
            } else {
                proof {
                    let pre = c0.subrange(0, k);
                    let cur = c0.subrange(0, k + 1);
                    assert(cur.drop_last() =~= pre);
                    assert(cur.last() == c0[k]);
                    assert(!has_prefix(c0[k].0, prefix@));
                    assert(cache_drop_prefix(cur, prefix@) == cache_drop_prefix(pre, prefix@).push(
                        c0[k],
                    ));
                    assert(cache_drop_prefix(cur, prefix@) + c0.skip(k + 1) =~= cache_drop_prefix(
                        pre,
                        prefix@,
                    ) + c0.skip(k));
                    k = k + 1;
                }
                i = i + 1;
            }
        }
        proof {
            assert(self.keys@.len() == self@.len());
            assert(c0.skip(k) =~= Seq::<(Seq<char>, Seq<serde_json::Value>)>::empty());
            assert(c0.subrange(0, k) =~= c0);
            assert(self@ =~= cache_drop_prefix(c0, prefix@));
        }
    }
}

/// Every entry that survives table-scoped invalidation lacks the purged
/// prefix.
proof fn lemma_drop_prefix_clean(
    c: Seq<(Seq<char>, Seq<serde_json::Value>)>,
    p: Seq<char>,
)
    ensures
        forall|j: int|
            0 <= j < cache_drop_prefix(c, p).len() ==> !has_prefix(
                (#[trigger] cache_drop_prefix(c, p)[j]).0,
                p,
            ),
    decreases c.len(),
{
    if c.len() > 0 {
        lemma_drop_prefix_clean(c.drop_last(), p);
        let rest = cache_drop_prefix(c.drop_last(), p);
        let d = cache_drop_prefix(c, p);
        assert forall|j: int| 0 <= j < d.len() implies !has_prefix((#[trigger] d[j]).0, p) by {
            if !has_prefix(c.last().0, p) {
                if j < rest.len() {
                    assert(d[j] == rest[j]);
                    assert(!has_prefix(rest[j].0, p));
                } else {
                    assert(d[j] == c.last());
                }
            } else {
                assert(d[j] == rest[j]);
                assert(!has_prefix(rest[j].0, p));
            }
        }
    }
}

/// Cache idempotence: after a retrieve stores its rows under its key, an
/// identical retrieve finds exactly those rows in the cache — and still
/// finds them after the hit, since a hit only promotes the entry.
pub proof fn lemma_retrieve_idempotent(
    c: Seq<(Seq<char>, Seq<serde_json::Value>)>,
    cap: nat,
    key: Seq<char>,
    rows: Seq<serde_json::Value>,
)
    requires
        keys_unique(c),
        cap >= 1,
    ensures
        cache_lookup(cache_store(c, key, rows, cap), key) == Some(rows),
        cache_lookup(cache_promote(cache_store(c, key, rows, cap), key), key) == Some(rows),
{
    let c1 = cache_store(c, key, rows, cap);
    let i = name_index(cache_keys(c), key);
    lemma_name_index(cache_keys(c), key);
    assert(c1.len() >= 1);
    assert(c1.last() == (key, rows));
    assert forall|j: int| 0 <= j < c1.len() - 1 implies (#[trigger] c1[j]).0 != key by {
        if i >= 0 {
            assert(c[i].0 == cache_keys(c)[i]);
            let oj = if j < i {
                j
            } else {
                j + 1
            };
            assert(c1[j] == c[oj]);
        } else {
            if c.len() >= cap {
                assert(c1[j] == c[j + 1]);
                assert(cache_keys(c)[j + 1] != key);
            } else {
                assert(c1[j] == c[j]);
                assert(cache_keys(c)[j] != key);
            }
        }
    }
    lemma_name_index(cache_keys(c1), key);
    let ci = name_index(cache_keys(c1), key);
    assert(cache_keys(c1)[c1.len() - 1] == key);
    if ci < 0 {
        assert(cache_keys(c1)[c1.len() - 1] != key);
    }
    assert(cache_keys(c1)[ci] == c1[ci].0);
    assert(ci == c1.len() - 1);
    assert(cache_lookup(c1, key) == Some(rows));
    let c2 = cache_promote(c1, key);
    assert(c2 =~= c1);
}

/// Invalidation completeness: after the table-scoped invalidation that a
/// committed write to a table triggers, no retrieve key of that table
/// remains in the cache — whatever the retrieve's SQL text and parameters
/// — because every such key starts with the table's hash prefix.
pub proof fn lemma_invalidation_complete(
    c: Seq<(Seq<char>, Seq<serde_json::Value>)>,
    t: Seq<char>,
    q: Seq<char>,
    ps: Seq<ScalarV>,
)
    ensures
        cache_lookup(cache_drop_prefix(c, dec_of(fnv64(t) as nat)), cache_key_spec(t, q, ps))
            is None,
{
    let p = dec_of(fnv64(t) as nat);
    let key = cache_key_spec(t, q, ps);
    assert(has_prefix(key, p)) by {
        assert(key.subrange(0, p.len() as int) =~= p);
    }
    let d = cache_drop_prefix(c, p);
    lemma_drop_prefix_clean(c, p);
    lemma_name_index(cache_keys(d), key);
    let ci = name_index(cache_keys(d), key);
    if ci >= 0 {
        assert(cache_keys(d)[ci] == d[ci].0);
        assert(d[ci].0 == key);
        assert(!has_prefix(d[ci].0, p));
    }
}

/// Capacity bound with strict LRU eviction: storing into a cache that
/// respects its capacity keeps it within capacity, and when a nonempty
/// cache is full and the key is new, exactly the least recently used entry
/// — the front of the recency order — leaves.
pub proof fn lemma_store_capacity(
    c: Seq<(Seq<char>, Seq<serde_json::Value>)>,
    key: Seq<char>,
    rows: Seq<serde_json::Value>,
    cap: nat,
)
    requires
        c.len() <= cap,
    ensures
        cache_store(c, key, rows, cap).len() <= cap,
        name_index(cache_keys(c), key) < 0 && c.len() == cap && cap >= 1 ==> cache_store(
            c,
            key,
            rows,
            cap,
        ) =~= c.drop_first().push((key, rows)),
{
    let i = name_index(cache_keys(c), key);
    lemma_name_index(cache_keys(c), key);
    if i >= 0 {
        assert(cache_store(c, key, rows, cap).len() == c.len());
    }
}

/// Derives the cache keys that address the result cache.
pub struct CacheKey;

impl CacheKey {
    /// The invalidation prefix of a table: the decimal rendering of the
    /// table name's hash. Every cache key for the table starts with it.
    pub fn generate_table_cache_hash(table_name: &str) -> (r: String)
        ensures
            r@ == dec_of(fnv64(table_name@) as nat),
    {
        u64_to_string(fnv64_str(table_name))
    }

    /// The hash rendering of a statement's SQL text.
    pub fn generate_query_cache_hash(query: &str) -> (r: String)
        ensures
            r@ == dec_of(fnv64(query@) as nat),
    {
        u64_to_string(fnv64_str(query))
    }

    /// The hash rendering of an ordered parameter list, over its canonical
    /// encoding.
    pub fn generate_params_cache_hash(params: &Vec<Scalar>) -> (r: String)
        ensures
            r@ == dec_of(fnv64(params_enc(params.deep_view())) as nat),
    {
        let mut enc = String::new();
        let n = params.len();
        let mut i: usize = 0;
        proof {
            assert(params.deep_view().subrange(0, 0) =~= Seq::<ScalarV>::empty());
            assert(enc@ =~= params_enc(params.deep_view().subrange(0, 0)));
        }
        while i < n
            invariant
                0 <= i <= n,
                n == params@.len(),
                params.deep_view().len() == n,
                enc@ == params_enc(params.deep_view().subrange(0, i as int)),
            decreases n - i,
        {
            proof {
                reveal_strlit("s");
                reveal_strlit(":");
                reveal_strlit("i");
                reveal_strlit("-");
                reveal_strlit(";");
                reveal_strlit("b1");
                reveal_strlit("b0");
            }
            match &params[i] {
                Scalar::Str(s) => {
                    enc.append("s");
                    let len_str = u64_to_string(s.unicode_len() as u64);
                    enc.append(len_str.as_str());
                    enc.append(":");
                    enc.append(s.as_str());
                },
                Scalar::Int(v) => {
                    enc.append("i");
                    if *v >= 0 {
                        let m = u64_to_string(*v as u64);
                        enc.append(m.as_str());
                    } else {
                        enc.append("-");
                        let mag: u64 = ((0i128 - (*v as i128))) as u64;
                        let m = u64_to_string(mag);
                        enc.append(m.as_str());
                    }
                    enc.append(";");
                },
                Scalar::Bool(bv) => {
                    if *bv {
                        enc.append("b1");
                    } else {
                        enc.append("b0");
                    }
                },
            }
            proof {
                let pre = params.deep_view().subrange(0, i as int);
                let cur = params.deep_view().subrange(0, i + 1);
                assert(cur.drop_last() =~= pre);
                assert(cur.last() == params.deep_view()[i as int]);
                assert(params.deep_view()[i as int] == params@[i as int]@);
                assert(enc@ =~= params_enc(cur));
            }
            i = i + 1;
        }
        proof {
            assert(params.deep_view().subrange(0, n as int) =~= params.deep_view());
        }
        u64_to_string(fnv64_str(enc.as_str()))
    }

    /// The cache key of a compiled retrieve: table, SQL text and parameters
    /// combined, deterministically.
    pub fn generate_cache_key(table_name: &str, query: &str, params: &Vec<Scalar>) -> (r: String)
        ensures
            r@ == cache_key_spec(table_name@, query@, params.deep_view()),
    {
        proof {
            reveal_strlit("_");
        }
        let mut key = Self::generate_table_cache_hash(table_name);
        key.append("_");
        let qh = Self::generate_query_cache_hash(query);
        key.append(qh.as_str());
        key.append("_");
        let ph = Self::generate_params_cache_hash(params);
        key.append(ph.as_str());
        proof {
            assert(key@ =~= cache_key_spec(table_name@, query@, params.deep_view()));
        }
        key
    }
}

} // verus!

