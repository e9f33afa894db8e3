use vstd::prelude::*;

use crate::proofinfo::{k_param_name, push_decimal};
use std::collections::hash_map::RandomState;

verus! {

#[verifier::external_type_specification]
#[verifier::external_body]
#[verifier::reject_recursive_types(K)]
#[verifier::reject_recursive_types(V)]
#[verifier::reject_recursive_types(S)]
pub struct ExLruCache<K, V, S>(lru::LruCache<K, V, S>);

/// What the bounded cache holds, most recently used first: pairs of key
/// and value, each as mathematical sequences.
pub uninterp spec fn lru_entries(c: lru::LruCache<String, Vec<u8>, RandomState>) -> Seq<
    (Seq<char>, Seq<u8>),
>;

/// The bound the cache was created with.
pub uninterp spec fn lru_cap(c: lru::LruCache<String, Vec<u8>, RandomState>) -> nat;

/// Position of the first entry with key `k`, or `-1` if there is none.
pub open spec fn index_of_key(es: Seq<(Seq<char>, Seq<u8>)>, k: Seq<char>) -> int
    decreases es.len(),
{
    if es.len() == 0 {
        -1
    } else if es[0].0 == k {
        0
    } else {
        let r = index_of_key(es.skip(1), k);
        if r == -1 {
            -1
        } else {
            r + 1
        }
    }
}

/// No two entries share a key.
pub open spec fn distinct_keys(es: Seq<(Seq<char>, Seq<u8>)>) -> bool {
    forall|a: int, b: int| 0 <= a < b < es.len() ==> es[a].0 != es[b].0
}

/// The entry at `i` moved to the front, everything else kept in order.
pub open spec fn promote(es: Seq<(Seq<char>, Seq<u8>)>, i: int) -> Seq<(Seq<char>, Seq<u8>)> {
    seq![es[i]] + es.take(i) + es.skip(i + 1)
}

/// Relies on lru::LruCache::with_hasher: a fresh cache is empty and holds
/// at most `cap` entries.
#[verifier::external_body]
fn lru_new(cap: usize) -> (c: lru::LruCache<String, Vec<u8>, RandomState>)
    requires
        cap >= 1,
    ensures
        lru_entries(c) == Seq::<(Seq<char>, Seq<u8>)>::empty(),
        lru_cap(c) == cap,
{
    lru::LruCache::with_hasher(std::num::NonZeroUsize::new(cap).unwrap(), RandomState::new())
}

/// Relies on lru::LruCache::get: on a hit the entry moves to the front and
/// its value is returned; on a miss nothing changes.
#[verifier::external_body]
fn lru_get(c: &mut lru::LruCache<String, Vec<u8>, RandomState>, key: &String) -> (r: Option<
    Vec<u8>,
>)
    ensures
        lru_cap(*final(c)) == lru_cap(*old(c)),
        ({
            let es = lru_entries(*old(c));
            let i = index_of_key(es, key@);
            if i == -1 {
                r is None && lru_entries(*final(c)) == es
            } else {
                (r matches Some(v) && v@ == es[i].1) && lru_entries(*final(c)) == promote(es, i)
            }
        }),
{
    c.get(key).cloned()
}

/// Relies on lru::LruCache::push: the pair goes to the front; a pair under
/// the same key is replaced and handed back; with the cache full, the
/// least-recently-used entry (the last) is evicted and handed back.
#[verifier::external_body]
fn lru_push(
    c: &mut lru::LruCache<String, Vec<u8>, RandomState>,
    key: String,
    value: Vec<u8>,
) -> (r: Option<(String, Vec<u8>)>)
    ensures
        lru_cap(*final(c)) == lru_cap(*old(c)),
        ({
            let es = lru_entries(*old(c));
            let i = index_of_key(es, key@);
            if i >= 0 {
                lru_entries(*final(c)) == seq![(key@, value@)] + es.take(i) + es.skip(i + 1) && (
                r matches Some(kv) && kv.0@ == key@ && kv.1@ == es[i].1)
            } else if es.len() < lru_cap(*old(c)) {
                lru_entries(*final(c)) == seq![(key@, value@)] + es && r is None
            } else {
                lru_entries(*final(c)) == seq![(key@, value@)] + es.drop_last() && (
                r matches Some(kv) && kv.0@ == es.last().0 && kv.1@ == es.last().1)
            }
        }),
{
    c.push(key, value)
}

/// Relies on lru::LruCache::len.
#[verifier::external_body]
fn lru_len(c: &lru::LruCache<String, Vec<u8>, RandomState>) -> (r: usize)
    ensures
        r == lru_entries(*c).len(),
{
    c.len()
}

pub proof fn lemma_index_of_key_props(es: Seq<(Seq<char>, Seq<u8>)>, k: Seq<char>)
    ensures
        index_of_key(es, k) == -1 ==> forall|j: int| 0 <= j < es.len() ==> es[j].0 != k,
        index_of_key(es, k) != -1 ==> {
            let i = index_of_key(es, k);
            0 <= i < es.len() && es[i].0 == k && forall|j: int| 0 <= j < i ==> es[j].0 != k
        },
    decreases es.len(),
{
    if es.len() > 0 && es[0].0 != k {
        lemma_index_of_key_props(es.skip(1), k);
        assert forall|j: int| 1 <= j < es.len() implies es[j].0 == es.skip(1)[j - 1].0 by {}
    }
}

/// In a duplicate-free list, the key of the entry at `i` is found at `i`.
pub proof fn lemma_index_of_key_distinct(es: Seq<(Seq<char>, Seq<u8>)>, i: int)
    requires
        distinct_keys(es),
        0 <= i < es.len(),
    ensures
        index_of_key(es, es[i].0) == i,
    decreases es.len(),
{
    lemma_index_of_key_props(es, es[i].0);
    let idx = index_of_key(es, es[i].0);
    if idx == -1 {
    } else {
        if idx < i {
            assert(es[idx].0 == es[i].0);
        } else if idx > i {
            assert(es[i].0 != es[i].0);
        }
    }
}

/// A bounded in-memory store of opaque serialized blobs, keyed by
/// canonical file path, with least-recently-used eviction.
pub struct BlobCache {
    lru: lru::LruCache<String, Vec<u8>, RandomState>,
}

impl BlobCache {
    /// The entries, most recently used first.
    pub closed spec fn entries(&self) -> Seq<(Seq<char>, Seq<u8>)> {
        lru_entries(self.lru)
    }

    /// The bound the cache was created with.
    pub closed spec fn cap(&self) -> nat {
        lru_cap(self.lru)
    }

    /// Well-formed: within bound, keys unique.
    pub open spec fn wf(&self) -> bool {
        self.cap() >= 1 && self.entries().len() <= self.cap() && distinct_keys(self.entries())
    }

    pub fn new(cap: usize) -> (r: Self)
        requires
            cap >= 1,
        ensures
            r.wf(),
            r.entries() == Seq::<(Seq<char>, Seq<u8>)>::empty(),
            r.cap() == cap,
    {
        BlobCache { lru: lru_new(cap) }
    }

    pub fn len(&self) -> (r: usize)
        ensures
            r == self.entries().len(),
    {
        lru_len(&self.lru)
    }

    /// Looks a key up; on a hit the entry becomes the most recently used.
    pub fn get(&mut self, key: &String) -> (r: Option<Vec<u8>>)
        requires
            old(self).wf(),
        ensures
            final(self).wf(),
            final(self).cap() == old(self).cap(),
            ({
                let es = old(self).entries();
                let i = index_of_key(es, key@);
                if i == -1 {
                    r is None && final(self).entries() == es
                } else {
                    (r matches Some(v) && v@ == es[i].1) && final(self).entries() == promote(es, i)
                }
            }),
    {
        let r = lru_get(&mut self.lru, key);
        proof {
            let es = old(self).entries();
            let i = index_of_key(es, key@);
            if i != -1 {
                lemma_index_of_key_props(es, key@);
                lemma_promote_distinct(es, i);
            }
        }
        r
    }

    /// Inserts at the front; returns the entry that had to leave: the old
    /// pair under the same key, or, with the cache full, the
    /// least-recently-used one.
    pub fn push(&mut self, key: String, value: Vec<u8>) -> (evicted: Option<(String, Vec<u8>)>)
        requires
            old(self).wf(),
        ensures
            final(self).wf(),
            final(self).cap() == old(self).cap(),
            ({
                let es = old(self).entries();
                let i = index_of_key(es, key@);
                if i >= 0 {
                    final(self).entries() == seq![(key@, value@)] + es.take(i) + es.skip(i + 1) && (
                    evicted matches Some(kv) && kv.0@ == key@ && kv.1@ == es[i].1)
                } else if es.len() < old(self).cap() {
                    final(self).entries() == seq![(key@, value@)] + es && evicted is None
                } else {
                    final(self).entries() == seq![(key@, value@)] + es.drop_last() && (
                    evicted matches Some(kv) && kv.0@ == es.last().0 && kv.1@ == es.last().1)
                }
            }),
    {
        let ghost es = lru_entries(self.lru);
        let ghost kview = key@;
        let ghost vview = value@;
        let r = lru_push(&mut self.lru, key, value);
        proof {
            let i = index_of_key(es, kview);
            if i >= 0 {
                lemma_index_of_key_props(es, kview);
                lemma_removed_distinct(es, i);
                lemma_prepend_distinct(es.take(i) + es.skip(i + 1), kview, vview);
            } else if es.len() < lru_cap(self.lru) {
                lemma_index_of_key_props(es, kview);
                lemma_prepend_distinct(es, kview, vview);
            } else {
                lemma_index_of_key_props(es, kview);
                assert(es.len() == lru_cap(self.lru));
                assert(es.drop_last() =~= es.take(es.len() - 1));
                assert(distinct_keys(es.drop_last()));
                lemma_prepend_distinct(es.drop_last(), kview, vview);
            }
        }
        r
    }
}

/// Removing the entry at `i` keeps the rest duplicate-free and drops its
/// key entirely.
proof fn lemma_removed_distinct(es: Seq<(Seq<char>, Seq<u8>)>, i: int)
    requires
        distinct_keys(es),
        0 <= i < es.len(),
    ensures
        distinct_keys(es.take(i) + es.skip(i + 1)),
        forall|j: int|
            0 <= j < (es.take(i) + es.skip(i + 1)).len() ==> (#[trigger] (es.take(i) + es.skip(
                i + 1,
            ))[j]).0 != es[i].0,
        (es.take(i) + es.skip(i + 1)).len() == es.len() - 1,
{
    let rem = es.take(i) + es.skip(i + 1);
    assert forall|j: int| 0 <= j < rem.len() implies rem[j] == (if j < i {
        es[j]
    } else {
        es[j + 1]
    }) by {}
}

/// Prepending a pair whose key is absent keeps the list duplicate-free.
proof fn lemma_prepend_distinct(ys: Seq<(Seq<char>, Seq<u8>)>, k: Seq<char>, v: Seq<u8>)
    requires
        distinct_keys(ys),
        forall|j: int| 0 <= j < ys.len() ==> ys[j].0 != k,
    ensures
        distinct_keys(seq![(k, v)] + ys),
{
    let zs = seq![(k, v)] + ys;
    assert forall|a: int, b: int| 0 <= a < b < zs.len() implies zs[a].0 != zs[b].0 by {
        if a == 0 {
            assert(zs[b] == ys[b - 1]);
        } else {
            assert(zs[a] == ys[a - 1] && zs[b] == ys[b - 1]);
        }
    }
}

/// Promotion keeps the list duplicate-free and its length unchanged.
proof fn lemma_promote_distinct(es: Seq<(Seq<char>, Seq<u8>)>, i: int)
    requires
        distinct_keys(es),
        0 <= i < es.len(),
    ensures
        distinct_keys(promote(es, i)),
        promote(es, i).len() == es.len(),
{
    lemma_removed_distinct(es, i);
    lemma_prepend_distinct(es.take(i) + es.skip(i + 1), es[i].0, es[i].1);
    assert(promote(es, i) =~= seq![(es[i].0, es[i].1)] + (es.take(i) + es.skip(i + 1)));
}

/// Law of eviction: pushing a fresh key into a full cache removes exactly
/// the least-recently-used entry. Afterwards the evicted key is absent
/// (a later request for it must rebuild, never reuse stale memory), the
/// new key stands in front, and every other entry is retained, shifted
/// back by one.
pub proof fn lemma_lru_eviction(es: Seq<(Seq<char>, Seq<u8>)>, cap: nat, k: Seq<char>, v: Seq<u8>)
    requires
        distinct_keys(es),
        es.len() == cap,
        cap >= 1,
        index_of_key(es, k) == -1,
    ensures
        ({
            let es2 = seq![(k, v)] + es.drop_last();
            index_of_key(es2, es.last().0) == -1 && index_of_key(es2, k) == 0 && forall|i: int|
                0 <= i < es.len() - 1 ==> index_of_key(es2, #[trigger] es[i].0) == i + 1
        }),
{
    let es2 = seq![(k, v)] + es.drop_last();
    lemma_index_of_key_props(es, k);
    assert(es.drop_last() =~= es.take(es.len() - 1));
    assert(distinct_keys(es.drop_last()));
    lemma_prepend_distinct(es.drop_last(), k, v);
    lemma_index_of_key_props(es2, es.last().0);
    let last = es.last().0;
    if index_of_key(es2, last) != -1 {
        let i = index_of_key(es2, last);
        assert(es2[i].0 == last);
        if i == 0 {
            assert(es[es.len() - 1].0 == k);
        } else {
            assert(es2[i] == es[i - 1]);
            assert(es[i - 1].0 == es[es.len() - 1].0);
        }
    }
    lemma_index_of_key_distinct(es2, 0);
    assert forall|i: int| 0 <= i < es.len() - 1 implies index_of_key(es2, #[trigger] es[i].0) == i
        + 1 by {
        assert(es2[i + 1] == es[i]);
        lemma_index_of_key_distinct(es2, i + 1);
    }
}

/// What a cache request yields: the blob itself, or the canonical path the
/// caller must load or rebuild from.
#[derive(Debug)]
pub enum CacheLookup {
    Hit(Vec<u8>),
    Miss(String),
}

/// `dir`, a separator, `name`: the canonical key of a cached artifact.
pub open spec fn joined_path(dir: Seq<char>, name: Seq<char>) -> Seq<char> {
    dir + "/"@ + name
}

fn join_path(dir: &String, name: &str) -> (r: String)
    ensures
        r@ == joined_path(dir@, name@),
{
    let mut r = dir.clone();
    r.append("/");
    r.append(name);
    r
}

/// Bounded LRU cache of serialized setup parameters, keyed by the
/// canonical path of each parameter file under `cache_dir`. Eviction only
/// drops memory: the disk copy stays authoritative.
pub struct ParamsCache {
    pub cache: BlobCache,
    pub cache_dir: String,
}

impl ParamsCache {
    pub open spec fn wf(&self) -> bool {
        self.cache.wf()
    }

    pub fn new(cache_size: usize, cache_dir: String) -> (r: Self)
        requires
            cache_size >= 1,
        ensures
            r.wf(),
            r.cache.entries() == Seq::<(Seq<char>, Seq<u8>)>::empty(),
            r.cache.cap() == cache_size,
            r.cache_dir@ == cache_dir@,
    {
        ParamsCache { cache: BlobCache::new(cache_size), cache_dir }
    }

    /// Whether the key is cached; a hit marks it most recently used.
    pub fn contains(&mut self, key: &String) -> (r: bool)
        requires
            old(self).wf(),
        ensures
            final(self).wf(),
            final(self).cache_dir == old(self).cache_dir,
            r == (index_of_key(old(self).cache.entries(), key@) != -1),
    {
        self.cache.get(key).is_some()
    }

    /// Inserts a blob under `key`; see [`BlobCache::push`].
    pub fn push(&mut self, key: String, v: Vec<u8>) -> (evicted: Option<(String, Vec<u8>)>)
        requires
            old(self).wf(),
        ensures
            final(self).wf(),
            final(self).cache_dir == old(self).cache_dir,
            final(self).cache.cap() == old(self).cache.cap(),
            ({
                let es = old(self).cache.entries();
                let i = index_of_key(es, key@);
                if i >= 0 {
                    final(self).cache.entries() == seq![(key@, v@)] + es.take(i) + es.skip(i + 1)
                } else if es.len() < old(self).cache.cap() {
                    final(self).cache.entries() == seq![(key@, v@)] + es && evicted is None
                } else {
                    final(self).cache.entries() == seq![(key@, v@)] + es.drop_last() && (
                    evicted matches Some(kv) && kv.0@ == es.last().0 && kv.1@ == es.last().1)
                }
            }),
    {
        self.cache.push(key, v)
    }

    /// Requests the setup parameters for circuit size `k`: a `Hit` with the
    /// cached blob (now most recently used), or a `Miss` naming the
    /// canonical path `"{cache_dir}/K{k}.params"` that the caller must
    /// deserialize from disk — or synthesize and persist — and then `push`.
    pub fn generate_k_params(&mut self, k: usize) -> (r: CacheLookup)
        requires
            old(self).wf(),
        ensures
            final(self).wf(),
            final(self).cache_dir == old(self).cache_dir,
            final(self).cache.cap() == old(self).cache.cap(),
            ({
                let key = joined_path(old(self).cache_dir@, k_param_name(k as nat));
                let es = old(self).cache.entries();
                let i = index_of_key(es, key);
                if i == -1 {
                    (r matches CacheLookup::Miss(p) && p@ == key) && final(self).cache.entries()
                        == es
                } else {
                    (r matches CacheLookup::Hit(v) && v@ == es[i].1) && final(self).cache.entries()
                        == promote(es, i)
                }
            }),
    {
        let mut name = String::from_str("K");
        push_decimal(&mut name, k);
        name.append(".params");
        let key = join_path(&self.cache_dir, name.as_str());
        match self.cache.get(&key) {
            Some(v) => CacheLookup::Hit(v),
            None => CacheLookup::Miss(key),
        }
    }
}

/// Bounded LRU cache of serialized proving keys, keyed by the canonical
/// path of each circuit's key material under `cache_dir`.
pub struct ProvingKeyCache {
    pub cache: BlobCache,
    pub cache_dir: String,
}

impl ProvingKeyCache {
    pub open spec fn wf(&self) -> bool {
        self.cache.wf()
    }

    pub fn new(cache_size: usize, cache_dir: String) -> (r: Self)
        requires
            cache_size >= 1,
        ensures
            r.wf(),
            r.cache.entries() == Seq::<(Seq<char>, Seq<u8>)>::empty(),
            r.cache.cap() == cache_size,
            r.cache_dir@ == cache_dir@,
    {
        ProvingKeyCache { cache: BlobCache::new(cache_size), cache_dir }
    }

    /// Whether the key is cached; a hit marks it most recently used.
    pub fn contains(&mut self, key: &String) -> (r: bool)
        requires
            old(self).wf(),
        ensures
            final(self).wf(),
            final(self).cache_dir == old(self).cache_dir,
            r == (index_of_key(old(self).cache.entries(), key@) != -1),
    {
        self.cache.get(key).is_some()
    }

    /// Inserts a blob under `key`; see [`BlobCache::push`].
    pub fn push(&mut self, key: String, v: Vec<u8>) -> (evicted: Option<(String, Vec<u8>)>)
        requires
            old(self).wf(),
        ensures
            final(self).wf(),
            final(self).cache_dir == old(self).cache_dir,
            final(self).cache.cap() == old(self).cache.cap(),
            ({
                let es = old(self).cache.entries();
                let i = index_of_key(es, key@);
                if i >= 0 {
                    final(self).cache.entries() == seq![(key@, v@)] + es.take(i) + es.skip(i + 1)
                } else if es.len() < old(self).cache.cap() {
                    final(self).cache.entries() == seq![(key@, v@)] + es && evicted is None
                } else {
                    final(self).cache.entries() == seq![(key@, v@)] + es.drop_last() && (
                    evicted matches Some(kv) && kv.0@ == es.last().0 && kv.1@ == es.last().1)
                }
            }),
    {
        self.cache.push(key, v)
    }

    /// Requests the proving key cached for `name`: a `Hit` with the blob
    /// (now most recently used), or a `Miss` naming the canonical path
    /// `"{cache_dir}/{name}"` the caller must load or rebuild and `push`.
    pub fn load_or_build_pkey(&mut self, name: &String) -> (r: CacheLookup)
        requires
            old(self).wf(),
        ensures
            final(self).wf(),
            final(self).cache_dir == old(self).cache_dir,
            final(self).cache.cap() == old(self).cache.cap(),
            ({
                let key = joined_path(old(self).cache_dir@, name@);
                let es = old(self).cache.entries();
                let i = index_of_key(es, key);
                if i == -1 {
                    (r matches CacheLookup::Miss(p) && p@ == key) && final(self).cache.entries()
                        == es
                } else {
                    (r matches CacheLookup::Hit(v) && v@ == es[i].1) && final(self).cache.entries()
                        == promote(es, i)
                }
            }),
    {
        let key = join_path(&self.cache_dir, name.as_str());
        match self.cache.get(&key) {
            Some(v) => CacheLookup::Hit(v),
            None => CacheLookup::Miss(key),
        }
    }
}

} // verus!
