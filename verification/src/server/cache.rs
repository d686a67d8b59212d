use vstd::prelude::*;

use crate::tree::{spec_pref_view, ElevationResult};

verus! {

/// What the cache holds, most-recently-used first: key/value pairs of plain
/// values, a key being (lat, lng, dataset id) and a value an elevation with
/// the id of the source that produced it.
pub type CacheSnapshot = Seq<((int, int, Seq<char>), (int, Seq<char>))>;

/// Composite cache key. Reads key by the caller's preference (empty when none
/// was given); writes key by the resolved dataset id.
#[derive(Debug, Clone, PartialEq, Eq, Hash)]
pub struct CacheKey {
    pub lat: i64,
    pub lng: i64,
    pub id: String,
}

impl View for CacheKey {
    type V = (int, int, Seq<char>);

    open spec fn view(&self) -> (int, int, Seq<char>) {
        (self.lat as int, self.lng as int, self.id@)
    }
}

#[verifier::external_type_specification]
#[verifier::external_body]
#[verifier::reject_recursive_types(K)]
#[verifier::reject_recursive_types(V)]
#[verifier::reject_recursive_types(S)]
pub struct ExLruCache<K, V, S>(lru::LruCache<K, V, S>);

/// The LRU structure behind the cache, with the hasher pinned to std's
/// `RandomState`.
pub type LruMap = lru::LruCache<CacheKey, ElevationResult, std::collections::hash_map::RandomState>;

/// The entries of the underlying LRU structure, most-recently-used first.
pub uninterp spec fn lru_entries(c: LruMap) -> CacheSnapshot;

/// The capacity the underlying LRU structure was built with.
pub uninterp spec fn lru_capacity(c: LruMap) -> nat;

/// The position of the first entry stored under `k`, if any.
pub open spec fn spec_find_key(s: CacheSnapshot, k: (int, int, Seq<char>)) -> Option<int>
    decreases s.len(),
{
    if s.len() == 0 {
        None
    } else if s[0].0 == k {
        Some(0)
    } else {
        match spec_find_key(s.drop_first(), k) {
            Some(i) => Some(i + 1),
            None => None,
        }
    }
}

/// The snapshot after the entry at `i` moves to the most-recently-used spot.
pub open spec fn spec_promote(s: CacheSnapshot, i: int) -> CacheSnapshot
    recommends
        0 <= i < s.len(),
{
    seq![s[i]] + s.remove(i)
}

/// The snapshot after `k` is bound to `v`: an existing binding is updated and
/// promoted; a fresh key enters in front, evicting the least-recently-used
/// entry when the cache is at capacity.
pub open spec fn spec_put(
    s: CacheSnapshot,
    cap: nat,
    k: (int, int, Seq<char>),
    v: (int, Seq<char>),
) -> CacheSnapshot {
    match spec_find_key(s, k) {
        Some(i) => seq![(k, v)] + s.remove(i),
        None => if s.len() < cap {
            seq![(k, v)] + s
        } else {
            seq![(k, v)] + s.drop_last()
        },
    }
}

/// No key is stored twice.
pub open spec fn spec_distinct_keys(s: CacheSnapshot) -> bool {
    forall|i: int, j: int| 0 <= i < j < s.len() ==> (#[trigger] s[i]).0 != (#[trigger] s[j]).0
}

/// What `spec_find_key` answers: the first position bound to the key, `None`
/// exactly when the key is absent.
pub proof fn lemma_find_key_props(s: CacheSnapshot, k: (int, int, Seq<char>))
    ensures
        match spec_find_key(s, k) {
            Some(i) => 0 <= i < s.len() && s[i].0 == k && forall|j: int|
                0 <= j < i ==> (#[trigger] s[j]).0 != k,
            None => forall|j: int| 0 <= j < s.len() ==> (#[trigger] s[j]).0 != k,
        },
    decreases s.len(),
{
    if s.len() > 0 && s[0].0 != k {
        lemma_find_key_props(s.drop_first(), k);
        assert forall|j: int| 1 <= j < s.len() implies (#[trigger] s[j]).0 == s.drop_first()[j - 1].0 by {}
    }
}

/// A key stored nowhere is not found.
pub proof fn lemma_find_key_absent(s: CacheSnapshot, k: (int, int, Seq<char>))
    requires
        forall|j: int| 0 <= j < s.len() ==> (#[trigger] s[j]).0 != k,
    ensures
        spec_find_key(s, k) is None,
    decreases s.len(),
{
    if s.len() > 0 {
        assert forall|j: int|
            0 <= j < s.drop_first().len() implies (#[trigger] s.drop_first()[j]).0 != k by {
            assert(s.drop_first()[j] == s[j + 1]);
        }
        lemma_find_key_absent(s.drop_first(), k);
    }
}

/// Relies on lru::LruCache::new: builds an empty cache that holds at most
/// `cap` items.
#[verifier::external_body]
fn lru_new(cap: usize) -> (r: LruMap)
    requires
        cap >= 1,
    ensures
        lru_entries(r) == Seq::<((int, int, Seq<char>), (int, Seq<char>))>::empty(),
        lru_capacity(r) == cap as nat,
{
    lru::LruCache::with_hasher(
        std::num::NonZeroUsize::new(cap).unwrap(),
        std::collections::hash_map::RandomState::new(),
    )
}

/// Relies on lru::LruCache::get: returns the value stored under the key and
/// moves that entry to the most-recently-used spot; on a miss nothing
/// changes.
#[verifier::external_body]
fn lru_get(c: &mut LruMap, k: &CacheKey) -> (r: Option<
    ElevationResult,
>)
    ensures
        lru_capacity(*final(c)) == lru_capacity(*old(c)),
        match spec_find_key(lru_entries(*old(c)), k@) {
            Some(i) => r matches Some(v) && v@ == lru_entries(*old(c))[i].1 && lru_entries(
                *final(c),
            ) == spec_promote(lru_entries(*old(c)), i),
            None => r is None && lru_entries(*final(c)) == lru_entries(*old(c)),
        },
{
    c.get(k).map(|v| v.clone())
}

/// Relies on lru::LruCache::put: binds the key to the value at the
/// most-recently-used spot, updating an existing binding in place and
/// otherwise evicting the least-recently-used entry when at capacity.
#[verifier::external_body]
fn lru_put(c: &mut LruMap, k: CacheKey, v: ElevationResult)
    ensures
        lru_capacity(*final(c)) == lru_capacity(*old(c)),
        lru_entries(*final(c)) == spec_put(
            lru_entries(*old(c)),
            lru_capacity(*old(c)),
            k@,
            v@,
        ),
{
    c.put(k, v);
}

/// Bounded read-through cache in front of the index: a strict
/// least-recently-used map from (point, dataset id) to a previously computed
/// result. Concurrent callers share it behind one lock, taken around `get`
/// and `add` separately and never around a raster read; that lock lives at
/// the service boundary, so the methods here take the cache exclusively.
pub struct Cache {
    cache: LruMap,
}

impl View for Cache {
    type V = CacheSnapshot;

    closed spec fn view(&self) -> CacheSnapshot {
        lru_entries(self.cache)
    }
}

impl Cache {
    /// The bound the cache was built with.
    pub closed spec fn capacity(self) -> nat {
        lru_capacity(self.cache)
    }

    /// Well-formed: a positive bound that the size never exceeds, and
    /// distinct keys.
    pub open spec fn wf(self) -> bool {
        &&& self.capacity() >= 1
        &&& self@.len() <= self.capacity()
        &&& spec_distinct_keys(self@)
    }

    /// Builds a new, empty cache with the given capacity.
    pub fn new(cache_cap: usize) -> (r: Cache)
        requires
            cache_cap >= 1,
        ensures
            r@ == Seq::<((int, int, Seq<char>), (int, Seq<char>))>::empty(),
            r.capacity() == cache_cap as nat,
            r.wf(),
    {
        Cache { cache: lru_new(cache_cap) }
    }

    /// Gets the entry stored for the point under the caller's preference
    /// (the empty id when none was given). A hit returns a copy and promotes
    /// the entry to most-recently-used; a miss changes nothing.
    pub fn get(&mut self, lat: i64, lng: i64, dataset_id: Option<String>) -> (r: Option<
        ElevationResult,
    >)
        ensures
            final(self).capacity() == old(self).capacity(),
            match spec_find_key(
                old(self)@,
                spec_read_key(lat as int, lng as int, spec_pref_view(dataset_id)),
            ) {
                Some(i) => r matches Some(v) && v@ == old(self)@[i].1 && final(self)@
                    == spec_promote(old(self)@, i),
                None => r is None && final(self)@ == old(self)@,
            },
    {
        let id = match dataset_id {
            Some(s) => s,
            None => String::new(),
        };
        let key = CacheKey { lat, lng, id };
        lru_get(&mut self.cache, &key)
    }

    /// Adds the result for the point, keyed by the **resolved** dataset id
    /// the result carries — not necessarily the preference the lookup was
    /// asked with. The asymmetry with `get`'s read key is deliberate: an
    /// unprefaced query and one preferring the resolved id write the same
    /// slot, while a query with a different, unsatisfied preference reads a
    /// different one.
    pub fn add(&mut self, lat: i64, lng: i64, elev: ElevationResult)
        ensures
            final(self).capacity() == old(self).capacity(),
            final(self)@ == spec_put(
                old(self)@,
                old(self).capacity(),
                (lat as int, lng as int, elev.dataset_id@),
                elev@,
            ),
    {
        let key = CacheKey { lat, lng, id: elev.dataset_id.clone() };
        lru_put(&mut self.cache, key, elev);
    }
}

/// The key a query reads with: the point and the caller's preference, the
/// empty id standing for "no preference".
pub open spec fn spec_read_key(lat: int, lng: int, pref: Option<Seq<char>>) -> (int, int, Seq<
    char,
>) {
    (
        lat,
        lng,
        match pref {
            Some(p) => p,
            None => Seq::empty(),
        },
    )
}

/// Promotion permutes the entries: size and key distinctness are kept.
pub proof fn lemma_promote_preserves_wf(s: CacheSnapshot, i: int)
    requires
        0 <= i < s.len(),
        spec_distinct_keys(s),
    ensures
        spec_promote(s, i).len() == s.len(),
        spec_distinct_keys(spec_promote(s, i)),
{
    let p = spec_promote(s, i);
    assert forall|a: int, b: int| 0 <= a < b < p.len() implies (#[trigger] p[a]).0 != (
    #[trigger] p[b]).0 by {
        if a == 0 {
            if b <= i {
                assert(p[b] == s[b - 1]);
            } else {
                assert(p[b] == s[b]);
            }
        } else {
            let sa = if a <= i { s[a - 1] } else { s[a] };
            let sb = if b <= i { s[b - 1] } else { s[b] };
            assert(p[a] == sa && p[b] == sb);
        }
    }
}

/// Law: the cache never grows beyond its capacity, and adding keeps keys
/// distinct.
pub proof fn lemma_put_preserves_wf(
    s: CacheSnapshot,
    cap: nat,
    k: (int, int, Seq<char>),
    v: (int, Seq<char>),
)
    requires
        cap >= 1,
        s.len() <= cap,
        spec_distinct_keys(s),
    ensures
        spec_put(s, cap, k, v).len() <= cap,
        spec_distinct_keys(spec_put(s, cap, k, v)),
{
    lemma_find_key_props(s, k);
    let p = spec_put(s, cap, k, v);
    match spec_find_key(s, k) {
        Some(i) => {
            assert(p.len() == s.len());
            assert forall|a: int, b: int| 0 <= a < b < p.len() implies (#[trigger] p[a]).0 != (
            #[trigger] p[b]).0 by {
                if a == 0 {
                    let sb = if b <= i { s[b - 1] } else { s[b] };
                    assert(p[b] == sb);
                    assert(sb.0 != k || sb.0 == s[i].0);
                } else {
                    let sa = if a <= i { s[a - 1] } else { s[a] };
                    let sb = if b <= i { s[b - 1] } else { s[b] };
                    assert(p[a] == sa && p[b] == sb);
                }
            }
        },
        None => {
            assert forall|a: int, b: int| 0 <= a < b < p.len() implies (#[trigger] p[a]).0 != (
            #[trigger] p[b]).0 by {
                assert(p[b] == s[b - 1]);
                if a > 0 {
                    assert(p[a] == s[a - 1]);
                }
            }
        },
    }
}

/// Law: putting a fresh key into a full cache evicts exactly the
/// least-recently-touched entry; everything else survives, one spot older.
pub proof fn lemma_put_evicts_lru(
    s: CacheSnapshot,
    cap: nat,
    k: (int, int, Seq<char>),
    v: (int, Seq<char>),
)
    requires
        spec_find_key(s, k) is None,
        s.len() == cap,
        cap >= 1,
    ensures
        spec_put(s, cap, k, v) == seq![(k, v)] + s.drop_last(),
        spec_put(s, cap, k, v).len() == cap,
        spec_put(s, cap, k, v)[0] == (k, v),
        forall|i: int|
            0 <= i < cap - 1 ==> spec_put(s, cap, k, v)[i + 1] == (#[trigger] s[i]),
{
    assert(spec_put(s, cap, k, v) =~= seq![(k, v)] + s.drop_last());
}

} // verus!
