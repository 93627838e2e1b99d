use vstd::prelude::*;
use std::num::NonZeroUsize;
use lru::LruCache;
use crate::thumbnail::loader::LoadResult;

verus! {

#[verifier::external_type_specification]
#[verifier::external_body]
#[verifier::reject_recursive_types(K)]
#[verifier::reject_recursive_types(V)]
#[verifier::reject_recursive_types(S)]
pub struct ExLruCache<K, V, S>(LruCache<K, V, S>);

#[verifier::external_type_specification]
#[verifier::external_body]
pub struct ExLruHasher(lru::DefaultHasher);

/// A decoded thumbnail: RGBA pixels, width, height.
pub type Thumb = (Vec<u8>, u32, u32);

/// What a decoded thumbnail holds, as plain values.
pub type ThumbView = (Seq<u8>, u32, u32);

/// The entries of an lru cache of thumbnails, from the most to the least
/// recently used.
pub uninterp spec fn lru_entries(cache: LruCache<i64, (Vec<u8>, u32, u32)>) -> Seq<(i64, (Seq<u8>, u32, u32))>;

/// The capacity an lru cache of thumbnails was made with.
pub uninterp spec fn lru_capacity(cache: LruCache<i64, (Vec<u8>, u32, u32)>) -> nat;

/// No key occurs twice.
pub open spec fn keys_unique(e: Seq<(i64, ThumbView)>) -> bool {
    forall|i: int, j: int| 0 <= i < j < e.len() ==> #[trigger] e[i].0 != #[trigger] e[j].0
}

/// Some entry has key `k`.
pub open spec fn has_key(e: Seq<(i64, ThumbView)>, k: i64) -> bool {
    exists|i: int| 0 <= i < e.len() && #[trigger] e[i].0 == k
}

/// The index of the entry with key `k` (meaningful when there is one).
pub open spec fn key_index(e: Seq<(i64, ThumbView)>, k: i64) -> int {
    choose|i: int| 0 <= i < e.len() && #[trigger] e[i].0 == k
}

/// The value under key `k`, if any.
pub open spec fn lookup(e: Seq<(i64, ThumbView)>, k: i64) -> Option<ThumbView> {
    if has_key(e, k) {
        Some(e[key_index(e, k)].1)
    } else {
        None
    }
}

/// The entries after a lookup of `k`: a found entry moves to the front.
pub open spec fn touched(e: Seq<(i64, ThumbView)>, k: i64) -> Seq<(i64, ThumbView)> {
    if has_key(e, k) {
        seq![e[key_index(e, k)]] + e.remove(key_index(e, k))
    } else {
        e
    }
}

/// The entries after storing `v` under `k` in a cache of capacity `cap`:
/// the entry goes to the front, replacing the old entry of `k`; a new key
/// in a full cache evicts the least recently used entry.
pub open spec fn stored(e: Seq<(i64, ThumbView)>, cap: nat, k: i64, v: ThumbView) -> Seq<(i64, ThumbView)> {
    if has_key(e, k) {
        seq![(k, v)] + e.remove(key_index(e, k))
    } else if e.len() >= cap {
        seq![(k, v)] + e.drop_last()
    } else {
        seq![(k, v)] + e
    }
}

/// Calls lru's `LruCache::new`: an empty cache of the given capacity
/// (`NonZeroUsize::new` refuses 0, hence the requirement).
#[verifier::external_body]
fn lru_new(cap: usize) -> (r: LruCache<i64, (Vec<u8>, u32, u32)>)
    requires
        cap > 0,
    ensures
        lru_entries(r) == Seq::<(i64, ThumbView)>::empty(),
        lru_capacity(r) == cap,
{
    LruCache::new(NonZeroUsize::new(cap).unwrap())
}

/// Calls lru's `LruCache::get`, handing out a copy of the value: a found
/// entry moves to the front of the recency order. It does not panic.
#[verifier::external_body]
fn lru_get(cache: &mut LruCache<i64, (Vec<u8>, u32, u32)>, k: i64) -> (r: Option<(Vec<u8>, u32, u32)>)
    requires
        keys_unique(lru_entries(*old(cache))),
    ensures
        lru_entries(*final(cache)) == touched(lru_entries(*old(cache)), k),
        lru_capacity(*final(cache)) == lru_capacity(*old(cache)),
        match r {
            Some(v) => lookup(lru_entries(*old(cache)), k) == Some(v@),
            None => lookup(lru_entries(*old(cache)), k) is None,
        },
    no_unwind
{
    cache.get(&k).cloned()
}

/// Calls lru's `LruCache::put`: the entry goes to the front, replacing the
/// value of its key or, for a new key in a full cache, evicting the least
/// recently used entry. It hands back the replaced value, and does not
/// panic.
#[verifier::external_body]
fn lru_put(cache: &mut LruCache<i64, (Vec<u8>, u32, u32)>, k: i64, v: (Vec<u8>, u32, u32)) -> (r: Option<(Vec<u8>, u32, u32)>)
    requires
        keys_unique(lru_entries(*old(cache))),
        lru_entries(*old(cache)).len() <= lru_capacity(*old(cache)),
    ensures
        lru_entries(*final(cache)) == stored(lru_entries(*old(cache)), lru_capacity(*old(cache)), k, v@),
        lru_capacity(*final(cache)) == lru_capacity(*old(cache)),
        match r {
            Some(old_v) => lookup(lru_entries(*old(cache)), k) == Some(old_v@),
            None => lookup(lru_entries(*old(cache)), k) is None,
        },
    no_unwind
{
    cache.put(k, v)
}

/// The entries after storing each of `rs` in turn.
pub open spec fn stored_all(e: Seq<(i64, ThumbView)>, cap: nat, rs: Seq<(i64, ThumbView)>) -> Seq<(i64, ThumbView)>
    decreases rs.len(),
{
    if rs.len() == 0 {
        e
    } else {
        stored(stored_all(e, cap, rs.drop_last()), cap, rs.last().0, rs.last().1)
    }
}

/// A loaded thumbnail as an entry.
pub open spec fn result_entry(r: LoadResult) -> (i64, ThumbView) {
    (r.item_id, (r.pixels@, r.width, r.height))
}

pub open spec fn result_entries(rs: Seq<LoadResult>) -> Seq<(i64, ThumbView)> {
    rs.map_values(|r: LoadResult| result_entry(r))
}

/// A well-formed cache: at most `cap` entries, no key twice.
pub open spec fn entries_wf(e: Seq<(i64, ThumbView)>, cap: nat) -> bool {
    &&& keys_unique(e)
    &&& e.len() <= cap
    &&& cap > 0
}

proof fn lemma_index_of_unique(e: Seq<(i64, ThumbView)>, k: i64, i: int)
    requires
        keys_unique(e),
        0 <= i < e.len(),
        e[i].0 == k,
    ensures
        has_key(e, k),
        key_index(e, k) == i,
{
    assert(has_key(e, k));
    let j = key_index(e, k);
    if j != i {
        if j < i {
            assert(e[j].0 != e[i].0);
        } else {
            assert(e[i].0 != e[j].0);
        }
    }
}

proof fn lemma_removed_keys(e: Seq<(i64, ThumbView)>, i: int)
    requires
        keys_unique(e),
        0 <= i < e.len(),
    ensures
        keys_unique(e.remove(i)),
        forall|j: int| 0 <= j < e.remove(i).len() ==> #[trigger] e.remove(i)[j].0 != e[i].0,
{
    let r = e.remove(i);
    assert forall|a: int, b: int| 0 <= a < b < r.len() implies #[trigger] r[a].0 != #[trigger] r[b].0 by {
        let ea = if a < i { a } else { a + 1 };
        let eb = if b < i { b } else { b + 1 };
        assert(r[a] == e[ea]);
        assert(r[b] == e[eb]);
        assert(ea < eb);
    }
    assert forall|j: int| 0 <= j < r.len() implies #[trigger] r[j].0 != e[i].0 by {
        let ej = if j < i { j } else { j + 1 };
        assert(r[j] == e[ej]);
        if ej < i {
            assert(e[ej].0 != e[i].0);
        } else {
            assert(e[i].0 != e[ej].0);
        }
    }
}

proof fn lemma_front_unique(k: i64, v: ThumbView, rest: Seq<(i64, ThumbView)>)
    requires
        keys_unique(rest),
        forall|j: int| 0 <= j < rest.len() ==> #[trigger] rest[j].0 != k,
    ensures
        keys_unique(seq![(k, v)] + rest),
        (seq![(k, v)] + rest).len() == rest.len() + 1,
{
    let s = seq![(k, v)] + rest;
    assert forall|a: int, b: int| 0 <= a < b < s.len() implies #[trigger] s[a].0 != #[trigger] s[b].0 by {
        assert(s[b] == rest[b - 1]);
        if a > 0 {
            assert(s[a] == rest[a - 1]);
        }
    }
}

/// Looking up a key keeps the cache well formed.
pub proof fn lemma_touched_wf(e: Seq<(i64, ThumbView)>, cap: nat, k: i64)
    requires
        entries_wf(e, cap),
    ensures
        entries_wf(touched(e, k), cap),
        touched(e, k).len() == e.len(),
{
    if has_key(e, k) {
        let i = key_index(e, k);
        lemma_removed_keys(e, i);
        lemma_front_unique(k, e[i].1, e.remove(i));
        assert(seq![e[i]] =~= seq![(k, e[i].1)]);
    }
}

/// Storing an entry keeps the cache well formed.
pub proof fn lemma_stored_wf(e: Seq<(i64, ThumbView)>, cap: nat, k: i64, v: ThumbView)
    requires
        entries_wf(e, cap),
    ensures
        entries_wf(stored(e, cap, k, v), cap),
{
    if has_key(e, k) {
        let i = key_index(e, k);
        lemma_removed_keys(e, i);
        lemma_front_unique(k, v, e.remove(i));
    } else {
        let rest = if e.len() >= cap { e.drop_last() } else { e };
        assert forall|a: int, b: int| 0 <= a < b < rest.len() implies #[trigger] rest[a].0 != #[trigger] rest[b].0 by {
            assert(rest[a] == e[a]);
            assert(rest[b] == e[b]);
        }
        assert forall|j: int| 0 <= j < rest.len() implies #[trigger] rest[j].0 != k by {
            assert(rest[j] == e[j]);
        }
        lemma_front_unique(k, v, rest);
    }
}

proof fn lemma_stored_all_wf(e: Seq<(i64, ThumbView)>, cap: nat, rs: Seq<(i64, ThumbView)>)
    requires
        entries_wf(e, cap),
    ensures
        entries_wf(stored_all(e, cap, rs), cap),
    decreases rs.len(),
{
    if rs.len() > 0 {
        lemma_stored_all_wf(e, cap, rs.drop_last());
        lemma_stored_wf(stored_all(e, cap, rs.drop_last()), cap, rs.last().0, rs.last().1);
    }
}

proof fn lemma_not_in_front(k: i64, v: ThumbView, rest: Seq<(i64, ThumbView)>, j: i64)
    requires
        j != k,
        forall|t: int| 0 <= t < rest.len() ==> #[trigger] rest[t].0 != j,
    ensures
        !has_key(seq![(k, v)] + rest, j),
{
    let s = seq![(k, v)] + rest;
    if has_key(s, j) {
        let t = choose|t: int| 0 <= t < s.len() && #[trigger] s[t].0 == j;
        assert(s[t] == rest[t - 1]);
    }
}

/// Storing under a key and then looking it up gives the stored thumbnail.
pub proof fn law_read_after_store(e: Seq<(i64, ThumbView)>, cap: nat, k: i64, v: ThumbView)
    requires
        entries_wf(e, cap),
    ensures
        lookup(stored(e, cap, k, v), k) == Some(v),
        stored(e, cap, k, v)[0] == (k, v),
{
    lemma_stored_wf(e, cap, k, v);
    let s = stored(e, cap, k, v);
    assert(s[0] == (k, v));
    lemma_index_of_unique(s, k, 0);
}

/// Storing a thumbnail leaves every other cached thumbnail as it was, but
/// for the least recently used one, which a new key evicts from a full
/// cache; the evicted one is gone.
pub proof fn law_store_keeps_others(e: Seq<(i64, ThumbView)>, cap: nat, k: i64, v: ThumbView, j: i64)
    requires
        entries_wf(e, cap),
        j != k,
    ensures
        (has_key(e, k) || e.len() < cap || e.last().0 != j) ==> lookup(stored(e, cap, k, v), j)
            == lookup(e, j),
        (!has_key(e, k) && e.len() == cap && e.last().0 == j) ==> lookup(stored(e, cap, k, v), j)
            is None,
{
    lemma_stored_wf(e, cap, k, v);
    let s = stored(e, cap, k, v);
    let evicting = !has_key(e, k) && e.len() >= cap;
    if has_key(e, k) {
        let ik = key_index(e, k);
        let rest = e.remove(ik);
        assert forall|t: int| 0 <= t < rest.len() && !has_key(e, j) implies #[trigger] rest[t].0 != j by {
            let u = if t < ik { t } else { t + 1 };
            assert(rest[t] == e[u]);
        }
        if has_key(e, j) {
            let i = key_index(e, j);
            assert(i != ik);
            let si = if i < ik { i + 1 } else { i };
            assert(s[si] == e[i]);
            lemma_index_of_unique(s, j, si);
        } else {
            lemma_not_in_front(k, v, rest, j);
        }
    } else {
        let n: int = if evicting { e.len() - 1 } else { e.len() as int };
        let rest = e.take(n);
        assert(s == seq![(k, v)] + rest) by {
            if evicting {
                assert(e.drop_last() =~= rest);
            } else {
                assert(e =~= rest);
            }
        }
        assert forall|t: int| 0 <= t < rest.len() && !has_key(e, j) implies #[trigger] rest[t].0 != j by {
            assert(rest[t] == e[t]);
        }
        if has_key(e, j) {
            let i = key_index(e, j);
            if evicting && i == e.len() - 1 {
                assert(e.last().0 == j);
                if has_key(s, j) {
                    let t = choose|t: int| 0 <= t < s.len() && #[trigger] s[t].0 == j;
                    assert(t > 0);
                    assert(s[t] == e[t - 1]);
                    assert(e[t - 1].0 != e[i].0);
                }
            } else {
                assert(s[i + 1] == e[i]);
                lemma_index_of_unique(s, j, i + 1);
            }
        } else {
            lemma_not_in_front(k, v, rest, j);
        }
    }
}

/// A lookup changes no cached thumbnail, and a found one becomes the most
/// recently used.
pub proof fn law_request_keeps_contents(e: Seq<(i64, ThumbView)>, cap: nat, k: i64, j: i64)
    requires
        entries_wf(e, cap),
    ensures
        lookup(touched(e, k), j) == lookup(e, j),
        has_key(e, k) ==> touched(e, k)[0].0 == k,
{
    lemma_touched_wf(e, cap, k);
    if has_key(e, k) {
        let ik = key_index(e, k);
        let s = touched(e, k);
        let rest = e.remove(ik);
        assert forall|t: int| 0 <= t < rest.len() && !has_key(e, j) implies #[trigger] rest[t].0 != j by {
            let u = if t < ik { t } else { t + 1 };
            assert(rest[t] == e[u]);
        }
        if has_key(e, j) {
            let i = key_index(e, j);
            let si = if i == ik { 0 } else if i < ik { i + 1 } else { i };
            assert(s[si] == e[i]);
            lemma_index_of_unique(s, j, si);
        } else {
            assert(j != k);
            lemma_not_in_front(k, e[ik].1, rest, j);
            assert(seq![e[ik]] =~= seq![(k, e[ik].1)]);
        }
    }
}

/// The decoded thumbnails kept in memory, the least recently used one
/// evicted first.
pub struct ThumbnailCache {
    cache: LruCache<i64, (Vec<u8>, u32, u32)>,
}

impl ThumbnailCache {
    #[verifier::type_invariant]
    spec fn wf(self) -> bool {
        entries_wf(lru_entries(self.cache), lru_capacity(self.cache))
    }

    /// The cached thumbnails, the most recently used first.
    pub closed spec fn entries(self) -> Seq<(i64, ThumbView)> {
        lru_entries(self.cache)
    }

    /// How many thumbnails the cache holds at most.
    pub closed spec fn capacity(self) -> nat {
        lru_capacity(self.cache)
    }

    /// An empty cache for `cache_capacity` thumbnails.
    pub fn new(cache_capacity: usize) -> (c: ThumbnailCache)
        requires
            cache_capacity > 0,
        ensures
            c.entries() == Seq::<(i64, ThumbView)>::empty(),
            c.capacity() == cache_capacity,
            entries_wf(c.entries(), c.capacity()),
    {
        ThumbnailCache { cache: lru_new(cache_capacity) }
    }

    /// The cached thumbnail of an item, if any; a hit becomes the most
    /// recently used entry.
    pub fn request(&mut self, item_id: i64) -> (r: Option<Thumb>)
        ensures
            final(self).entries() == touched(old(self).entries(), item_id),
            final(self).capacity() == old(self).capacity(),
            entries_wf(old(self).entries(), old(self).capacity()),
            entries_wf(final(self).entries(), final(self).capacity()),
            match r {
                Some(t) => lookup(old(self).entries(), item_id) == Some(t@),
                None => lookup(old(self).entries(), item_id) is None,
            },
    {
        proof {
            use_type_invariant(&*self);
            lemma_touched_wf(lru_entries(self.cache), lru_capacity(self.cache), item_id);
        }
        lru_get(&mut self.cache, item_id)
    }

    /// Stores the loaded thumbnails in turn and hands them back, in order,
    /// with their ids.
    pub fn poll_results(&mut self, results: Vec<LoadResult>) -> (out: Vec<(i64, Thumb)>)
        ensures
            final(self).entries() == stored_all(
                old(self).entries(),
                old(self).capacity(),
                result_entries(results@),
            ),
            final(self).capacity() == old(self).capacity(),
            entries_wf(old(self).entries(), old(self).capacity()),
            entries_wf(final(self).entries(), final(self).capacity()),
            out@.len() == results@.len(),
            forall|i: int|
                0 <= i < out@.len() ==> (#[trigger] out@[i]).0 == results@[i].item_id && out@[i].1@ == (
                    results@[i].pixels@,
                    results@[i].width,
                    results@[i].height,
                ),
    {
        proof {
            use_type_invariant(&*self);
        }
        let ghost e0 = lru_entries(self.cache);
        let ghost cap = lru_capacity(self.cache);
        let ghost rs = result_entries(results@);
        let mut out: Vec<(i64, Thumb)> = Vec::new();
        let mut i: usize = 0;
        while i < results.len()
            invariant
                i <= results@.len(),
                rs == result_entries(results@),
                lru_capacity(self.cache) == cap,
                lru_entries(self.cache) == stored_all(e0, cap, rs.take(i as int)),
                entries_wf(lru_entries(self.cache), cap),
                out@.len() == i,
                forall|j: int|
                    0 <= j < i ==> (#[trigger] out@[j]).0 == results@[j].item_id && out@[j].1@ == (
                        results@[j].pixels@,
                        results@[j].width,
                        results@[j].height,
                    ),
            decreases results@.len() - i,
        {
            let r = &results[i];
            let stored_pixels = r.pixels.clone();
            let handed_pixels = r.pixels.clone();
            assert(stored_pixels@ =~= r.pixels@);
            assert(handed_pixels@ =~= r.pixels@);
            proof {
                lemma_stored_wf(lru_entries(self.cache), cap, r.item_id, (r.pixels@, r.width, r.height));
            }
            let _ = lru_put(&mut self.cache, r.item_id, (stored_pixels, r.width, r.height));
            out.push((r.item_id, (handed_pixels, r.width, r.height)));
            proof {
                assert(rs.take(i + 1).drop_last() =~= rs.take(i as int));
                assert(rs.take(i + 1).last() == result_entry(results@[i as int]));
            }
            i = i + 1;
        }
        assert(rs.take(i as int) =~= rs);
        out
    }
}

} // verus!
