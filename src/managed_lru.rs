use std::sync::atomic::{AtomicU64, Ordering};
use std::collections::hash_map::RandomState;
use std::sync::Arc;

use vstd::prelude::*;

verus! {

#[verifier::external_type_specification]
#[verifier::external_body]
#[verifier::reject_recursive_types(K)]
#[verifier::reject_recursive_types(V)]
#[verifier::reject_recursive_types(S)]
pub struct ExLruCache<K, V, S>(lru::LruCache<K, V, S>);

/// The cache's storage: each key maps to the epoch it was last touched in
/// and its value.
pub type EpochLru = lru::LruCache<u64, (u64, Vec<u8>), RandomState>;

/// The entries of an [`EpochLru`] as (key, touch epoch, value), least
/// recently used first.
pub uninterp spec fn lru_entries(c: EpochLru) -> Seq<(u64, u64, Seq<u8>)>;

/// The number of entries above which an [`EpochLru`] evicts on insert.
pub uninterp spec fn lru_capacity(c: EpochLru) -> nat;

/// Position of `k` among `s`'s keys, if present.
pub open spec fn key_index(s: Seq<(u64, u64, Seq<u8>)>, k: u64) -> Option<int> {
    if exists|i: int| 0 <= i < s.len() && (#[trigger] s[i]).0 == k {
        Some(choose|i: int| 0 <= i < s.len() && (#[trigger] s[i]).0 == k)
    } else {
        None
    }
}

pub open spec fn keys_unique(s: Seq<(u64, u64, Seq<u8>)>) -> bool {
    forall|i: int, j: int| 0 <= i < j < s.len() ==> (#[trigger] s[i]).0 != (#[trigger] s[j]).0
}

/// Entries after `put(k, (e, v))`: an entry of `k` moves to the most
/// recent end with the new epoch and value; a new key is appended, first
/// dropping the least recently used entry when the cache is full.
pub open spec fn put_entries(
    s: Seq<(u64, u64, Seq<u8>)>,
    cap: nat,
    k: u64,
    e: u64,
    v: Seq<u8>,
) -> Seq<(u64, u64, Seq<u8>)> {
    match key_index(s, k) {
        Some(i) => s.remove(i).push((k, e, v)),
        None => if s.len() < cap {
            s.push((k, e, v))
        } else {
            s.drop_first().push((k, e, v))
        },
    }
}

/// Relies on `lru::LruCache::unbounded_with_hasher`: an empty cache whose
/// capacity is `usize::MAX`.
#[verifier::external_body]
fn lru_unbounded(hasher: RandomState) -> (r: EpochLru)
    ensures
        lru_entries(r) == Seq::<(u64, u64, Seq<u8>)>::empty(),
        lru_capacity(r) == usize::MAX,
{
    lru::LruCache::unbounded_with_hasher(hasher)
}

/// Relies on `std::collections::hash_map::RandomState::new`: a hasher with
/// fresh random keys.
#[verifier::external_body]
fn random_state() -> RandomState {
    RandomState::new()
}

/// Relies on `lru::LruCache::put`: replaces the value of a present key, or
/// inserts a new one after evicting the least recently used entry of a
/// full cache; either way the key becomes the most recently used. Returns
/// the replaced value of the same key.
#[verifier::external_body]
fn lru_put(c: &mut EpochLru, k: u64, e: u64, v: Vec<u8>) -> (r: Option<(u64, Vec<u8>)>)
    ensures
        lru_capacity(*final(c)) == lru_capacity(*old(c)),
        lru_entries(*final(c)) == put_entries(
            lru_entries(*old(c)),
            lru_capacity(*old(c)),
            k,
            e,
            v@,
        ),
        match key_index(lru_entries(*old(c)), k) {
            Some(i) => r matches Some((oe, ov)) && oe == lru_entries(*old(c))[i].1 && ov@
                == lru_entries(*old(c))[i].2,
            None => r is None,
        },
{
    c.put(k, (e, v))
}

/// Relies on `lru::LruCache::pop`: removes the entry of `k` and returns its
/// epoch and value.
#[verifier::external_body]
fn lru_pop(c: &mut EpochLru, k: u64) -> (r: Option<(u64, Vec<u8>)>)
    ensures
        lru_capacity(*final(c)) == lru_capacity(*old(c)),
        match key_index(lru_entries(*old(c)), k) {
            Some(i) => {
                &&& lru_entries(*final(c)) == lru_entries(*old(c)).remove(i)
                &&& r matches Some((oe, ov)) && oe == lru_entries(*old(c))[i].1 && ov@
                    == lru_entries(*old(c))[i].2
            },
            None => lru_entries(*final(c)) == lru_entries(*old(c)) && r is None,
        },
{
    c.pop(&k)
}

/// Relies on `lru::LruCache::peek_lru`: the epoch of the least recently
/// used entry, leaving the order alone.
#[verifier::external_body]
fn lru_peek_lru_epoch(c: &EpochLru) -> (r: Option<u64>)
    ensures
        lru_entries(*c).len() == 0 ==> r is None,
        lru_entries(*c).len() > 0 ==> r == Some(lru_entries(*c)[0].1),
{
    c.peek_lru().map(|(_, v)| v.0)
}

/// Relies on `lru::LruCache::pop_lru`: removes the least recently used
/// entry.
#[verifier::external_body]
fn lru_pop_lru(c: &mut EpochLru) -> (r: Option<(u64, (u64, Vec<u8>))>)
    ensures
        lru_capacity(*final(c)) == lru_capacity(*old(c)),
        lru_entries(*old(c)).len() == 0 ==> r is None && lru_entries(*final(c)) == lru_entries(
            *old(c),
        ),
        lru_entries(*old(c)).len() > 0 ==> r is Some && lru_entries(*final(c)) == lru_entries(
            *old(c),
        ).drop_first(),
{
    c.pop_lru()
}

/// Relies on `lru::LruCache::peek`: the value of `k`, leaving the order
/// alone.
#[verifier::external_body]
fn lru_peek<'a>(c: &'a EpochLru, k: u64) -> (r: Option<&'a (u64, Vec<u8>)>)
    ensures
        match key_index(lru_entries(*c), k) {
            Some(i) => r matches Some(p) && p.0 == lru_entries(*c)[i].1 && p.1@ == lru_entries(
                *c,
            )[i].2,
            None => r is None,
        },
{
    c.peek(&k)
}

/// Relies on `lru::LruCache::len`: the number of entries.
#[verifier::external_body]
fn lru_len(c: &EpochLru) -> (r: usize)
    ensures
        r == lru_entries(*c).len(),
{
    c.len()
}

/// Labels under which a cache reports its evicted watermark.
pub struct MetricsInfo {
    pub table_id: String,
    pub actor_id: String,
    pub desc: String,
    /// Last reported evicted watermark, as milliseconds of physical time.
    pub lru_evicted_watermark_time_ms: u64,
}

/// Bits of an epoch below its physical time.
pub const EPOCH_PHYSICAL_SHIFT_BITS: u64 = 16;

/// The physical time, in milliseconds, at which `epoch` was issued.
pub open spec fn physical_time(epoch: u64) -> u64 {
    (epoch / 65536) as u64
}

pub open spec fn min_epoch(a: u64, b: u64) -> u64 {
    if a < b {
        a
    } else {
        b
    }
}

/// Number of leading entries whose epoch is below `bound`.
pub open spec fn evict_count(s: Seq<(u64, u64, Seq<u8>)>, bound: u64) -> nat
    decreases s.len(),
{
    if s.len() > 0 && s[0].1 < bound {
        1 + evict_count(s.drop_first(), bound)
    } else {
        0
    }
}

/// What is left after evicting, from the least recently used end, every
/// entry touched before `bound` up to the first one that was not.
pub open spec fn evict_by_epoch_entries(s: Seq<(u64, u64, Seq<u8>)>, bound: u64) -> Seq<
    (u64, u64, Seq<u8>),
> {
    s.skip(evict_count(s, bound) as int)
}

proof fn lemma_evict_count_step(s: Seq<(u64, u64, Seq<u8>)>, bound: u64)
    requires
        s.len() > 0,
        s[0].1 < bound,
    ensures
        s.drop_first().skip(evict_count(s.drop_first(), bound) as int) == s.skip(
            evict_count(s, bound) as int,
        ),
{
    let k = evict_count(s.drop_first(), bound);
    assert(evict_count(s, bound) == 1 + k);
    lemma_evict_count_le(s.drop_first(), bound);
    assert(s.drop_first().skip(k as int) =~= s.skip(evict_count(s, bound) as int));
}

proof fn lemma_evict_count_le(s: Seq<(u64, u64, Seq<u8>)>, bound: u64)
    ensures
        evict_count(s, bound) <= s.len(),
    decreases s.len(),
{
    if s.len() > 0 && s[0].1 < bound {
        lemma_evict_count_le(s.drop_first(), bound);
    }
}

pub open spec fn touched_at_or_after(bound: u64) -> spec_fn((u64, u64, Seq<u8>)) -> bool {
    |e: (u64, u64, Seq<u8>)| e.1 >= bound
}

/// The entries of `s` last touched at or after `bound`, in order.
pub open spec fn touched_since(s: Seq<(u64, u64, Seq<u8>)>, bound: u64) -> Seq<
    (u64, u64, Seq<u8>),
> {
    s.filter(touched_at_or_after(bound))
}

/// Touch epochs do not decrease from the least to the most recently used
/// entry.
pub open spec fn epochs_ordered(s: Seq<(u64, u64, Seq<u8>)>) -> bool {
    forall|i: int, j: int| 0 <= i < j < s.len() ==> (#[trigger] s[i]).1 <= (#[trigger] s[j]).1
}

pub open spec fn epochs_at_most(s: Seq<(u64, u64, Seq<u8>)>, epoch: u64) -> bool {
    forall|i: int| 0 <= i < s.len() ==> (#[trigger] s[i]).1 <= epoch
}

proof fn lemma_drop_first_ordered(s: Seq<(u64, u64, Seq<u8>)>, epoch: u64)
    requires
        s.len() > 0,
        epochs_ordered(s),
        epochs_at_most(s, epoch),
    ensures
        epochs_ordered(s.drop_first()),
        epochs_at_most(s.drop_first(), epoch),
{
    let t = s.drop_first();
    assert forall|i: int, j: int| 0 <= i < j < t.len() implies (#[trigger] t[i]).1 <= (
    #[trigger] t[j]).1 by {
        assert(t[i] == s[i + 1] && t[j] == s[j + 1]);
    }
    assert forall|i: int| 0 <= i < t.len() implies (#[trigger] t[i]).1 <= epoch by {
        assert(t[i] == s[i + 1]);
    }
}

proof fn lemma_remove_ordered(s: Seq<(u64, u64, Seq<u8>)>, k: int, epoch: u64)
    requires
        0 <= k < s.len(),
        epochs_ordered(s),
        epochs_at_most(s, epoch),
    ensures
        epochs_ordered(s.remove(k)),
        epochs_at_most(s.remove(k), epoch),
{
    let t = s.remove(k);
    assert forall|i: int, j: int| 0 <= i < j < t.len() implies (#[trigger] t[i]).1 <= (
    #[trigger] t[j]).1 by {
        let i0 = if i < k { i } else { i + 1 };
        let j0 = if j < k { j } else { j + 1 };
        assert(t[i] == s[i0] && t[j] == s[j0]);
    }
    assert forall|i: int| 0 <= i < t.len() implies (#[trigger] t[i]).1 <= epoch by {
        let i0 = if i < k { i } else { i + 1 };
        assert(t[i] == s[i0]);
    }
}

proof fn lemma_push_ordered(s: Seq<(u64, u64, Seq<u8>)>, x: (u64, u64, Seq<u8>))
    requires
        epochs_ordered(s),
        epochs_at_most(s, x.1),
    ensures
        epochs_ordered(s.push(x)),
        epochs_at_most(s.push(x), x.1),
{
    let t = s.push(x);
    assert forall|i: int, j: int| 0 <= i < j < t.len() implies (#[trigger] t[i]).1 <= (
    #[trigger] t[j]).1 by {
        assert(t[i] == s[i]);
        if j < s.len() {
            assert(t[j] == s[j]);
        }
    }
    assert forall|i: int| 0 <= i < t.len() implies (#[trigger] t[i]).1 <= x.1 by {
        if i < s.len() {
            assert(t[i] == s[i]);
        }
    }
}

proof fn lemma_put_ordered(s: Seq<(u64, u64, Seq<u8>)>, cap: nat, k: u64, e: u64, v: Seq<u8>)
    requires
        epochs_ordered(s),
        epochs_at_most(s, e),
        cap > 0,
        s.len() <= cap,
    ensures
        epochs_ordered(put_entries(s, cap, k, e, v)),
        epochs_at_most(put_entries(s, cap, k, e, v), e),
{
    match key_index(s, k) {
        Some(i) => {
            lemma_remove_ordered(s, i, e);
            lemma_push_ordered(s.remove(i), (k, e, v));
        },
        None => {
            if s.len() < cap {
                lemma_push_ordered(s, (k, e, v));
            } else {
                lemma_drop_first_ordered(s, e);
                lemma_push_ordered(s.drop_first(), (k, e, v));
            }
        },
    }
}

/// With ordered touch epochs, evicting from the least recently used end
/// removes exactly the entries touched before `bound`.
proof fn lemma_ordered_evict(s: Seq<(u64, u64, Seq<u8>)>, bound: u64)
    requires
        epochs_ordered(s),
    ensures
        evict_by_epoch_entries(s, bound) == touched_since(s, bound),
    decreases s.len(),
{
    let p = touched_at_or_after(bound);
    if s.len() > 0 && s[0].1 < bound {
        let t = s.drop_first();
        assert forall|i: int, j: int| 0 <= i < j < t.len() implies (#[trigger] t[i]).1 <= (
        #[trigger] t[j]).1 by {
            assert(t[i] == s[i + 1] && t[j] == s[j + 1]);
        }
        lemma_ordered_evict(t, bound);
        lemma_evict_count_step(s, bound);
        assert(s =~= seq![s[0]] + t);
        t.lemma_filter_prepend(s[0], p);
        assert(!p(s[0]));
        assert((Seq::<(u64, u64, Seq<u8>)>::empty() + t.filter(p)) =~= t.filter(p));
    } else {
        assert(evict_count(s, bound) == 0);
        assert(s.skip(0) =~= s);
        assert forall|i: int| 0 <= i < s.len() implies #[trigger] p(s[i]) by {
            if i > 0 {
                assert(s[0].1 <= s[i].1);
            }
        }
        crate::seq_lemmas::lemma_filter_all(s, p);
    }
}

/// An entry touched in the current epoch or later survives
/// `evict_except_cur_epoch`, however far the watermark has advanced.
pub proof fn lemma_evict_except_cur_epoch_keeps_current(
    s: Seq<(u64, u64, Seq<u8>)>,
    watermark: u64,
    current_epoch: u64,
    i: int,
)
    requires
        0 <= i < s.len(),
        s[i].1 >= current_epoch,
    ensures
        touched_since(s, min_epoch(watermark, current_epoch)).contains(s[i]),
{
    s.lemma_filter_contains(touched_at_or_after(min_epoch(watermark, current_epoch)), i);
}

/// A cache whose memory is bounded by epoch: entries last touched before a
/// shared watermark epoch are evicted.
pub struct ManagedLruCache {
    inner: EpochLru,
    /// Epoch that entries inserted or touched now are tagged with.
    current_epoch: u64,
    /// Entries touched before this epoch may be evicted. Updated by the
    /// global memory manager only.
    watermark_epoch: Arc<AtomicU64>,
    metrics_info: Option<MetricsInfo>,
}

impl ManagedLruCache {
    /// The entries, as (key, touch epoch, value), least recently used first.
    pub closed spec fn entries(&self) -> Seq<(u64, u64, Seq<u8>)> {
        lru_entries(self.inner)
    }

    pub closed spec fn current_epoch_spec(&self) -> u64 {
        self.current_epoch
    }

    pub closed spec fn metrics_spec(&self) -> Option<u64> {
        match self.metrics_info {
            Some(m) => Some(m.lru_evicted_watermark_time_ms),
            None => None,
        }
    }

    pub closed spec fn wf(&self) -> bool {
        &&& keys_unique(lru_entries(self.inner))
        &&& lru_capacity(self.inner) == usize::MAX
        &&& lru_entries(self.inner).len() <= usize::MAX
        &&& epochs_ordered(lru_entries(self.inner))
        &&& epochs_at_most(lru_entries(self.inner), self.current_epoch)
    }

    pub fn current_epoch(&self) -> (r: u64)
        ensures
            r == self.current_epoch_spec(),
    {
        self.current_epoch
    }

    /// Evicted watermark last reported, as physical milliseconds; `None`
    /// when the cache reports no metrics.
    pub fn evicted_watermark_time_ms(&self) -> (r: Option<u64>)
        ensures
            r == self.metrics_spec(),
    {
        match &self.metrics_info {
            Some(m) => Some(m.lru_evicted_watermark_time_ms),
            None => None,
        }
    }

    pub fn len(&self) -> (r: usize)
        ensures
            r == self.entries().len(),
    {
        lru_len(&self.inner)
    }

    /// Entries inserted or touched from now on are tagged with `epoch`;
    /// epochs only move forward.
    pub fn update_epoch(&mut self, epoch: u64)
        requires
            old(self).wf(),
            epoch >= old(self).current_epoch_spec(),
        ensures
            final(self).wf(),
            final(self).entries() == old(self).entries(),
            final(self).current_epoch_spec() == epoch,
            final(self).metrics_spec() == old(self).metrics_spec(),
    {
        self.current_epoch = epoch;
    }

    /// Inserts or replaces the value of `key`, tagged with the current
    /// epoch, as the most recently used entry. A cache holding `usize::MAX`
    /// entries first drops its least recently used one.
    pub fn put(&mut self, key: u64, value: Vec<u8>) -> (r: Option<Vec<u8>>)
        requires
            old(self).wf(),
        ensures
            final(self).wf(),
            final(self).current_epoch_spec() == old(self).current_epoch_spec(),
            final(self).metrics_spec() == old(self).metrics_spec(),
            final(self).entries() == put_entries(
                old(self).entries(),
                usize::MAX as nat,
                key,
                old(self).current_epoch_spec(),
                value@,
            ),
            match key_index(old(self).entries(), key) {
                Some(i) => r matches Some(v) && v@ == old(self).entries()[i].2,
                None => r is None,
            },
    {
        let ghost s = lru_entries(self.inner);
        let r = lru_put(&mut self.inner, key, self.current_epoch, value);
        proof {
            lemma_put_keeps_unique(s, usize::MAX as nat, key, self.current_epoch, value@);
            lemma_put_ordered(s, usize::MAX as nat, key, self.current_epoch, value@);
        }
        match r {
            Some((_, v)) => Some(v),
            None => None,
        }
    }

    /// The value of `key`; touching it makes it the most recently used
    /// entry and tags it with the current epoch.
    pub fn get(&mut self, key: u64) -> (r: Option<&Vec<u8>>)
        requires
            old(self).wf(),
        ensures
            final(self).wf(),
            final(self).current_epoch_spec() == old(self).current_epoch_spec(),
            final(self).metrics_spec() == old(self).metrics_spec(),
            match key_index(old(self).entries(), key) {
                Some(i) => {
                    &&& final(self).entries() == old(self).entries().remove(i).push(
                        (key, old(self).current_epoch_spec(), old(self).entries()[i].2),
                    )
                    &&& r matches Some(v) && v@ == old(self).entries()[i].2
                },
                None => final(self).entries() == old(self).entries() && r is None,
            },
    {
        let ghost s = lru_entries(self.inner);
        match lru_pop(&mut self.inner, key) {
            None => {},
            Some((_, v)) => {
                let ghost i = key_index(s, key).unwrap();
                proof {
                    lemma_remove_keeps_unique(s, i);
                    lemma_removed_key_absent(s, i);
                }
                lru_put(&mut self.inner, key, self.current_epoch, v);
                proof {
                    let t = s.remove(i);
                    lemma_put_keeps_unique(t, usize::MAX as nat, key, self.current_epoch, s[i].2);
                    lemma_remove_ordered(s, i, self.current_epoch);
                    lemma_put_ordered(t, usize::MAX as nat, key, self.current_epoch, s[i].2);
                    let u = lru_entries(self.inner);
                    assert(u == t.push((key, self.current_epoch, s[i].2)));
                    assert(u[u.len() - 1].0 == key);
                    let j = key_index(u, key).unwrap();
                    if j != u.len() - 1 {
                        assert(u[j].0 != u[u.len() - 1].0);
                    }
                }
            },
        }
        match lru_peek(&self.inner, key) {
            Some(p) => Some(&p.1),
            None => None,
        }
    }

    /// The value of `key`, leaving the order and the epochs alone.
    pub fn peek(&self, key: u64) -> (r: Option<&Vec<u8>>)
        ensures
            match key_index(self.entries(), key) {
                Some(i) => r matches Some(v) && v@ == self.entries()[i].2,
                None => r is None,
            },
    {
        match lru_peek(&self.inner, key) {
            Some(p) => Some(&p.1),
            None => None,
        }
    }

    /// Evicts every entry touched before `epoch`. Touch epochs grow from
    /// the least to the most recently used end, so the sweep stops at the
    /// first entry that was not.
    pub fn evict_by_epoch(&mut self, epoch: u64)
        requires
            old(self).wf(),
        ensures
            final(self).wf(),
            final(self).entries() == touched_since(old(self).entries(), epoch),
            final(self).current_epoch_spec() == old(self).current_epoch_spec(),
            final(self).metrics_spec() == old(self).metrics_spec(),
    {
        let ghost s0 = lru_entries(self.inner);
        loop
            invariant
                self.wf(),
                self.current_epoch == old(self).current_epoch,
                self.metrics_spec() == old(self).metrics_spec(),
                evict_by_epoch_entries(lru_entries(self.inner), epoch) == evict_by_epoch_entries(
                    s0,
                    epoch,
                ),
            ensures
                self.wf(),
                self.current_epoch == old(self).current_epoch,
                self.metrics_spec() == old(self).metrics_spec(),
                lru_entries(self.inner) == evict_by_epoch_entries(s0, epoch),
            decreases lru_entries(self.inner).len(),
        {
            let ghost s = lru_entries(self.inner);
            match lru_peek_lru_epoch(&self.inner) {
                Some(e) => {
                    if e < epoch {
                        lru_pop_lru(&mut self.inner);
                        proof {
                            lemma_drop_first_ordered(s, self.current_epoch);
                            lemma_evict_count_step(s, epoch);
                            lemma_remove_keeps_unique(s, 0);
                            assert(s.remove(0) =~= s.drop_first());
                        }
                    } else {
                        assert(evict_count(s, epoch) == 0);
                        assert(s.skip(0) =~= s);
                        break;
                    }
                },
                None => {
                    assert(evict_count(s, epoch) == 0);
                    assert(s.skip(0) =~= s);
                    break;
                },
            }
        }
        proof {
            lemma_ordered_evict(s0, epoch);
        }
    }

    /// Evicts every entry touched before `watermark` and reports
    /// `watermark` as the evicted watermark.
    pub fn evict_below(&mut self, watermark: u64)
        requires
            old(self).wf(),
        ensures
            final(self).wf(),
            final(self).current_epoch_spec() == old(self).current_epoch_spec(),
            final(self).entries() == touched_since(old(self).entries(), watermark),
            old(self).metrics_spec() is Some ==> final(self).metrics_spec() == Some(
                physical_time(watermark),
            ),
            old(self).metrics_spec() is None ==> final(self).metrics_spec() is None,
    {
        self.evict_by_epoch(watermark);
        self.report_evicted_watermark(watermark);
    }

    /// Evicts every entry touched before `watermark`, but never one touched
    /// in the current epoch: the bound is `watermark` or the current epoch,
    /// whichever is lower, and that bound is reported.
    pub fn evict_below_except_cur_epoch(&mut self, watermark: u64)
        requires
            old(self).wf(),
        ensures
            final(self).wf(),
            final(self).current_epoch_spec() == old(self).current_epoch_spec(),
            final(self).entries() == touched_since(
                old(self).entries(),
                min_epoch(watermark, old(self).current_epoch_spec()),
            ),
            old(self).metrics_spec() is Some ==> final(self).metrics_spec() == Some(
                physical_time(min_epoch(watermark, old(self).current_epoch_spec())),
            ),
            old(self).metrics_spec() is None ==> final(self).metrics_spec() is None,
            forall|i: int|
                0 <= i < old(self).entries().len() && old(self).entries()[i].1
                    >= old(self).current_epoch_spec() ==> final(self).entries().contains(
                    #[trigger] old(self).entries()[i],
                ),
    {
        let cur = self.current_epoch;
        let bound = if watermark < cur {
            watermark
        } else {
            cur
        };
        let ghost s = lru_entries(self.inner);
        self.evict_below(bound);
        proof {
            assert forall|i: int|
                0 <= i < s.len() && s[i].1 >= cur implies lru_entries(self.inner).contains(
                #[trigger] s[i],
            ) by {
                lemma_evict_except_cur_epoch_keeps_current(s, watermark, cur, i);
            }
        }
    }

    /// Evicts the entries touched before the shared watermark epoch, read
    /// now: see [`Self::evict_below`].
    pub fn evict(&mut self)
        requires
            old(self).wf(),
        ensures
            final(self).wf(),
            final(self).current_epoch_spec() == old(self).current_epoch_spec(),
            exists|watermark: u64|
                {
                    &&& final(self).entries() == #[trigger] touched_since(
                        old(self).entries(),
                        watermark,
                    )
                    &&& old(self).metrics_spec() is Some ==> final(self).metrics_spec() == Some(
                        physical_time(watermark),
                    )
                    &&& old(self).metrics_spec() is None ==> final(self).metrics_spec() is None
                },
    {
        let watermark = self.watermark_epoch.load(Ordering::Relaxed);
        self.evict_below(watermark);
    }

    /// Evicts the entries touched before the shared watermark epoch, read
    /// now, but never one touched in the current epoch: see
    /// [`Self::evict_below_except_cur_epoch`].
    pub fn evict_except_cur_epoch(&mut self)
        requires
            old(self).wf(),
        ensures
            final(self).wf(),
            final(self).current_epoch_spec() == old(self).current_epoch_spec(),
            exists|watermark: u64|
                {
                    &&& final(self).entries() == #[trigger] touched_since(
                        old(self).entries(),
                        min_epoch(watermark, old(self).current_epoch_spec()),
                    )
                    &&& old(self).metrics_spec() is Some ==> final(self).metrics_spec() == Some(
                        physical_time(min_epoch(watermark, old(self).current_epoch_spec())),
                    )
                    &&& old(self).metrics_spec() is None ==> final(self).metrics_spec() is None
                },
            forall|i: int|
                0 <= i < old(self).entries().len() && old(self).entries()[i].1
                    >= old(self).current_epoch_spec() ==> final(self).entries().contains(
                    #[trigger] old(self).entries()[i],
                ),
    {
        let watermark = self.watermark_epoch.load(Ordering::Relaxed);
        self.evict_below_except_cur_epoch(watermark);
    }

    fn report_evicted_watermark(&mut self, epoch: u64)
        ensures
            final(self).entries() == old(self).entries(),
            final(self).current_epoch_spec() == old(self).current_epoch_spec(),
            final(self).wf() == old(self).wf(),
            old(self).metrics_spec() is Some ==> final(self).metrics_spec() == Some(
                physical_time(epoch),
            ),
            old(self).metrics_spec() is None ==> final(self).metrics_spec() is None,
    {
        if let Some(metrics_info) = &mut self.metrics_info {
            metrics_info.lru_evicted_watermark_time_ms = epoch >> EPOCH_PHYSICAL_SHIFT_BITS;
            assert(epoch >> 16u64 == epoch / 65536) by (bit_vector);
        }
    }
}

proof fn lemma_remove_keeps_unique(s: Seq<(u64, u64, Seq<u8>)>, i: int)
    requires
        keys_unique(s),
        0 <= i < s.len(),
    ensures
        keys_unique(s.remove(i)),
{
    let r = s.remove(i);
    assert forall|a: int, b: int| 0 <= a < b < r.len() implies (#[trigger] r[a]).0 != (
    #[trigger] r[b]).0 by {
        let a0 = if a < i { a } else { a + 1 };
        let b0 = if b < i { b } else { b + 1 };
        assert(r[a] == s[a0] && r[b] == s[b0]);
    }
}

proof fn lemma_removed_key_absent(s: Seq<(u64, u64, Seq<u8>)>, i: int)
    requires
        keys_unique(s),
        0 <= i < s.len(),
    ensures
        key_index(s.remove(i), s[i].0) is None,
{
    let r = s.remove(i);
    assert forall|a: int| 0 <= a < r.len() implies (#[trigger] r[a]).0 != s[i].0 by {
        let a0 = if a < i { a } else { a + 1 };
        assert(r[a] == s[a0]);
    }
}

proof fn lemma_put_keeps_unique(s: Seq<(u64, u64, Seq<u8>)>, cap: nat, k: u64, e: u64, v: Seq<u8>)
    requires
        keys_unique(s),
        cap > 0,
        s.len() <= cap,
    ensures
        keys_unique(put_entries(s, cap, k, e, v)),
{
    match key_index(s, k) {
        Some(i) => {
            lemma_remove_keeps_unique(s, i);
            lemma_removed_key_absent(s, i);
            let t = s.remove(i);
            let u = t.push((k, e, v));
            assert forall|a: int, b: int|
                0 <= a < b < u.len() implies (#[trigger] u[a]).0 != (#[trigger] u[b]).0 by {
                assert(u[a] == t[a]);
                if b < t.len() {
                    assert(u[b] == t[b]);
                }
            }
        },
        None => {
            let t = if s.len() < cap {
                s
            } else {
                s.drop_first()
            };
            assert forall|a: int| 0 <= a < t.len() implies (#[trigger] t[a]).0 != k by {
                if s.len() >= cap {
                    assert(t[a] == s[a + 1]);
                }
            }
            assert forall|a: int, b: int|
                0 <= a < b < t.len() implies (#[trigger] t[a]).0 != (#[trigger] t[b]).0 by {
                if s.len() >= cap {
                    assert(t[a] == s[a + 1] && t[b] == s[b + 1]);
                }
            }
            let u = t.push((k, e, v));
            assert forall|a: int, b: int|
                0 <= a < b < u.len() implies (#[trigger] u[a]).0 != (#[trigger] u[b]).0 by {
                assert(u[a] == t[a]);
                if b < t.len() {
                    assert(u[b] == t[b]);
                }
            }
            assert(put_entries(s, cap, k, e, v) == u);
        },
    }
}

/// A cache that never evicts on insert.
pub fn new_unbounded(watermark_epoch: Arc<AtomicU64>) -> (r: ManagedLruCache)
    ensures
        r.wf(),
        r.entries() == Seq::<(u64, u64, Seq<u8>)>::empty(),
        r.current_epoch_spec() == 0,
        r.metrics_spec() is None,
{
    ManagedLruCache {
        inner: lru_unbounded(random_state()),
        current_epoch: 0,
        watermark_epoch,
        metrics_info: None,
    }
}

/// A cache that never evicts on insert and reports its evicted watermark
/// under `metrics_info`.
pub fn new_unbounded_with_metrics(watermark_epoch: Arc<AtomicU64>, metrics_info: MetricsInfo) -> (r:
    ManagedLruCache)
    ensures
        r.wf(),
        r.entries() == Seq::<(u64, u64, Seq<u8>)>::empty(),
        r.current_epoch_spec() == 0,
        r.metrics_spec() == Some(metrics_info.lru_evicted_watermark_time_ms),
{
    ManagedLruCache {
        inner: lru_unbounded(random_state()),
        current_epoch: 0,
        watermark_epoch,
        metrics_info: Some(metrics_info),
    }
}

/// A cache that never evicts on insert, hashes its keys with `hasher`, and
/// reports its evicted watermark under `metrics_info`.
pub fn new_with_hasher(
    watermark_epoch: Arc<AtomicU64>,
    metrics_info: MetricsInfo,
    hasher: RandomState,
) -> (r: ManagedLruCache)
    ensures
        r.wf(),
        r.entries() == Seq::<(u64, u64, Seq<u8>)>::empty(),
        r.current_epoch_spec() == 0,
        r.metrics_spec() == Some(metrics_info.lru_evicted_watermark_time_ms),
{
    ManagedLruCache {
        inner: lru_unbounded(hasher),
        current_epoch: 0,
        watermark_epoch,
        metrics_info: Some(metrics_info),
    }
}

} // verus!
