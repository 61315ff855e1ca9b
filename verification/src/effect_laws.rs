//! What the operations of the filter do to every slot, in plain numbers.
//!
//! The laws here say of a slot, known by its bucket and its place in it, what it holds before and
//! after an operation. They take a fingerprint and its two buckets: `first` is where the hash of a
//! key leads, `second` where the hash of its fingerprint leads from there. A hasher gives `hash` for
//! the fingerprint, and nothing else.
use crate::associated_data::AssociatedData;
use crate::bucket;
use crate::bucket::LookupValues;
use crate::config::{CuckooConfiguration, LruAgingStrategy};
use crate::filter::CuckooFilter;
use crate::laws;
use crate::number_laws;
use crate::placement;
use crate::slot::SlotView;
use std::hash::BuildHasher;
use vstd::prelude::*;

verus! {

/// The other bucket of a fingerprint, and that a bucket index is in range.
pub(crate) proof fn lemma_two_buckets(
    cfg: CuckooConfiguration,
    hashes: spec_fn(u32, u64) -> bool,
    buckets: Seq<Seq<SlotView>>,
    fingerprint: u32,
    first: u32,
    second: u32,
    hash: u64,
)
    requires
        cfg.shapes(buckets),
        first & cfg.mask() == first,
        hashes(fingerprint, hash),
        forall|h: u64| #[trigger] hashes(fingerprint, h) ==> h == hash,
        second == (first ^ ((hash as u32) & cfg.mask())) & cfg.mask(),
    ensures
        first < buckets.len(),
        second < buckets.len(),
        second & cfg.mask() == second,
        buckets[first as int].len() == cfg.slot_count(),
        buckets[second as int].len() == cfg.slot_count(),
        cfg.is_alternate(hashes, fingerprint, first, second),
        forall|other: u32| #[trigger]
            cfg.is_alternate(hashes, fingerprint, first, other) ==> other == second,
{
    laws::lemma_index_in_range(cfg, buckets, first);
    let m = cfg.mask();
    let x = first ^ ((hash as u32) & m);
    assert((x & m) & m == x & m) by (bit_vector);
    laws::lemma_index_in_range(cfg, buckets, second);
    assert(hashes(fingerprint, hash) && second == placement::alternate(m, hash, first));
    assert forall|other: u32| #[trigger]
        cfg.is_alternate(hashes, fingerprint, first, other) implies other == second by {
        let h = choose|h: u64| #[trigger]
            hashes(fingerprint, h) && other == placement::alternate(m, h, first);
        assert(h == hash);
    }
}

/// A lookup finds an item exactly if a slot of one of its two buckets holds its fingerprint. It
/// counts the first such slot, in the first bucket if there is one: the LRU counter grows by the
/// increment up to its largest value, the TTL is set if one is given, the generic counter changes by
/// the given difference or by that of the configuration. Nothing else in the filter changes.
pub proof fn law_lookup_effect(
    cfg: CuckooConfiguration,
    hashes: spec_fn(u32, u64) -> bool,
    before: Seq<Seq<SlotView>>,
    fingerprint: u32,
    first: u32,
    second: u32,
    hash: u64,
    update: LookupValues,
    after: Seq<Seq<SlotView>>,
    found_in: Option<u32>,
    i: int,
    s: int,
)
    requires
        cfg.shapes(before),
        first & cfg.mask() == first,
        hashes(fingerprint, hash),
        forall|h: u64| #[trigger] hashes(fingerprint, h) ==> h == hash,
        second == (first ^ ((hash as u32) & cfg.mask())) & cfg.mask(),
        cfg.looks_up(hashes, before, fingerprint, first, update, after, found_in),
        0 <= i < before.len(),
        0 <= s < before[i].len(),
    ensures
        after.len() == before.len(),
        after[i].len() == before[i].len(),
        ({
            let in_first = exists|t: int|
                0 <= t < before[first as int].len() && #[trigger] before[first as int][t].fingerprint
                    == fingerprint;
            let in_second = exists|t: int|
                0 <= t < before[second as int].len()
                    && #[trigger] before[second as int][t].fingerprint == fingerprint;
            let hit = (i == first || (i == second && !in_first)) && before[i][s].fingerprint
                == fingerprint && forall|t: int|
                0 <= t < s ==> #[trigger] before[i][t].fingerprint != fingerprint;
            let stored = before[i][s];
            let now = after[i][s];
            &&& found_in == (if in_first {
                Some(first)
            } else if in_second {
                Some(second)
            } else {
                None
            })
            &&& !hit ==> now == stored
            &&& hit ==> {
                &&& now.fingerprint == fingerprint
                &&& now.rest == stored.rest
                &&& match cfg.lru_field() {
                    Some((lru, field)) => if stored.lru + lru.increment <= field.max() {
                        now.lru == stored.lru + lru.increment
                    } else {
                        now.lru == field.max()
                    },
                    None => now.lru == stored.lru,
                }
                &&& match (cfg.ttl_field(), update.ttl) {
                    (Some((_, field)), Some(ttl)) => now.ttl == ttl & field.max(),
                    _ => now.ttl == stored.ttl,
                }
                &&& match cfg.counter_field() {
                    Some((counter, field)) => {
                        let sum = stored.counter + (match update.counter_diff {
                            Some(diff) => diff,
                            None => counter.change_on_lookup,
                        });
                        &&& 0 <= sum <= field.max() ==> now.counter == sum
                        &&& sum < 0 ==> now.counter == 0
                        &&& sum > field.max() ==> now.counter == field.max()
                    },
                    None => now.counter == stored.counter,
                }
            }
        }),
{
    lemma_two_buckets(cfg, hashes, before, fingerprint, first, second, hash);
    number_laws::law_bucket_holds(before[first as int], fingerprint);
    number_laws::law_bucket_holds(before[second as int], fingerprint);
    number_laws::law_first_match(before[i], fingerprint, false);
    let index = bucket::first_match(before[i], fingerprint, false, 0);
    if index < before[i].len() {
        number_laws::law_bucket_lookup(cfg, before[i], fingerprint, update, index);
    }
    if s < index {
        assert(before[i][s].fingerprint != fingerprint);
    } else if s > index {
        assert(before[i][index].fingerprint == fingerprint);
    }
}

/// The data that a lookup gives is that of the first slot of a bucket that holds the fingerprint: the
/// LRU counter is as it was before, the TTL is the given one if one is given, the generic counter has
/// changed by the given difference or by that of the configuration.
pub proof fn law_lookup_data<H: BuildHasher>(
    filter: CuckooFilter<H>,
    fingerprint: u32,
    found_in: Option<u32>,
    update: LookupValues,
    data: Option<AssociatedData>,
    s: int,
)
    requires
        filter.gives_data(fingerprint, found_in, update, data),
        found_in matches Some(place) ==> {
            let slots = filter@[place as int];
            &&& 0 <= s < slots.len()
            &&& slots[s].fingerprint == fingerprint
            &&& forall|t: int| 0 <= t < s ==> #[trigger] slots[t].fingerprint != fingerprint
        },
    ensures
        data is Some == found_in is Some,
        data matches Some(data) ==> {
            let cfg = filter.config();
            let stored = filter@[found_in->Some_0 as int][s];
            let shown = cfg.slot(data.bytes());
            &&& data.config() == cfg
            &&& data.bytes().len() == cfg.block_len()
            &&& shown.fingerprint == fingerprint
            &&& shown.lru == stored.lru
            &&& shown.rest == stored.rest
            &&& match (cfg.ttl_field(), update.ttl) {
                (Some((_, field)), Some(ttl)) => shown.ttl == ttl & field.max(),
                _ => shown.ttl == stored.ttl,
            }
            &&& match cfg.counter_field() {
                Some((counter, field)) => {
                    let sum = stored.counter + (match update.counter_diff {
                        Some(diff) => diff,
                        None => counter.change_on_lookup,
                    });
                    &&& 0 <= sum <= field.max() ==> shown.counter == sum
                    &&& sum < 0 ==> shown.counter == 0
                    &&& sum > field.max() ==> shown.counter == field.max()
                },
                None => shown.counter == stored.counter,
            }
        },
{
    if let Some(place) = found_in {
        let slots = filter@[place as int];
        number_laws::law_first_match(slots, fingerprint, false);
        let index = bucket::first_match(slots, fingerprint, false, 0);
        if index < s {
            assert(slots[index].fingerprint != fingerprint);
        } else if s < index {
            assert(slots[s].fingerprint != fingerprint);
        }
        number_laws::law_lookup_counts(filter.config(), slots[s], update);
    }
}

/// A removal finds an item exactly if a slot of one of its two buckets holds its fingerprint. The
/// first such slot, in the first bucket if there is one, has zeros only then. Nothing else in the
/// filter changes.
pub proof fn law_remove_effect(
    cfg: CuckooConfiguration,
    hashes: spec_fn(u32, u64) -> bool,
    before: Seq<Seq<SlotView>>,
    fingerprint: u32,
    first: u32,
    second: u32,
    hash: u64,
    after: Seq<Seq<SlotView>>,
    found: bool,
    i: int,
    s: int,
)
    requires
        cfg.shapes(before),
        first & cfg.mask() == first,
        hashes(fingerprint, hash),
        forall|h: u64| #[trigger] hashes(fingerprint, h) ==> h == hash,
        second == (first ^ ((hash as u32) & cfg.mask())) & cfg.mask(),
        cfg.removes(hashes, before, fingerprint, first, after, found),
        0 <= i < before.len(),
        0 <= s < before[i].len(),
    ensures
        after.len() == before.len(),
        after[i].len() == before[i].len(),
        ({
            let in_first = exists|t: int|
                0 <= t < before[first as int].len() && #[trigger] before[first as int][t].fingerprint
                    == fingerprint;
            let in_second = exists|t: int|
                0 <= t < before[second as int].len()
                    && #[trigger] before[second as int][t].fingerprint == fingerprint;
            let hit = (i == first || (i == second && !in_first)) && before[i][s].fingerprint
                == fingerprint && forall|t: int|
                0 <= t < s ==> #[trigger] before[i][t].fingerprint != fingerprint;
            let now = after[i][s];
            &&& found == (in_first || in_second)
            &&& !hit ==> now == before[i][s]
            &&& hit ==> {
                &&& now.fingerprint == 0
                &&& now.lru == 0
                &&& now.ttl == 0
                &&& now.counter == 0
                &&& now.rest == 0
            }
        }),
{
    lemma_two_buckets(cfg, hashes, before, fingerprint, first, second, hash);
    number_laws::law_bucket_holds(before[first as int], fingerprint);
    number_laws::law_bucket_holds(before[second as int], fingerprint);
    number_laws::law_first_match(before[i], fingerprint, false);
    let index = bucket::first_match(before[i], fingerprint, false, 0);
    if index < before[i].len() {
        number_laws::law_bucket_remove(before[i], fingerprint, index);
    }
    if s < index {
        assert(before[i][s].fingerprint != fingerprint);
    } else if s > index {
        assert(before[i][index].fingerprint == fingerprint);
    }
}

/// An insertion of an item whose first or second bucket has an empty slot, or a slot that holds its
/// fingerprint, evicts nothing. The first such slot, in the first bucket if there is one, takes the
/// item. If it was empty, it holds the numbers of the item then. If it held the fingerprint, its TTL
/// is that of the item, whatever it was before, the LRU counter grows by the increment up to its
/// largest value, and the generic counter changes by what the configuration says for insertions.
/// Nothing else in the filter changes.
pub proof fn law_insert_effect(
    cfg: CuckooConfiguration,
    hashes: spec_fn(u32, u64) -> bool,
    before: Seq<Seq<SlotView>>,
    item: SlotView,
    first: u32,
    second: u32,
    hash: u64,
    after: Seq<Seq<SlotView>>,
    evicted: Option<u32>,
    i: int,
    s: int,
)
    requires
        cfg.shapes(before),
        first & cfg.mask() == first,
        hashes(item.fingerprint, hash),
        forall|h: u64| #[trigger] hashes(item.fingerprint, h) ==> h == hash,
        second == (first ^ ((hash as u32) & cfg.mask())) & cfg.mask(),
        cfg.inserts(hashes, before, item, first, after, evicted),
        0 <= i < before.len(),
        0 <= s < before[i].len(),
        exists|p: u32, t: int|
            (p == first || p == second) && 0 <= t < before[p as int].len() && (
            #[trigger] before[p as int][t].fingerprint == item.fingerprint
                || before[p as int][t].fingerprint == 0),
    ensures
        evicted is None,
        after.len() == before.len(),
        after[i].len() == before[i].len(),
        ({
            let room_in_first = exists|t: int|
                0 <= t < before[first as int].len() && (
                #[trigger] before[first as int][t].fingerprint == item.fingerprint
                    || before[first as int][t].fingerprint == 0);
            let hit = (i == first || (i == second && !room_in_first)) && (before[i][s].fingerprint
                == item.fingerprint || before[i][s].fingerprint == 0) && forall|t: int|
                0 <= t < s ==> #[trigger] before[i][t].fingerprint != item.fingerprint
                    && before[i][t].fingerprint != 0;
            let stored = before[i][s];
            let now = after[i][s];
            &&& !hit ==> now == stored
            &&& hit ==> now.fingerprint == item.fingerprint
            &&& hit && stored.fingerprint != item.fingerprint ==> {
                &&& now.lru == item.lru
                &&& now.ttl == item.ttl
                &&& now.counter == item.counter
                &&& now.rest == item.rest
            }
            &&& hit && stored.fingerprint == item.fingerprint ==> {
                &&& now.rest == stored.rest
                &&& match cfg.ttl_field() {
                    Some((_, field)) => now.ttl == item.ttl & field.max(),
                    None => now.ttl == stored.ttl,
                }
                &&& match cfg.lru_field() {
                    Some((lru, field)) => if stored.lru + lru.increment <= field.max() {
                        now.lru == stored.lru + lru.increment
                    } else {
                        now.lru == field.max()
                    },
                    None => now.lru == stored.lru,
                }
                &&& match cfg.counter_field() {
                    Some((counter, field)) => {
                        let sum = stored.counter + counter.change_on_insert;
                        &&& 0 <= sum <= field.max() ==> now.counter == sum
                        &&& sum < 0 ==> now.counter == 0
                        &&& sum > field.max() ==> now.counter == field.max()
                    },
                    None => now.counter == stored.counter,
                }
            }
        }),
{
    let fp = item.fingerprint;
    lemma_two_buckets(cfg, hashes, before, fp, first, second, hash);
    number_laws::law_bucket_holds(before[first as int], fp);
    number_laws::law_bucket_holds(before[second as int], fp);
    number_laws::law_first_match(before[i], fp, true);
    let index = bucket::first_match(before[i], fp, true, 0);
    if index < before[i].len() {
        number_laws::law_bucket_insert(cfg, before[i], item, index);
    }
    if s < index {
        assert(before[i][s].fingerprint != fp);
    } else if s > index {
        assert(before[i][index].fingerprint == fp || before[i][index].fingerprint == 0);
    }
}

/// Inserting an item unless it is present, when a slot of one of its two buckets holds its
/// fingerprint, returns nothing and counts that slot as a lookup does: no fingerprint and no TTL in
/// the filter changes, and only the counters of that slot do.
pub proof fn law_present_item_is_only_counted(
    cfg: CuckooConfiguration,
    hashes: spec_fn(u32, u64) -> bool,
    before: Seq<Seq<SlotView>>,
    item: SlotView,
    first: u32,
    second: u32,
    hash: u64,
    after: Seq<Seq<SlotView>>,
    evicted: Option<u32>,
    i: int,
    s: int,
)
    requires
        cfg.shapes(before),
        first & cfg.mask() == first,
        hashes(item.fingerprint, hash),
        forall|h: u64| #[trigger] hashes(item.fingerprint, h) ==> h == hash,
        second == (first ^ ((hash as u32) & cfg.mask())) & cfg.mask(),
        cfg.inserts_if_not_present(hashes, before, item, first, after, evicted),
        0 <= i < before.len(),
        0 <= s < before[i].len(),
        exists|p: u32, t: int|
            (p == first || p == second) && 0 <= t < before[p as int].len()
                && #[trigger] before[p as int][t].fingerprint == item.fingerprint,
    ensures
        evicted is None,
        after.len() == before.len(),
        after[i].len() == before[i].len(),
        ({
            let in_first = exists|t: int|
                0 <= t < before[first as int].len() && #[trigger] before[first as int][t].fingerprint
                    == item.fingerprint;
            let hit = (i == first || (i == second && !in_first)) && before[i][s].fingerprint
                == item.fingerprint && forall|t: int|
                0 <= t < s ==> #[trigger] before[i][t].fingerprint != item.fingerprint;
            let stored = before[i][s];
            let now = after[i][s];
            &&& now.fingerprint == stored.fingerprint
            &&& now.ttl == stored.ttl
            &&& now.rest == stored.rest
            &&& !hit ==> now == stored
            &&& hit ==> match cfg.lru_field() {
                Some((lru, field)) => if stored.lru + lru.increment <= field.max() {
                    now.lru == stored.lru + lru.increment
                } else {
                    now.lru == field.max()
                },
                None => now.lru == stored.lru,
            }
            &&& hit ==> match cfg.counter_field() {
                Some((counter, field)) => {
                    let sum = stored.counter + counter.change_on_lookup;
                    &&& 0 <= sum <= field.max() ==> now.counter == sum
                    &&& sum < 0 ==> now.counter == 0
                    &&& sum > field.max() ==> now.counter == field.max()
                },
                None => now.counter == stored.counter,
            }
        }),
{
    let fp = item.fingerprint;
    lemma_two_buckets(cfg, hashes, before, fp, first, second, hash);
    number_laws::law_bucket_holds(before[first as int], fp);
    number_laws::law_bucket_holds(before[second as int], fp);
    number_laws::law_first_match(before[i], fp, false);
    let index = bucket::first_match(before[i], fp, false, 0);
    if index < before[i].len() {
        number_laws::law_bucket_lookup(
            cfg,
            before[i],
            fp,
            placement::plain_lookup(),
            index,
        );
    }
    if s < index {
        assert(before[i][s].fingerprint != fp);
    } else if s > index {
        assert(before[i][index].fingerprint == fp);
    }
}

/// Inserting an item unless it is present, when no slot of its two buckets holds its fingerprint but
/// one is empty, evicts nothing. The first empty slot, in the first bucket if there is one, holds the
/// numbers of the item then. Nothing else in the filter changes.
pub proof fn law_absent_item_takes_an_empty_slot(
    cfg: CuckooConfiguration,
    hashes: spec_fn(u32, u64) -> bool,
    before: Seq<Seq<SlotView>>,
    item: SlotView,
    first: u32,
    second: u32,
    hash: u64,
    after: Seq<Seq<SlotView>>,
    evicted: Option<u32>,
    i: int,
    s: int,
)
    requires
        cfg.shapes(before),
        first & cfg.mask() == first,
        hashes(item.fingerprint, hash),
        forall|h: u64| #[trigger] hashes(item.fingerprint, h) ==> h == hash,
        second == (first ^ ((hash as u32) & cfg.mask())) & cfg.mask(),
        cfg.inserts_if_not_present(hashes, before, item, first, after, evicted),
        0 <= i < before.len(),
        0 <= s < before[i].len(),
        forall|p: u32, t: int|
            (p == first || p == second) && 0 <= t < before[p as int].len()
                ==> #[trigger] before[p as int][t].fingerprint != item.fingerprint,
        exists|p: u32, t: int|
            (p == first || p == second) && 0 <= t < before[p as int].len()
                && #[trigger] before[p as int][t].fingerprint == 0,
    ensures
        evicted is None,
        after.len() == before.len(),
        after[i].len() == before[i].len(),
        ({
            let room_in_first = exists|t: int|
                0 <= t < before[first as int].len() && #[trigger] before[first as int][t].fingerprint
                    == 0;
            let hit = (i == first || (i == second && !room_in_first)) && before[i][s].fingerprint
                == 0 && forall|t: int|
                0 <= t < s ==> #[trigger] before[i][t].fingerprint != 0;
            let now = after[i][s];
            &&& !hit ==> now == before[i][s]
            &&& hit ==> {
                &&& now.fingerprint == item.fingerprint
                &&& now.lru == item.lru
                &&& now.ttl == item.ttl
                &&& now.counter == item.counter
                &&& now.rest == item.rest
            }
        }),
{
    let fp = item.fingerprint;
    lemma_two_buckets(cfg, hashes, before, fp, first, second, hash);
    number_laws::law_bucket_holds(before[first as int], fp);
    number_laws::law_bucket_holds(before[second as int], fp);
    number_laws::law_first_match(before[i], fp, true);
    let index = bucket::first_match(before[i], fp, true, 0);
    assert(forall|t: int|
        0 <= t < before[first as int].len() ==> #[trigger] before[first as int][t].fingerprint
            != fp);
    assert(forall|t: int|
        0 <= t < before[second as int].len() ==> #[trigger] before[second as int][t].fingerprint
            != fp);
    if index < before[i].len() {
        number_laws::law_bucket_insert(cfg, before[i], item, index);
    }
    if s < index {
        assert(before[i][s].fingerprint != fp);
    } else if s > index {
        assert(before[i][index].fingerprint == fp || before[i][index].fingerprint == 0);
    }
}

/// Lookups add up: the slot that the first of them counts has an LRU counter that is higher by the
/// increment for every lookup, up to the largest value of the counter.
pub proof fn law_lookups_add_up(
    cfg: CuckooConfiguration,
    hashes: spec_fn(u32, u64) -> bool,
    stages: Seq<Seq<Seq<SlotView>>>,
    fingerprint: u32,
    first: u32,
    second: u32,
    hash: u64,
    updates: Seq<LookupValues>,
    found_in: Seq<Option<u32>>,
    s: int,
    n: int,
)
    requires
        0 <= n < stages.len(),
        updates.len() == stages.len(),
        found_in.len() == stages.len(),
        cfg.shapes(stages[0]),
        first & cfg.mask() == first,
        hashes(fingerprint, hash),
        forall|h: u64| #[trigger] hashes(fingerprint, h) ==> h == hash,
        second == (first ^ ((hash as u32) & cfg.mask())) & cfg.mask(),
        forall|k: int|
            0 < k < stages.len() ==> cfg.looks_up(
                hashes,
                stages[k - 1],
                fingerprint,
                first,
                updates[k],
                #[trigger] stages[k],
                found_in[k],
            ),
        0 <= s < stages[0][first as int].len(),
        stages[0][first as int][s].fingerprint == fingerprint,
        forall|t: int|
            0 <= t < s ==> #[trigger] stages[0][first as int][t].fingerprint != fingerprint,
        cfg.lru_field() is Some,
        stages[0][first as int][s].lru <= cfg.lru_field()->Some_0.1.max(),
    ensures
        ({
            let increment = cfg.lru_field()->Some_0.0.increment;
            let max = cfg.lru_field()->Some_0.1.max();
            let raised = stages[0][first as int][s].lru + n * increment;
            stages[n][first as int][s].lru == (if raised <= max {
                raised
            } else {
                max as int
            })
        }),
{
    lemma_lookups_add_up(
        cfg,
        hashes,
        stages,
        fingerprint,
        first,
        second,
        hash,
        updates,
        found_in,
        s,
        n,
    );
}

proof fn lemma_lookups_add_up(
    cfg: CuckooConfiguration,
    hashes: spec_fn(u32, u64) -> bool,
    stages: Seq<Seq<Seq<SlotView>>>,
    fingerprint: u32,
    first: u32,
    second: u32,
    hash: u64,
    updates: Seq<LookupValues>,
    found_in: Seq<Option<u32>>,
    s: int,
    n: int,
)
    requires
        0 <= n < stages.len(),
        cfg.shapes(stages[0]),
        first & cfg.mask() == first,
        hashes(fingerprint, hash),
        forall|h: u64| #[trigger] hashes(fingerprint, h) ==> h == hash,
        second == (first ^ ((hash as u32) & cfg.mask())) & cfg.mask(),
        forall|k: int|
            0 < k < stages.len() ==> cfg.looks_up(
                hashes,
                stages[k - 1],
                fingerprint,
                first,
                updates[k],
                #[trigger] stages[k],
                found_in[k],
            ),
        0 <= s < stages[0][first as int].len(),
        stages[0][first as int][s].fingerprint == fingerprint,
        forall|t: int|
            0 <= t < s ==> #[trigger] stages[0][first as int][t].fingerprint != fingerprint,
        cfg.lru_field() is Some,
        stages[0][first as int][s].lru <= cfg.lru_field()->Some_0.1.max(),
    ensures
        cfg.shapes(stages[n]),
        stages[n][first as int][s].fingerprint == fingerprint,
        forall|t: int|
            0 <= t < s ==> #[trigger] stages[n][first as int][t].fingerprint != fingerprint,
        ({
            let increment = cfg.lru_field()->Some_0.0.increment;
            let max = cfg.lru_field()->Some_0.1.max();
            let raised = stages[0][first as int][s].lru + n * increment;
            stages[n][first as int][s].lru == (if raised <= max {
                raised
            } else {
                max as int
            })
        }),
    decreases n,
{
    laws::lemma_index_in_range(cfg, stages[0], first);
    let increment = cfg.lru_field()->Some_0.0.increment;
    assert(0 * increment == 0) by (nonlinear_arith);
    if n > 0 {
        lemma_lookups_add_up(
            cfg,
            hashes,
            stages,
            fingerprint,
            first,
            second,
            hash,
            updates,
            found_in,
            s,
            n - 1,
        );
        let before = stages[n - 1];
        let after = stages[n];
        assert(n * increment == (n - 1) * increment + increment) by (nonlinear_arith);
        assert(0 <= (n - 1) * increment) by (nonlinear_arith)
            requires
                n > 0,
                increment >= 0,
        ;
        assert(cfg.looks_up(hashes, before, fingerprint, first, updates[n], after, found_in[n]));
        assert forall|i: int, t: int| 0 <= i < before.len() && 0 <= t < before[i].len() implies (
        #[trigger] after[i][t]).fingerprint == before[i][t].fingerprint && after.len()
            == before.len() && after[i].len() == before[i].len() by {
            law_lookup_effect(
                cfg,
                hashes,
                before,
                fingerprint,
                first,
                second,
                hash,
                updates[n],
                after,
                found_in[n],
                i,
                t,
            );
        }
        law_lookup_effect(
            cfg,
            hashes,
            before,
            fingerprint,
            first,
            second,
            hash,
            updates[n],
            after,
            found_in[n],
            first as int,
            s,
        );
        assert forall|i: int| 0 <= i < after.len() implies #[trigger] after[i].len()
            == cfg.slot_count() by {
            law_lookup_effect(
                cfg,
                hashes,
                before,
                fingerprint,
                first,
                second,
                hash,
                updates[n],
                after,
                found_in[n],
                i,
                0,
            );
        }
        assert forall|t: int| 0 <= t < s implies #[trigger] after[first as int][t].fingerprint
            != fingerprint by {
            assert(before[first as int][t].fingerprint != fingerprint);
        }
    }
}

/// What an LRU scan of the filter does to every slot: the LRU counter is halved, rounded down, or
/// lowered by the decrement. A slot is emptied if its counter gets 0 and the configuration asks for
/// that. Nothing else changes.
pub proof fn law_lru_scan_effect<H: BuildHasher>(
    before: CuckooFilter<H>,
    after: CuckooFilter<H>,
    i: int,
    s: int,
)
    requires
        before.scans_lru(&after),
        0 <= i < before@.len(),
        0 <= s < before@[i].len(),
    ensures
        after@.len() == before@.len(),
        after@[i].len() == before@[i].len(),
        ({
            let stored = before@[i][s];
            let now = after@[i][s];
            match before.config().lru_field() {
                None => now == stored,
                Some((lru, _)) => {
                    let gone = match lru.aging_strategy {
                        LruAgingStrategy::Halving => stored.lru < 2,
                        LruAgingStrategy::Decrement(by) => stored.lru <= by,
                    };
                    if lru.remove_on_zero && gone {
                        &&& now.fingerprint == 0
                        &&& now.lru == 0
                        &&& now.ttl == 0
                        &&& now.counter == 0
                        &&& now.rest == 0
                    } else {
                        &&& now.fingerprint == stored.fingerprint
                        &&& now.ttl == stored.ttl
                        &&& now.counter == stored.counter
                        &&& now.rest == stored.rest
                        &&& match lru.aging_strategy {
                            LruAgingStrategy::Halving => 2 * now.lru <= stored.lru < 2 * now.lru
                                + 2,
                            LruAgingStrategy::Decrement(by) => if gone {
                                now.lru == 0
                            } else {
                                now.lru + by == stored.lru
                            },
                        }
                    }
                },
            }
        }),
{
    number_laws::law_scans_age(before.config(), before@[i][s]);
    assert(after@[i][s] == before.config().lru_aged(before@[i][s]));
}

/// What a TTL scan of the filter does to every slot: the TTL of an item gets lower by 1, and its slot
/// is emptied if that makes it 0. Nothing else changes.
pub proof fn law_ttl_scan_effect<H: BuildHasher>(
    before: CuckooFilter<H>,
    after: CuckooFilter<H>,
    i: int,
    s: int,
)
    requires
        before.scans_ttl(&after),
        0 <= i < before@.len(),
        0 <= s < before@[i].len(),
    ensures
        after@.len() == before@.len(),
        after@[i].len() == before@[i].len(),
        ({
            let stored = before@[i][s];
            let now = after@[i][s];
            if before.config().ttl_field() is None || stored.fingerprint == 0 {
                now == stored
            } else if stored.ttl <= 1 {
                &&& now.fingerprint == 0
                &&& now.lru == 0
                &&& now.ttl == 0
                &&& now.counter == 0
                &&& now.rest == 0
            } else {
                &&& now.fingerprint == stored.fingerprint
                &&& now.lru == stored.lru
                &&& now.ttl + 1 == stored.ttl
                &&& now.counter == stored.counter
                &&& now.rest == stored.rest
            }
        }),
{
    number_laws::law_scans_age(before.config(), before@[i][s]);
    assert(after@[i][s] == before.config().ttl_aged(before@[i][s]));
}

/// What a full scan of the filter does to every slot. An item is gone if its TTL was at most 1, or if
/// its LRU counter gets 0 and the configuration asks for that. Any other item stays, with a TTL that
/// is lower by 1 and with an LRU counter that is halved or lowered. The other numbers stay.
pub proof fn law_full_scan_effect<H: BuildHasher>(
    before: CuckooFilter<H>,
    after: CuckooFilter<H>,
    i: int,
    s: int,
)
    requires
        before.scans_full(&after),
        0 <= i < before@.len(),
        0 <= s < before@[i].len(),
        before@[i][s].fingerprint != 0,
    ensures
        after@.len() == before@.len(),
        after@[i].len() == before@[i].len(),
        ({
            let stored = before@[i][s];
            let now = after@[i][s];
            let cfg = before.config();
            let unused = match cfg.lru_field() {
                None => false,
                Some((lru, _)) => lru.remove_on_zero && match lru.aging_strategy {
                    LruAgingStrategy::Halving => stored.lru < 2,
                    LruAgingStrategy::Decrement(by) => stored.lru <= by,
                },
            };
            if unused || (cfg.ttl_field() is Some && stored.ttl <= 1) {
                &&& now.fingerprint == 0
                &&& now.lru == 0
                &&& now.ttl == 0
                &&& now.counter == 0
                &&& now.rest == 0
            } else {
                &&& now.fingerprint == stored.fingerprint
                &&& now.counter == stored.counter
                &&& now.rest == stored.rest
                &&& now.ttl == (if cfg.ttl_field() is Some {
                    stored.ttl - 1
                } else {
                    stored.ttl as int
                })
                &&& match cfg.lru_field() {
                    None => now.lru == stored.lru,
                    Some((lru, _)) => match lru.aging_strategy {
                        LruAgingStrategy::Halving => 2 * now.lru <= stored.lru < 2 * now.lru + 2,
                        LruAgingStrategy::Decrement(by) => if stored.lru <= by {
                            now.lru == 0
                        } else {
                            now.lru + by == stored.lru
                        },
                    },
                }
            }
        }),
{
    let cfg = before.config();
    number_laws::law_scans_age(cfg, before@[i][s]);
    number_laws::law_scans_age(cfg, cfg.lru_aged(before@[i][s]));
    assert(after@[i][s] == cfg.scanned(before@[i][s]));
}

/// A full scan of an empty slot changes nothing but its LRU counter.
pub proof fn law_full_scan_keeps_empty_slots<H: BuildHasher>(
    before: CuckooFilter<H>,
    after: CuckooFilter<H>,
    i: int,
    s: int,
)
    requires
        before.scans_full(&after),
        0 <= i < before@.len(),
        0 <= s < before@[i].len(),
        before@[i][s].fingerprint == 0,
    ensures
        after@[i][s].fingerprint == 0,
        after@[i][s].lru <= before@[i][s].lru,
        after@[i][s].ttl == 0 || after@[i][s].ttl == before@[i][s].ttl,
        after@[i][s].counter == 0 || after@[i][s].counter == before@[i][s].counter,
{
    let cfg = before.config();
    number_laws::law_scans_age(cfg, before@[i][s]);
    number_laws::law_scans_age(cfg, cfg.lru_aged(before@[i][s]));
    assert(after@[i][s] == cfg.scanned(before@[i][s]));
}

} // verus!
