//! What the operations of the filter do to every slot, for the keys that they are called with.
//!
//! Here a key is followed down to the numbers: a hasher gives `hash` for the key, and nothing else.
//! The high half of the hash, cut to the bits of the field, is the fingerprint, except that 1 stands
//! for 0. The low half leads to the first bucket. The hasher gives `other` for the fingerprint, and
//! nothing else, and that leads from the first bucket to the second.
use crate::associated_data::AssociatedData;
use crate::bucket;
use crate::data_block::Fingerprint;
use crate::effect_laws;
use crate::filter;
use crate::filter::CuckooFilter;
use crate::hashing;
use crate::kick_laws;
use crate::kick_laws::KickChain;
use crate::number_laws;
use crate::placement;
use crate::slot::SlotView;
use std::hash::{BuildHasher, Hash};
use vstd::prelude::*;

verus! {

/// What is known of the fingerprint and of the buckets of a key.
proof fn lemma_key<H: BuildHasher, K: Hash + ?Sized>(
    before: CuckooFilter<H>,
    key: &K,
    hash: u64,
    fingerprint: Fingerprint,
    first: u32,
    other: u64,
    second: u32,
)
    requires
        before.wf(),
        hashing::hashes_to(before.hasher(), key, hash),
        forall|h: u64| #[trigger] hashing::hashes_to(before.hasher(), key, h) ==> h == hash,
        ({
            let masked = ((hash >> 32) as u32) & before.config().fingerprint_field().max();
            fingerprint@ == (if masked == 0 {
                1
            } else {
                masked
            })
        }),
        first == (hash as u32) & before.config().mask(),
        hashing::hashes_to(before.hasher(), &fingerprint, other),
        forall|h: u64| #[trigger]
            hashing::hashes_to(before.hasher(), &fingerprint, h) ==> h == other,
        second == (first ^ ((other as u32) & before.config().mask())) & before.config().mask(),
    ensures
        before.config().shapes(before@),
        before.config().hash_fingerprint(hash) == fingerprint@,
        before.config().hash_index(hash) == first,
        first & before.config().mask() == first,
        fingerprint@ != 0,
        before.hashes()(fingerprint@, other),
        forall|h: u64| #[trigger] before.hashes()(fingerprint@, h) ==> h == other,
        before.config().new_slot(fingerprint@, placement::plain_insert()).fingerprint
            == fingerprint@,
{
    before.lemma_shape();
    filter::lemma_masked_index(hash as u32, before.config().mask());
    filter::lemma_own_fingerprint(before.config(), hash);
    assert(fingerprint == Fingerprint { data: fingerprint@ });
    assert forall|h: u64| #[trigger] before.hashes()(fingerprint@, h) implies h == other by {
        assert(hashing::hashes_to(before.hasher(), &fingerprint, h));
    }
}

/// A filter with the same setup has the same configuration and the same hasher, and what is known of an
/// evicted fingerprint is its number.
pub proof fn law_setup<H: BuildHasher>(
    a: CuckooFilter<H>,
    b: CuckooFilter<H>,
    evicted: Option<Fingerprint>,
)
    requires
        a.same_setup(&b),
    ensures
        a.config() == b.config(),
        a.hasher() == b.hasher(),
        evicted matches Some(fingerprint) ==> filter::optional_fingerprint(evicted) == Some(
            fingerprint@,
        ),
        evicted is None ==> filter::optional_fingerprint(evicted) is None,
{
}

/// A number is the fingerprint of a key exactly if it is the high half of the hash, cut to the bits of
/// the field, or 1 if that is 0.
pub proof fn law_key_fingerprint<H: BuildHasher, K: Hash + ?Sized>(
    before: CuckooFilter<H>,
    key: &K,
    hash: u64,
    fingerprint: u32,
)
    requires
        hashing::hashes_to(before.hasher(), key, hash),
        forall|h: u64| #[trigger] hashing::hashes_to(before.hasher(), key, h) ==> h == hash,
    ensures
        before.has_fingerprint(key, fingerprint) <==> ({
            let masked = ((hash >> 32) as u32) & before.config().fingerprint_field().max();
            fingerprint == (if masked == 0 {
                1
            } else {
                masked
            })
        }),
{
    if before.has_fingerprint(key, fingerprint) {
        let h = choose|h: u64| #[trigger]
            hashing::hashes_to(before.hasher(), key, h) && fingerprint
                == before.config().hash_fingerprint(h);
        assert(h == hash);
    }
}

/// The hash of a fingerprint is what the hasher gives for the fingerprint itself.
pub proof fn law_fingerprints_are_hashed<H: BuildHasher>(
    filter: CuckooFilter<H>,
    fingerprint: Fingerprint,
    hash: u64,
)
    ensures
        filter.hashes()(fingerprint@, hash) <==> hashing::hashes_to(
            filter.hasher(),
            &fingerprint,
            hash,
        ),
{
    assert(fingerprint == Fingerprint { data: fingerprint@ });
}

/// A lookup finds a key exactly if a slot of one of its two buckets holds its fingerprint. It counts
/// the first such slot, in the first bucket if there is one: the LRU counter grows by the increment
/// up to its largest value, the generic counter changes by what the configuration says for lookups.
/// Nothing else in the filter changes, and no TTL does.
pub proof fn law_key_lookup_effect<H: BuildHasher, K: Hash + ?Sized>(
    before: CuckooFilter<H>,
    key: &K,
    hash: u64,
    fingerprint: Fingerprint,
    first: u32,
    other: u64,
    second: u32,
    after: CuckooFilter<H>,
    found: bool,
    i: int,
    s: int,
)
    requires
        before.wf(),
        hashing::hashes_to(before.hasher(), key, hash),
        forall|h: u64| #[trigger] hashing::hashes_to(before.hasher(), key, h) ==> h == hash,
        ({
            let masked = ((hash >> 32) as u32) & before.config().fingerprint_field().max();
            fingerprint@ == (if masked == 0 {
                1
            } else {
                masked
            })
        }),
        first == (hash as u32) & before.config().mask(),
        hashing::hashes_to(before.hasher(), &fingerprint, other),
        forall|h: u64| #[trigger]
            hashing::hashes_to(before.hasher(), &fingerprint, h) ==> h == other,
        second == (first ^ ((other as u32) & before.config().mask())) & before.config().mask(),
        before.looks_up_key(key, &after, found),
        0 <= i < before@.len(),
        0 <= s < before@[i].len(),
    ensures
        after@.len() == before@.len(),
        after@[i].len() == before@[i].len(),
        ({
            let cfg = before.config();
            let in_first = exists|t: int|
                0 <= t < before@[first as int].len()
                    && #[trigger] before@[first as int][t].fingerprint == fingerprint@;
            let in_second = exists|t: int|
                0 <= t < before@[second as int].len()
                    && #[trigger] before@[second as int][t].fingerprint == fingerprint@;
            let hit = (i == first || (i == second && !in_first)) && before@[i][s].fingerprint
                == fingerprint@ && forall|t: int|
                0 <= t < s ==> #[trigger] before@[i][t].fingerprint != fingerprint@;
            let stored = before@[i][s];
            let now = after@[i][s];
            &&& found == (in_first || in_second)
            &&& now.fingerprint == stored.fingerprint
            &&& now.ttl == stored.ttl
            &&& now.rest == stored.rest
            &&& !hit ==> now == stored
            &&& hit ==> {
                &&& match cfg.lru_field() {
                    Some((lru, field)) => if stored.lru + lru.increment <= field.max() {
                        now.lru == stored.lru + lru.increment
                    } else {
                        now.lru == field.max()
                    },
                    None => now.lru == stored.lru,
                }
                &&& match cfg.counter_field() {
                    Some((counter, field)) => {
                        let sum = stored.counter + counter.change_on_lookup;
                        &&& 0 <= sum <= field.max() ==> now.counter == sum
                        &&& sum < 0 ==> now.counter == 0
                        &&& sum > field.max() ==> now.counter == field.max()
                    },
                    None => now.counter == stored.counter,
                }
            }
        }),
{
    lemma_key(before, key, hash, fingerprint, first, other, second);
    let (h, found_in) = choose|h: u64, found_in: Option<u32>| #[trigger]
        before.looks_up_hash(key, &after, h, found_in) && found == found_in is Some;
    assert(h == hash);
    effect_laws::law_lookup_effect(
        before.config(),
        before.hashes(),
        before@,
        fingerprint@,
        first,
        second,
        other,
        placement::plain_lookup(),
        after@,
        found_in,
        i,
        s,
    );
}

/// Loading the data of a key gives data exactly if a slot of one of its two buckets holds its
/// fingerprint. It is the data of the first such slot, in the first bucket if there is one: the LRU
/// counter and the TTL are as they were before, the generic counter has changed by what the
/// configuration says for lookups.
pub proof fn law_key_data<H: BuildHasher, K: Hash + ?Sized>(
    before: CuckooFilter<H>,
    key: &K,
    hash: u64,
    fingerprint: Fingerprint,
    first: u32,
    other: u64,
    second: u32,
    after: CuckooFilter<H>,
    data: Option<AssociatedData>,
)
    requires
        before.wf(),
        hashing::hashes_to(before.hasher(), key, hash),
        forall|h: u64| #[trigger] hashing::hashes_to(before.hasher(), key, h) ==> h == hash,
        ({
            let masked = ((hash >> 32) as u32) & before.config().fingerprint_field().max();
            fingerprint@ == (if masked == 0 {
                1
            } else {
                masked
            })
        }),
        first == (hash as u32) & before.config().mask(),
        hashing::hashes_to(before.hasher(), &fingerprint, other),
        forall|h: u64| #[trigger]
            hashing::hashes_to(before.hasher(), &fingerprint, h) ==> h == other,
        second == (first ^ ((other as u32) & before.config().mask())) & before.config().mask(),
        exists|h: u64, found_in: Option<u32>|
            #![trigger before.looks_up_hash(key, &after, h, found_in)]
            before.looks_up_hash(key, &after, h, found_in) && before.gives_data(
                before.config().hash_fingerprint(h),
                found_in,
                placement::plain_lookup(),
                data,
            ),
    ensures
        data is Some <==> exists|p: u32, t: int|
            (p == first || p == second) && 0 <= t < before@[p as int].len()
                && #[trigger] before@[p as int][t].fingerprint == fingerprint@,
        forall|i: int, s: int|
            #![trigger before@[i][s]]
            0 <= i < before@.len() && 0 <= s < before@[i].len() && ({
                let in_first = exists|t: int|
                    0 <= t < before@[first as int].len()
                        && #[trigger] before@[first as int][t].fingerprint == fingerprint@;
                (i == first || (i == second && !in_first)) && before@[i][s].fingerprint
                    == fingerprint@ && forall|t: int|
                    0 <= t < s ==> #[trigger] before@[i][t].fingerprint != fingerprint@
            }) ==> {
                let cfg = before.config();
                let stored = before@[i][s];
                &&& data matches Some(data) && {
                    let shown = cfg.slot(data.bytes());
                    &&& data.config() == cfg
                    &&& shown.fingerprint == fingerprint@
                    &&& shown.lru == stored.lru
                    &&& shown.ttl == stored.ttl
                    &&& shown.rest == stored.rest
                    &&& match cfg.counter_field() {
                        Some((counter, field)) => {
                            let sum = stored.counter + counter.change_on_lookup;
                            &&& 0 <= sum <= field.max() ==> shown.counter == sum
                            &&& sum < 0 ==> shown.counter == 0
                            &&& sum > field.max() ==> shown.counter == field.max()
                        },
                        None => shown.counter == stored.counter,
                    }
                }
            },
{
    lemma_key(before, key, hash, fingerprint, first, other, second);
    let cfg = before.config();
    let (h, found_in) = choose|h: u64, found_in: Option<u32>|
        #![trigger before.looks_up_hash(key, &after, h, found_in)]
        before.looks_up_hash(key, &after, h, found_in) && before.gives_data(
            cfg.hash_fingerprint(h),
            found_in,
            placement::plain_lookup(),
            data,
        );
    assert(h == hash);
    effect_laws::lemma_two_buckets(
        cfg,
        before.hashes(),
        before@,
        fingerprint@,
        first,
        second,
        other,
    );
    number_laws::law_bucket_holds(before@[first as int], fingerprint@);
    number_laws::law_bucket_holds(before@[second as int], fingerprint@);
    assert forall|i: int, s: int|
        #![trigger before@[i][s]]
        0 <= i < before@.len() && 0 <= s < before@[i].len() && before@[i][s].fingerprint
            == fingerprint@ && (forall|t: int|
            0 <= t < s ==> #[trigger] before@[i][t].fingerprint
                != fingerprint@) implies bucket::first_match(before@[i], fingerprint@, false, 0)
        == s by {
        number_laws::law_first_match(before@[i], fingerprint@, false);
        let index = bucket::first_match(before@[i], fingerprint@, false, 0);
        if index < s {
            assert(before@[i][index].fingerprint != fingerprint@);
        } else if s < index {
            assert(before@[i][s].fingerprint != fingerprint@);
        }
    }
    assert forall|stored: SlotView| #![trigger cfg.accessed(stored, placement::plain_lookup())] {
        let shown = cfg.accessed(stored, placement::plain_lookup());
        &&& shown.fingerprint == stored.fingerprint
        &&& shown.lru == stored.lru
        &&& shown.ttl == stored.ttl
        &&& shown.rest == stored.rest
        &&& match cfg.counter_field() {
            Some((counter, field)) => {
                let sum = stored.counter + counter.change_on_lookup;
                &&& 0 <= sum <= field.max() ==> shown.counter == sum
                &&& sum < 0 ==> shown.counter == 0
                &&& sum > field.max() ==> shown.counter == field.max()
            },
            None => shown.counter == stored.counter,
        }
    } by {
        number_laws::law_lookup_counts(cfg, stored, placement::plain_lookup());
    }
    if data is Some {
        let p = found_in->Some_0;
        let t = bucket::first_match(before@[p as int], fingerprint@, false, 0);
        number_laws::law_first_match(before@[p as int], fingerprint@, false);
        assert(before@[p as int][t].fingerprint == fingerprint@);
    }
}

/// A removal finds a key exactly if a slot of one of its two buckets holds its fingerprint. The first
/// such slot, in the first bucket if there is one, has zeros only then. Nothing else in the filter
/// changes.
pub proof fn law_key_remove_effect<H: BuildHasher, K: Hash + ?Sized>(
    before: CuckooFilter<H>,
    key: &K,
    hash: u64,
    fingerprint: Fingerprint,
    first: u32,
    other: u64,
    second: u32,
    after: CuckooFilter<H>,
    found: bool,
    i: int,
    s: int,
)
    requires
        before.wf(),
        hashing::hashes_to(before.hasher(), key, hash),
        forall|h: u64| #[trigger] hashing::hashes_to(before.hasher(), key, h) ==> h == hash,
        ({
            let masked = ((hash >> 32) as u32) & before.config().fingerprint_field().max();
            fingerprint@ == (if masked == 0 {
                1
            } else {
                masked
            })
        }),
        first == (hash as u32) & before.config().mask(),
        hashing::hashes_to(before.hasher(), &fingerprint, other),
        forall|h: u64| #[trigger]
            hashing::hashes_to(before.hasher(), &fingerprint, h) ==> h == other,
        second == (first ^ ((other as u32) & before.config().mask())) & before.config().mask(),
        before.removes_key(key, &after, found),
        0 <= i < before@.len(),
        0 <= s < before@[i].len(),
    ensures
        after@.len() == before@.len(),
        after@[i].len() == before@[i].len(),
        ({
            let in_first = exists|t: int|
                0 <= t < before@[first as int].len()
                    && #[trigger] before@[first as int][t].fingerprint == fingerprint@;
            let in_second = exists|t: int|
                0 <= t < before@[second as int].len()
                    && #[trigger] before@[second as int][t].fingerprint == fingerprint@;
            let hit = (i == first || (i == second && !in_first)) && before@[i][s].fingerprint
                == fingerprint@ && forall|t: int|
                0 <= t < s ==> #[trigger] before@[i][t].fingerprint != fingerprint@;
            let now = after@[i][s];
            &&& found == (in_first || in_second)
            &&& !hit ==> now == before@[i][s]
            &&& hit ==> {
                &&& now.fingerprint == 0
                &&& now.lru == 0
                &&& now.ttl == 0
                &&& now.counter == 0
                &&& now.rest == 0
            }
        }),
{
    lemma_key(before, key, hash, fingerprint, first, other, second);
    let cfg = before.config();
    let h = choose|h: u64| #[trigger]
        hashing::hashes_to(before.hasher(), key, h) && cfg.removes(
            before.hashes(),
            before@,
            cfg.hash_fingerprint(h),
            cfg.hash_index(h),
            after@,
            found,
        );
    assert(h == hash);
    effect_laws::law_remove_effect(
        cfg,
        before.hashes(),
        before@,
        fingerprint@,
        first,
        second,
        other,
        after@,
        found,
        i,
        s,
    );
}

/// The item that a key is inserted as: its LRU counter starts with the starting value, its TTL with
/// the default one, and its generic counter with the change on insertions.
proof fn lemma_new_item<H: BuildHasher, K: Hash + ?Sized>(
    before: CuckooFilter<H>,
    key: &K,
    hash: u64,
    fingerprint: Fingerprint,
    first: u32,
    other: u64,
    second: u32,
)
    requires
        before.wf(),
        hashing::hashes_to(before.hasher(), key, hash),
        forall|h: u64| #[trigger] hashing::hashes_to(before.hasher(), key, h) ==> h == hash,
        ({
            let masked = ((hash >> 32) as u32) & before.config().fingerprint_field().max();
            fingerprint@ == (if masked == 0 {
                1
            } else {
                masked
            })
        }),
        first == (hash as u32) & before.config().mask(),
        hashing::hashes_to(before.hasher(), &fingerprint, other),
        forall|h: u64| #[trigger]
            hashing::hashes_to(before.hasher(), &fingerprint, h) ==> h == other,
        second == (first ^ ((other as u32) & before.config().mask())) & before.config().mask(),
    ensures
        ({
            let cfg = before.config();
            let item = cfg.new_slot(fingerprint@, placement::plain_insert());
            &&& item.fingerprint == fingerprint@
            &&& item.rest == 0
            &&& match cfg.lru_field() {
                Some((lru, field)) => if lru.starting_value <= field.max() {
                    item.lru == lru.starting_value
                } else {
                    item.lru == field.max()
                },
                None => item.lru == 0,
            }
            &&& match cfg.ttl_field() {
                Some((ttl, field)) => item.ttl == ttl.ttl@ & field.max(),
                None => item.ttl == 0,
            }
            &&& match cfg.counter_field() {
                Some((counter, field)) => {
                    let start = counter.change_on_insert;
                    &&& 0 <= start <= field.max() ==> item.counter == start
                    &&& start < 0 ==> item.counter == 0
                    &&& start > field.max() ==> item.counter == field.max()
                },
                None => item.counter == 0,
            }
        }),
{
    lemma_key(before, key, hash, fingerprint, first, other, second);
    number_laws::law_new_item_numbers(before.config(), fingerprint@, placement::plain_insert());
}

/// The insertion of a key, as that of an item.
proof fn lemma_insertion<H: BuildHasher, K: Hash + ?Sized>(
    before: CuckooFilter<H>,
    key: &K,
    hash: u64,
    fingerprint: Fingerprint,
    first: u32,
    other: u64,
    second: u32,
    unless_present: bool,
    after: CuckooFilter<H>,
    evicted: Option<u32>,
)
    requires
        before.wf(),
        hashing::hashes_to(before.hasher(), key, hash),
        forall|h: u64| #[trigger] hashing::hashes_to(before.hasher(), key, h) ==> h == hash,
        ({
            let masked = ((hash >> 32) as u32) & before.config().fingerprint_field().max();
            fingerprint@ == (if masked == 0 {
                1
            } else {
                masked
            })
        }),
        first == (hash as u32) & before.config().mask(),
        hashing::hashes_to(before.hasher(), &fingerprint, other),
        forall|h: u64| #[trigger]
            hashing::hashes_to(before.hasher(), &fingerprint, h) ==> h == other,
        second == (first ^ ((other as u32) & before.config().mask())) & before.config().mask(),
        !unless_present ==> before.inserts_key(key, &after, evicted),
        unless_present ==> before.inserts_key_if_not_present(key, &after, evicted),
    ensures
        ({
            let cfg = before.config();
            let item = cfg.new_slot(fingerprint@, placement::plain_insert());
            &&& !unless_present ==> cfg.inserts(
                before.hashes(),
                before@,
                item,
                first,
                after@,
                evicted,
            )
            &&& unless_present ==> cfg.inserts_if_not_present(
                before.hashes(),
                before@,
                item,
                first,
                after@,
                evicted,
            )
        }),
{
    lemma_key(before, key, hash, fingerprint, first, other, second);
    let cfg = before.config();
    let h = choose|h: u64| #[trigger]
        hashing::hashes_to(before.hasher(), key, h) && (if unless_present {
            cfg.inserts_if_not_present(
                before.hashes(),
                before@,
                cfg.new_slot(cfg.hash_fingerprint(h), placement::plain_insert()),
                cfg.hash_index(h),
                after@,
                evicted,
            )
        } else {
            cfg.inserts(
                before.hashes(),
                before@,
                cfg.new_slot(cfg.hash_fingerprint(h), placement::plain_insert()),
                cfg.hash_index(h),
                after@,
                evicted,
            )
        });
    assert(h == hash);
}

/// An insertion of a key whose first or second bucket has an empty slot, or a slot that holds its
/// fingerprint, evicts nothing. The first such slot, in the first bucket if there is one, takes the
/// item. If it was empty, its LRU counter starts with the starting value, its TTL with the default
/// one, and its generic counter with the change on insertions. If it held the fingerprint, its TTL is
/// the default one again, whatever it was before, the LRU counter grows by the increment up to its
/// largest value, and the generic counter changes by what the configuration says for insertions.
/// Nothing else in the filter changes.
pub proof fn law_key_insert_effect<H: BuildHasher, K: Hash + ?Sized>(
    before: CuckooFilter<H>,
    key: &K,
    hash: u64,
    fingerprint: Fingerprint,
    first: u32,
    other: u64,
    second: u32,
    after: CuckooFilter<H>,
    evicted: Option<u32>,
    i: int,
    s: int,
)
    requires
        before.wf(),
        hashing::hashes_to(before.hasher(), key, hash),
        forall|h: u64| #[trigger] hashing::hashes_to(before.hasher(), key, h) ==> h == hash,
        ({
            let masked = ((hash >> 32) as u32) & before.config().fingerprint_field().max();
            fingerprint@ == (if masked == 0 {
                1
            } else {
                masked
            })
        }),
        first == (hash as u32) & before.config().mask(),
        hashing::hashes_to(before.hasher(), &fingerprint, other),
        forall|h: u64| #[trigger]
            hashing::hashes_to(before.hasher(), &fingerprint, h) ==> h == other,
        second == (first ^ ((other as u32) & before.config().mask())) & before.config().mask(),
        before.inserts_key(key, &after, evicted),
        0 <= i < before@.len(),
        0 <= s < before@[i].len(),
        exists|p: u32, t: int|
            (p == first || p == second) && 0 <= t < before@[p as int].len() && (
            #[trigger] before@[p as int][t].fingerprint == fingerprint@
                || before@[p as int][t].fingerprint == 0),
    ensures
        evicted is None,
        after@.len() == before@.len(),
        after@[i].len() == before@[i].len(),
        ({
            let cfg = before.config();
            let room_in_first = exists|t: int|
                0 <= t < before@[first as int].len() && (
                #[trigger] before@[first as int][t].fingerprint == fingerprint@
                    || before@[first as int][t].fingerprint == 0);
            let hit = (i == first || (i == second && !room_in_first)) && (before@[i][s].fingerprint
                == fingerprint@ || before@[i][s].fingerprint == 0) && forall|t: int|
                0 <= t < s ==> #[trigger] before@[i][t].fingerprint != fingerprint@
                    && before@[i][t].fingerprint != 0;
            let stored = before@[i][s];
            let now = after@[i][s];
            &&& !hit ==> now == stored
            &&& hit && stored.fingerprint == 0 ==> {
                &&& now.fingerprint == fingerprint@
                &&& now.rest == 0
                &&& match cfg.lru_field() {
                    Some((lru, field)) => if lru.starting_value <= field.max() {
                        now.lru == lru.starting_value
                    } else {
                        now.lru == field.max()
                    },
                    None => now.lru == 0,
                }
                &&& match cfg.ttl_field() {
                    Some((ttl, field)) => now.ttl == ttl.ttl@ & field.max(),
                    None => now.ttl == 0,
                }
                &&& match cfg.counter_field() {
                    Some((counter, field)) => {
                        let start = counter.change_on_insert;
                        &&& 0 <= start <= field.max() ==> now.counter == start
                        &&& start < 0 ==> now.counter == 0
                        &&& start > field.max() ==> now.counter == field.max()
                    },
                    None => now.counter == 0,
                }
            }
            &&& hit && stored.fingerprint == fingerprint@ ==> {
                &&& now.fingerprint == fingerprint@
                &&& now.rest == stored.rest
                &&& match cfg.ttl_field() {
                    Some((ttl, field)) => now.ttl == ttl.ttl@ & field.max(),
                    None => now.ttl == stored.ttl,
                }
                &&& match cfg.lru_field() {
                    Some((lru, field)) => if stored.lru + lru.increment <= field.max() {
                        now.lru == stored.lru + lru.increment
                    } else {
                        now.lru == field.max()
                    },
                    None => now.lru == stored.lru,
                }
                &&& match cfg.counter_field() {
                    Some((counter, field)) => {
                        let sum = stored.counter + counter.change_on_insert;
                        &&& 0 <= sum <= field.max() ==> now.counter == sum
                        &&& sum < 0 ==> now.counter == 0
                        &&& sum > field.max() ==> now.counter == field.max()
                    },
                    None => now.counter == stored.counter,
                }
            }
        }),
{
    lemma_key(before, key, hash, fingerprint, first, other, second);
    lemma_new_item(before, key, hash, fingerprint, first, other, second);
    lemma_insertion(
        before,
        key,
        hash,
        fingerprint,
        first,
        other,
        second,
        false,
        after,
        evicted,
    );
    let cfg = before.config();
    effect_laws::law_insert_effect(
        cfg,
        before.hashes(),
        before@,
        cfg.new_slot(fingerprint@, placement::plain_insert()),
        first,
        second,
        other,
        after@,
        evicted,
        i,
        s,
    );
    if let Some((ttl, field)) = cfg.ttl_field() {
        filter::lemma_masked_index(ttl.ttl@, field.max());
    }
}

/// Inserting a key unless it is present, when a slot of one of its two buckets holds its fingerprint,
/// returns nothing and counts that slot as a lookup does: no fingerprint and no TTL in the filter
/// changes, and only the counters of that slot do.
pub proof fn law_present_key_is_only_counted<H: BuildHasher, K: Hash + ?Sized>(
    before: CuckooFilter<H>,
    key: &K,
    hash: u64,
    fingerprint: Fingerprint,
    first: u32,
    other: u64,
    second: u32,
    after: CuckooFilter<H>,
    evicted: Option<u32>,
    i: int,
    s: int,
)
    requires
        before.wf(),
        hashing::hashes_to(before.hasher(), key, hash),
        forall|h: u64| #[trigger] hashing::hashes_to(before.hasher(), key, h) ==> h == hash,
        ({
            let masked = ((hash >> 32) as u32) & before.config().fingerprint_field().max();
            fingerprint@ == (if masked == 0 {
                1
            } else {
                masked
            })
        }),
        first == (hash as u32) & before.config().mask(),
        hashing::hashes_to(before.hasher(), &fingerprint, other),
        forall|h: u64| #[trigger]
            hashing::hashes_to(before.hasher(), &fingerprint, h) ==> h == other,
        second == (first ^ ((other as u32) & before.config().mask())) & before.config().mask(),
        before.inserts_key_if_not_present(key, &after, evicted),
        0 <= i < before@.len(),
        0 <= s < before@[i].len(),
        exists|p: u32, t: int|
            (p == first || p == second) && 0 <= t < before@[p as int].len()
                && #[trigger] before@[p as int][t].fingerprint == fingerprint@,
    ensures
        evicted is None,
        after@.len() == before@.len(),
        after@[i].len() == before@[i].len(),
        ({
            let cfg = before.config();
            let in_first = exists|t: int|
                0 <= t < before@[first as int].len()
                    && #[trigger] before@[first as int][t].fingerprint == fingerprint@;
            let hit = (i == first || (i == second && !in_first)) && before@[i][s].fingerprint
                == fingerprint@ && forall|t: int|
                0 <= t < s ==> #[trigger] before@[i][t].fingerprint != fingerprint@;
            let stored = before@[i][s];
            let now = after@[i][s];
            &&& now.fingerprint == stored.fingerprint
            &&& now.ttl == stored.ttl
            &&& now.rest == stored.rest
            &&& !hit ==> now == stored
            &&& hit ==> {
                &&& match cfg.lru_field() {
                    Some((lru, field)) => if stored.lru + lru.increment <= field.max() {
                        now.lru == stored.lru + lru.increment
                    } else {
                        now.lru == field.max()
                    },
                    None => now.lru == stored.lru,
                }
                &&& match cfg.counter_field() {
                    Some((counter, field)) => {
                        let sum = stored.counter + counter.change_on_lookup;
                        &&& 0 <= sum <= field.max() ==> now.counter == sum
                        &&& sum < 0 ==> now.counter == 0
                        &&& sum > field.max() ==> now.counter == field.max()
                    },
                    None => now.counter == stored.counter,
                }
            }
        }),
{
    lemma_key(before, key, hash, fingerprint, first, other, second);
    lemma_insertion(
        before,
        key,
        hash,
        fingerprint,
        first,
        other,
        second,
        true,
        after,
        evicted,
    );
    let cfg = before.config();
    effect_laws::law_present_item_is_only_counted(
        cfg,
        before.hashes(),
        before@,
        cfg.new_slot(fingerprint@, placement::plain_insert()),
        first,
        second,
        other,
        after@,
        evicted,
        i,
        s,
    );
}

/// Inserting a key unless it is present, when no slot of its two buckets holds its fingerprint but one
/// is empty, evicts nothing. The first empty slot, in the first bucket if there is one, takes the key:
/// its LRU counter starts with the starting value, its TTL with the default one, and its generic
/// counter with the change on insertions. Nothing else in the filter changes.
pub proof fn law_absent_key_takes_an_empty_slot<H: BuildHasher, K: Hash + ?Sized>(
    before: CuckooFilter<H>,
    key: &K,
    hash: u64,
    fingerprint: Fingerprint,
    first: u32,
    other: u64,
    second: u32,
    after: CuckooFilter<H>,
    evicted: Option<u32>,
    i: int,
    s: int,
)
    requires
        before.wf(),
        hashing::hashes_to(before.hasher(), key, hash),
        forall|h: u64| #[trigger] hashing::hashes_to(before.hasher(), key, h) ==> h == hash,
        ({
            let masked = ((hash >> 32) as u32) & before.config().fingerprint_field().max();
            fingerprint@ == (if masked == 0 {
                1
            } else {
                masked
            })
        }),
        first == (hash as u32) & before.config().mask(),
        hashing::hashes_to(before.hasher(), &fingerprint, other),
        forall|h: u64| #[trigger]
            hashing::hashes_to(before.hasher(), &fingerprint, h) ==> h == other,
        second == (first ^ ((other as u32) & before.config().mask())) & before.config().mask(),
        before.inserts_key_if_not_present(key, &after, evicted),
        0 <= i < before@.len(),
        0 <= s < before@[i].len(),
        forall|p: u32, t: int|
            (p == first || p == second) && 0 <= t < before@[p as int].len()
                ==> #[trigger] before@[p as int][t].fingerprint != fingerprint@,
        exists|p: u32, t: int|
            (p == first || p == second) && 0 <= t < before@[p as int].len()
                && #[trigger] before@[p as int][t].fingerprint == 0,
    ensures
        evicted is None,
        after@.len() == before@.len(),
        after@[i].len() == before@[i].len(),
        ({
            let cfg = before.config();
            let room_in_first = exists|t: int|
                0 <= t < before@[first as int].len()
                    && #[trigger] before@[first as int][t].fingerprint == 0;
            let hit = (i == first || (i == second && !room_in_first)) && before@[i][s].fingerprint
                == 0 && forall|t: int|
                0 <= t < s ==> #[trigger] before@[i][t].fingerprint != 0;
            let now = after@[i][s];
            &&& !hit ==> now == before@[i][s]
            &&& hit ==> {
                &&& now.fingerprint == fingerprint@
                &&& now.rest == 0
                &&& match cfg.lru_field() {
                    Some((lru, field)) => if lru.starting_value <= field.max() {
                        now.lru == lru.starting_value
                    } else {
                        now.lru == field.max()
                    },
                    None => now.lru == 0,
                }
                &&& match cfg.ttl_field() {
                    Some((ttl, field)) => now.ttl == ttl.ttl@ & field.max(),
                    None => now.ttl == 0,
                }
                &&& match cfg.counter_field() {
                    Some((counter, field)) => {
                        let start = counter.change_on_insert;
                        &&& 0 <= start <= field.max() ==> now.counter == start
                        &&& start < 0 ==> now.counter == 0
                        &&& start > field.max() ==> now.counter == field.max()
                    },
                    None => now.counter == 0,
                }
            }
        }),
{
    lemma_key(before, key, hash, fingerprint, first, other, second);
    lemma_new_item(before, key, hash, fingerprint, first, other, second);
    lemma_insertion(
        before,
        key,
        hash,
        fingerprint,
        first,
        other,
        second,
        true,
        after,
        evicted,
    );
    let cfg = before.config();
    effect_laws::law_absent_item_takes_an_empty_slot(
        cfg,
        before.hashes(),
        before@,
        cfg.new_slot(fingerprint@, placement::plain_insert()),
        first,
        second,
        other,
        after@,
        evicted,
        i,
        s,
    );
}

/// An insertion of a key, unless it is present if that is asked for, whose two buckets have neither an
/// empty slot nor one that holds its fingerprint goes through the kicks that
/// [`kick_laws::law_full_buckets_kick`] describes, with an item whose LRU counter starts with the
/// starting value, its TTL with the default one, and its generic counter with the change on
/// insertions. Without kicks it changes nothing and evicts the key itself.
pub proof fn law_key_insert_kicks<H: BuildHasher, K: Hash + ?Sized>(
    before: CuckooFilter<H>,
    key: &K,
    hash: u64,
    fingerprint: Fingerprint,
    first: u32,
    other: u64,
    second: u32,
    unless_present: bool,
    after: CuckooFilter<H>,
    evicted: Option<u32>,
) -> (chain: KickChain)
    requires
        before.wf(),
        hashing::hashes_to(before.hasher(), key, hash),
        forall|h: u64| #[trigger] hashing::hashes_to(before.hasher(), key, h) ==> h == hash,
        ({
            let masked = ((hash >> 32) as u32) & before.config().fingerprint_field().max();
            fingerprint@ == (if masked == 0 {
                1
            } else {
                masked
            })
        }),
        first == (hash as u32) & before.config().mask(),
        hashing::hashes_to(before.hasher(), &fingerprint, other),
        forall|h: u64| #[trigger]
            hashing::hashes_to(before.hasher(), &fingerprint, h) ==> h == other,
        second == (first ^ ((other as u32) & before.config().mask())) & before.config().mask(),
        !unless_present ==> before.inserts_key(key, &after, evicted),
        unless_present ==> before.inserts_key_if_not_present(key, &after, evicted),
        forall|p: u32, t: int|
            (p == first || p == second) && 0 <= t < before@[p as int].len()
                ==> #[trigger] before@[p as int][t].fingerprint != fingerprint@
                && before@[p as int][t].fingerprint != 0,
    ensures
        ({
            let cfg = before.config();
            let n = chain.victims.len() as int;
            let item = chain.items[0];
            &&& n <= cfg.kick_limit()
            &&& chain.states.len() == n + 1
            &&& chain.items.len() == n + 1
            &&& chain.places.len() == n + 1
            &&& chain.states[0] == before@
            &&& chain.places[0] == first || (unless_present && chain.places[0] == second)
            &&& item.fingerprint == fingerprint@
            &&& item.rest == 0
            &&& match cfg.lru_field() {
                Some((lru, field)) => if lru.starting_value <= field.max() {
                    item.lru == lru.starting_value
                } else {
                    item.lru == field.max()
                },
                None => item.lru == 0,
            }
            &&& match cfg.ttl_field() {
                Some((ttl, field)) => item.ttl == ttl.ttl@ & field.max(),
                None => item.ttl == 0,
            }
            &&& match cfg.counter_field() {
                Some((counter, field)) => {
                    let start = counter.change_on_insert;
                    &&& 0 <= start <= field.max() ==> item.counter == start
                    &&& start < 0 ==> item.counter == 0
                    &&& start > field.max() ==> item.counter == field.max()
                },
                None => item.counter == 0,
            }
        }),
        forall|k: int|
            #![trigger chain.victims[k]]
            0 <= k < chain.victims.len() ==> {
                let slots = chain.states[k][chain.places[k] as int];
                let victim = chain.victims[k];
                &&& 0 <= victim < slots.len()
                &&& chain.items[k + 1] == slots[victim]
                &&& chain.states[k + 1] == chain.states[k].update(
                    chain.places[k] as int,
                    slots.update(victim, chain.items[k]),
                )
            },
        before.config().lru_field() is Some ==> forall|k: int, t: int|
            #![trigger chain.victims[k], chain.states[k][chain.places[k] as int][t]]
            0 <= k < chain.victims.len() && 0 <= t
                < chain.states[k][chain.places[k] as int].len() ==> {
                let slots = chain.states[k][chain.places[k] as int];
                let victim = chain.victims[k];
                &&& slots[victim].lru <= slots[t].lru
                &&& t < victim ==> slots[victim].lru < slots[t].lru
                &&& chain.items[k].lru == 0 || slots[victim].lru < chain.items[k].lru
            },
        evicted matches Some(lost) ==> {
            let n = chain.victims.len() as int;
            let last = chain.items[n];
            let slots = chain.states[n][chain.places[n] as int];
            &&& after@ == chain.states[n]
            &&& lost == last.fingerprint
            &&& n == before.config().kick_limit() || (before.config().lru_field() is Some
                && last.lru > 0 && forall|t: int|
                0 <= t < slots.len() ==> #[trigger] slots[t].lru >= last.lru)
        },
        evicted is None ==> chain.victims.len() > 0,
{
    lemma_key(before, key, hash, fingerprint, first, other, second);
    lemma_new_item(before, key, hash, fingerprint, first, other, second);
    lemma_insertion(
        before,
        key,
        hash,
        fingerprint,
        first,
        other,
        second,
        unless_present,
        after,
        evicted,
    );
    let cfg = before.config();
    kick_laws::law_full_buckets_kick(
        cfg,
        before.hashes(),
        before@,
        cfg.new_slot(fingerprint@, placement::plain_insert()),
        first,
        second,
        other,
        unless_present,
        after@,
        evicted,
    )
}

} // verus!
