//! What holds of the filter as a whole, for the keys that are stored in it.
//!
//! The laws are stated over the descriptions that the functions of the filter give of themselves:
//! `inserts_key` describes an insertion, `looks_up_key` a lookup, and so on. They hold for hashers
//! that give the same number for the same key every time.
use crate::bucket;
use crate::config::CuckooConfiguration;
use crate::filter;
use crate::filter::CuckooFilter;
use crate::hashing;
use crate::laws;
use crate::placement;
use crate::slot;
use std::hash::{BuildHasher, Hash};
use vstd::prelude::*;

verus! {

impl<H: BuildHasher> CuckooFilter<H> {
    /// Whether the hasher always gives the same number for the same fingerprint.
    pub open(crate) spec fn is_consistent(&self) -> bool {
        laws::consistent(self.hashes())
    }

    /// Whether the hasher always gives the same number for a key, and for every fingerprint.
    pub open spec fn is_consistent_for<K: Hash + ?Sized>(&self, key: &K) -> bool {
        self.is_consistent() && hashing::hashes_consistently(self.hasher(), key)
    }

    /// Whether the filter contains a key: whether one of the two buckets of the key holds its
    /// fingerprint.
    pub open(crate) spec fn contains_key<K: Hash + ?Sized>(&self, key: &K) -> bool {
        exists|hash: u64| #[trigger]
            hashing::hashes_to(self.hasher(), key, hash) && self.config().has_item(
                self.hashes(),
                self@,
                self.config().hash_fingerprint(hash),
                self.config().hash_index(hash),
            )
    }

    /// Whether no item is stored twice.
    pub open(crate) spec fn no_duplicates(&self) -> bool {
        self.config().no_duplicates(self.hashes(), self@)
    }
}

impl<H: BuildHasher> CuckooFilter<H> {
    /// Whether every slot without a fingerprint is empty in all its numbers. A new filter is, and
    /// every operation keeps it so.
    pub open spec fn is_clean(&self) -> bool {
        laws::all_clean(self@)
    }

    /// Whether one of the two buckets of a key has an empty slot.
    pub open(crate) spec fn has_free_slot<K: Hash + ?Sized>(&self, key: &K) -> bool {
        exists|hash: u64, place: u32, s: int|
            #![trigger hashing::hashes_to(self.hasher(), key, hash), self@[place as int][s]]
            {
                &&& hashing::hashes_to(self.hasher(), key, hash)
                &&& self.config().near(
                    self.hashes(),
                    self.config().hash_fingerprint(hash),
                    self.config().hash_index(hash),
                    place,
                )
                &&& 0 <= s < self@[place as int].len()
                &&& self@[place as int][s].fingerprint == 0
            }
    }
}

/// A hash leads to a fingerprint that is not empty and fits its field, and to a bucket.
proof fn lemma_hash(cfg: CuckooConfiguration, hash: u64)
    requires
        cfg.inv(),
    ensures
        cfg.is_index(cfg.hash_index(hash)),
        cfg.hash_fingerprint(hash) != 0,
        cfg.new_slot(cfg.hash_fingerprint(hash), placement::plain_insert()).fingerprint
            == cfg.hash_fingerprint(hash),
{
    filter::lemma_masked_index(hash as u32, cfg.mask());
    filter::lemma_own_fingerprint(cfg, hash);
}

/// The hash that an insertion has used.
proof fn lemma_insertion<H: BuildHasher, K: Hash + ?Sized>(
    before: CuckooFilter<H>,
    key: &K,
    after: CuckooFilter<H>,
    evicted: Option<u32>,
) -> (hash: u64)
    requires
        before.inserts_key(key, &after, evicted) || before.inserts_key_if_not_present(
            key,
            &after,
            evicted,
        ),
    ensures
        hashing::hashes_to(before.hasher(), key, hash),
        ({
            let cfg = before.config();
            let item = cfg.new_slot(cfg.hash_fingerprint(hash), placement::plain_insert());
            let first = cfg.hash_index(hash);
            cfg.inserts(before.hashes(), before@, item, first, after@, evicted)
                || cfg.inserts_if_not_present(
                before.hashes(),
                before@,
                item,
                first,
                after@,
                evicted,
            )
        }),
{
    let cfg = before.config();
    if before.inserts_key(key, &after, evicted) {
        choose|hash: u64| #[trigger]
            hashing::hashes_to(before.hasher(), key, hash) && cfg.inserts(
                before.hashes(),
                before@,
                cfg.new_slot(cfg.hash_fingerprint(hash), placement::plain_insert()),
                cfg.hash_index(hash),
                after@,
                evicted,
            )
    } else {
        choose|hash: u64| #[trigger]
            hashing::hashes_to(before.hasher(), key, hash) && cfg.inserts_if_not_present(
                before.hashes(),
                before@,
                cfg.new_slot(cfg.hash_fingerprint(hash), placement::plain_insert()),
                cfg.hash_index(hash),
                after@,
                evicted,
            )
    }
}

/// A filter whose slots are all empty contains no key.
proof fn lemma_no_items<H: BuildHasher, K: Hash + ?Sized>(filter: CuckooFilter<H>, key: &K)
    requires
        filter.wf(),
        forall|i: int, j: int|
            0 <= i < filter@.len() && 0 <= j < filter@[i].len() ==> (
            #[trigger] filter@[i][j]).fingerprint == 0,
    ensures
        !filter.contains_key(key),
{
    let cfg = filter.config();
    filter.lemma_shape();
    if filter.contains_key(key) {
        let hash = choose|hash: u64| #[trigger]
            hashing::hashes_to(filter.hasher(), key, hash) && cfg.has_item(
                filter.hashes(),
                filter@,
                cfg.hash_fingerprint(hash),
                cfg.hash_index(hash),
            );
        let fingerprint = cfg.hash_fingerprint(hash);
        lemma_hash(cfg, hash);
        let place = choose|place: u32| #[trigger]
            cfg.near(filter.hashes(), fingerprint, cfg.hash_index(hash), place) && bucket::holds(
                filter@[place as int],
                fingerprint,
            );
        laws::lemma_near_is_index(cfg, filter.hashes(), fingerprint, cfg.hash_index(hash), place);
        laws::lemma_index_in_range(cfg, filter@, place);
        laws::lemma_holds(filter@[place as int], fingerprint);
        let s = choose|s: int|
            0 <= s < filter@[place as int].len() && #[trigger] filter@[place as int][s].fingerprint
                == fingerprint;
        assert(filter@[place as int][s].fingerprint == 0);
    }
}

/// A new filter contains no key, and no duplicates.
pub proof fn law_new_filter_is_empty<H: BuildHasher, K: Hash + ?Sized>(
    filter: CuckooFilter<H>,
    key: &K,
)
    requires
        filter.wf(),
        filter.is_blank(),
    ensures
        !filter.contains_key(key),
        filter.no_duplicates(),
        filter.is_clean(),
{
    let cfg = filter.config();
    filter.lemma_shape();
    lemma_no_items(filter, key);
    assert forall|i: u32, s: int, j: u32, t: int|
        cfg.is_index(i) && cfg.is_index(j) && 0 <= s < filter@[i as int].len() && 0 <= t
            < filter@[j as int].len() implies !#[trigger] cfg.duplicates(
        filter.hashes(),
        filter@,
        i,
        s,
        j,
        t,
    ) by {
        laws::lemma_index_in_range(cfg, filter@, i);
        assert(filter@[i as int][s] == slot::empty_slot());
    }
}

/// A full scan removes every key, if no stored TTL is above 1.
pub proof fn law_scan_removes_expired_keys<H: BuildHasher, K: Hash + ?Sized>(
    before: CuckooFilter<H>,
    after: CuckooFilter<H>,
    key: &K,
)
    requires
        before.wf(),
        after.wf(),
        after.same_setup(&before),
        before.scans_full(&after),
        before.config().ttl_field() is Some,
        forall|i: int, j: int|
            0 <= i < before@.len() && 0 <= j < before@[i].len() ==> (
            #[trigger] before@[i][j]).ttl <= 1,
    ensures
        !after.contains_key(key),
{
    assert forall|i: int, j: int| 0 <= i < after@.len() && 0 <= j < after@[i].len() implies (
    #[trigger] after@[i][j]).fingerprint == 0 by {
        assert(before@[i][j].ttl <= 1);
    }
    lemma_no_items(after, key);
}

/// A lookup finds a key exactly if the filter contains it. If the key is not found, it is
/// definitely not present.
pub proof fn law_lookup_finds_the_key<H: BuildHasher, K: Hash + ?Sized>(
    before: CuckooFilter<H>,
    key: &K,
    after: CuckooFilter<H>,
    found: bool,
)
    requires
        before.wf(),
        before.is_consistent_for(key),
        before.looks_up_key(key, &after, found),
    ensures
        found == before.contains_key(key),
{
    let cfg = before.config();
    let (hash, found_in) = choose|hash: u64, found_in: Option<u32>| #[trigger]
        before.looks_up_hash(key, &after, hash, found_in) && found == found_in is Some;
    laws::law_lookup_finds_what_is_there(
        cfg,
        before.hashes(),
        before@,
        cfg.hash_fingerprint(hash),
        cfg.hash_index(hash),
        placement::plain_lookup(),
        after@,
        found_in,
    );
}

/// A lookup neither adds nor removes keys.
pub proof fn law_lookup_keeps_keys<H: BuildHasher, K: Hash + ?Sized, Q: Hash + ?Sized>(
    before: CuckooFilter<H>,
    key: &K,
    after: CuckooFilter<H>,
    found: bool,
    other: &Q,
)
    requires
        before.wf(),
        after.same_setup(&before),
        before.looks_up_key(key, &after, found),
    ensures
        after.contains_key(other) == before.contains_key(other),
{
    let cfg = before.config();
    before.lemma_shape();
    let (hash, found_in) = choose|hash: u64, found_in: Option<u32>| #[trigger]
        before.looks_up_hash(key, &after, hash, found_in) && found == found_in is Some;
    lemma_hash(cfg, hash);
    assert forall|h: u64| #[trigger] hashing::hashes_to(before.hasher(), other, h) implies cfg.has_item(
        before.hashes(),
        after@,
        cfg.hash_fingerprint(h),
        cfg.hash_index(h),
    ) == cfg.has_item(
        before.hashes(),
        before@,
        cfg.hash_fingerprint(h),
        cfg.hash_index(h),
    ) by {
        lemma_hash(cfg, h);
        laws::law_lookup_keeps_items(
            cfg,
            before.hashes(),
            before@,
            cfg.hash_fingerprint(hash),
            cfg.hash_index(hash),
            placement::plain_lookup(),
            after@,
            found_in,
            cfg.hash_fingerprint(h),
            cfg.hash_index(h),
        );
    }
}

/// An insertion loses nothing but what it reports: every key that the filter contained is still
/// there, unless its fingerprint is the evicted one.
pub proof fn law_insert_keeps_keys<H: BuildHasher, K: Hash + ?Sized, Q: Hash + ?Sized>(
    before: CuckooFilter<H>,
    key: &K,
    after: CuckooFilter<H>,
    evicted: Option<u32>,
    other: &Q,
)
    requires
        before.wf(),
        before.is_consistent(),
        after.same_setup(&before),
        before.inserts_key(key, &after, evicted) || before.inserts_key_if_not_present(
            key,
            &after,
            evicted,
        ),
        before.contains_key(other),
    ensures
        after.contains_key(other) || (evicted matches Some(fingerprint) && before.has_fingerprint(
            other,
            fingerprint,
        )),
{
    let cfg = before.config();
    before.lemma_shape();
    let h = choose|h: u64| #[trigger]
        hashing::hashes_to(before.hasher(), other, h) && cfg.has_item(
            before.hashes(),
            before@,
            cfg.hash_fingerprint(h),
            cfg.hash_index(h),
        );
    lemma_hash(cfg, h);
    let hash = lemma_insertion(before, key, after, evicted);
    lemma_hash(cfg, hash);
    let item = cfg.new_slot(cfg.hash_fingerprint(hash), placement::plain_insert());
    let first = cfg.hash_index(hash);
    if cfg.inserts(before.hashes(), before@, item, first, after@, evicted) {
        laws::law_insert_keeps_items(
            cfg,
            before.hashes(),
            before@,
            item,
            first,
            after@,
            evicted,
            cfg.hash_fingerprint(h),
            cfg.hash_index(h),
        );
    } else {
        laws::law_insert_if_not_present_keeps_items(
            cfg,
            before.hashes(),
            before@,
            item,
            first,
            after@,
            evicted,
            cfg.hash_fingerprint(h),
            cfg.hash_index(h),
        );
    }
    assert(hashing::hashes_to(after.hasher(), other, h));
}

/// The filter contains a key after it was inserted, unless the fingerprint of the key is the
/// evicted one.
pub proof fn law_inserted_key_is_contained<H: BuildHasher, K: Hash + ?Sized>(
    before: CuckooFilter<H>,
    key: &K,
    after: CuckooFilter<H>,
    evicted: Option<u32>,
)
    requires
        before.wf(),
        before.is_consistent(),
        after.same_setup(&before),
        before.inserts_key(key, &after, evicted) || before.inserts_key_if_not_present(
            key,
            &after,
            evicted,
        ),
    ensures
        after.contains_key(key) || (evicted matches Some(fingerprint) && before.has_fingerprint(
            key,
            fingerprint,
        )),
{
    let cfg = before.config();
    before.lemma_shape();
    let hash = lemma_insertion(before, key, after, evicted);
    lemma_hash(cfg, hash);
    let item = cfg.new_slot(cfg.hash_fingerprint(hash), placement::plain_insert());
    let first = cfg.hash_index(hash);
    if cfg.inserts(before.hashes(), before@, item, first, after@, evicted) {
        laws::law_insert_keeps_items(
            cfg,
            before.hashes(),
            before@,
            item,
            first,
            after@,
            evicted,
            cfg.hash_fingerprint(hash),
            cfg.hash_index(hash),
        );
    } else {
        laws::law_insert_if_not_present_keeps_items(
            cfg,
            before.hashes(),
            before@,
            item,
            first,
            after@,
            evicted,
            cfg.hash_fingerprint(hash),
            cfg.hash_index(hash),
        );
    }
    assert(hashing::hashes_to(after.hasher(), key, hash));
}

/// What was inserted is found by the next lookup, unless the fingerprint of the key is the evicted
/// one.
pub proof fn law_inserted_key_is_found<H: BuildHasher, K: Hash + ?Sized>(
    before: CuckooFilter<H>,
    key: &K,
    after: CuckooFilter<H>,
    evicted: Option<u32>,
    looked_up: CuckooFilter<H>,
    found: bool,
)
    requires
        before.wf(),
        before.is_consistent_for(key),
        after.wf(),
        after.same_setup(&before),
        before.inserts_key(key, &after, evicted) || before.inserts_key_if_not_present(
            key,
            &after,
            evicted,
        ),
        after.looks_up_key(key, &looked_up, found),
    ensures
        found || (evicted matches Some(fingerprint) && before.has_fingerprint(key, fingerprint)),
{
    law_inserted_key_is_contained(before, key, after, evicted);
    law_lookup_finds_the_key(after, key, looked_up, found);
}

/// An insertion into an empty filter evicts nothing.
pub proof fn law_first_insert_evicts_nothing<H: BuildHasher, K: Hash + ?Sized>(
    before: CuckooFilter<H>,
    key: &K,
    after: CuckooFilter<H>,
    evicted: Option<u32>,
)
    requires
        before.wf(),
        before.is_consistent(),
        before.is_blank(),
        before.inserts_key(key, &after, evicted) || before.inserts_key_if_not_present(
            key,
            &after,
            evicted,
        ),
    ensures
        evicted is None,
{
    let cfg = before.config();
    before.lemma_shape();
    let hash = lemma_insertion(before, key, after, evicted);
    lemma_hash(cfg, hash);
    let first = cfg.hash_index(hash);
    laws::lemma_index_in_range(cfg, before@, first);
    if evicted is Some {
        laws::law_insert_evicts_only_if_full(
            cfg,
            before.hashes(),
            before@,
            cfg.new_slot(cfg.hash_fingerprint(hash), placement::plain_insert()),
            first,
            after@,
            evicted,
            first,
        );
        assert(before@[first as int][0] == slot::empty_slot());
        assert(before@[first as int][0].fingerprint != 0);
    }
}

/// Without LRU, with buckets of at least two slots and with at least one kick allowed, the filter
/// contains a key after it was inserted, whatever was evicted.
pub proof fn law_newest_key_stays<H: BuildHasher, K: Hash + ?Sized>(
    before: CuckooFilter<H>,
    key: &K,
    after: CuckooFilter<H>,
    evicted: Option<u32>,
)
    requires
        before.wf(),
        before.config().lru_field() is None,
        before.config().slot_count() >= 2,
        before.config().kick_limit() >= 1,
        after.same_setup(&before),
        before.inserts_key(key, &after, evicted) || before.inserts_key_if_not_present(
            key,
            &after,
            evicted,
        ),
    ensures
        after.contains_key(key),
{
    let cfg = before.config();
    before.lemma_shape();
    let hash = lemma_insertion(before, key, after, evicted);
    lemma_hash(cfg, hash);
    laws::law_newest_item_stays(
        cfg,
        before.hashes(),
        before@,
        cfg.new_slot(cfg.hash_fingerprint(hash), placement::plain_insert()),
        cfg.hash_index(hash),
        after@,
        evicted,
    );
    assert(hashing::hashes_to(after.hasher(), key, hash));
}

/// Inserting only what is not present keeps the filter free of duplicates.
pub proof fn law_insert_if_not_present_keeps_no_duplicates<H: BuildHasher, K: Hash + ?Sized>(
    before: CuckooFilter<H>,
    key: &K,
    after: CuckooFilter<H>,
    evicted: Option<u32>,
)
    requires
        before.wf(),
        before.is_consistent(),
        before.no_duplicates(),
        after.same_setup(&before),
        before.inserts_key_if_not_present(key, &after, evicted),
    ensures
        after.no_duplicates(),
{
    let cfg = before.config();
    before.lemma_shape();
    let hash = choose|hash: u64| #[trigger]
        hashing::hashes_to(before.hasher(), key, hash) && cfg.inserts_if_not_present(
            before.hashes(),
            before@,
            cfg.new_slot(cfg.hash_fingerprint(hash), placement::plain_insert()),
            cfg.hash_index(hash),
            after@,
            evicted,
        );
    lemma_hash(cfg, hash);
    laws::law_insert_if_not_present_makes_no_duplicates(
        cfg,
        before.hashes(),
        before@,
        cfg.new_slot(cfg.hash_fingerprint(hash), placement::plain_insert()),
        cfg.hash_index(hash),
        after@,
        evicted,
    );
}

/// A removal finds a key exactly if the filter contains it.
pub proof fn law_remove_finds_the_key<H: BuildHasher, K: Hash + ?Sized>(
    before: CuckooFilter<H>,
    key: &K,
    after: CuckooFilter<H>,
    found: bool,
)
    requires
        before.wf(),
        before.is_consistent_for(key),
        before.removes_key(key, &after, found),
    ensures
        found == before.contains_key(key),
{
    let cfg = before.config();
    before.lemma_shape();
    let hash = choose|hash: u64| #[trigger]
        hashing::hashes_to(before.hasher(), key, hash) && cfg.removes(
            before.hashes(),
            before@,
            cfg.hash_fingerprint(hash),
            cfg.hash_index(hash),
            after@,
            found,
        );
    lemma_hash(cfg, hash);
    laws::law_remove_finds_what_is_there(
        cfg,
        before.hashes(),
        before@,
        cfg.hash_fingerprint(hash),
        cfg.hash_index(hash),
        after@,
        found,
    );
}

/// In a filter without duplicates, a key is gone once it was removed, and there are still no
/// duplicates.
pub proof fn law_removed_key_is_gone<H: BuildHasher, K: Hash + ?Sized>(
    before: CuckooFilter<H>,
    key: &K,
    after: CuckooFilter<H>,
    found: bool,
)
    requires
        before.wf(),
        before.is_consistent_for(key),
        before.no_duplicates(),
        after.same_setup(&before),
        before.removes_key(key, &after, found),
    ensures
        !after.contains_key(key),
        after.no_duplicates(),
{
    let cfg = before.config();
    before.lemma_shape();
    let hash = choose|hash: u64| #[trigger]
        hashing::hashes_to(before.hasher(), key, hash) && cfg.removes(
            before.hashes(),
            before@,
            cfg.hash_fingerprint(hash),
            cfg.hash_index(hash),
            after@,
            found,
        );
    lemma_hash(cfg, hash);
    laws::law_removed_item_is_gone(
        cfg,
        before.hashes(),
        before@,
        cfg.hash_fingerprint(hash),
        cfg.hash_index(hash),
        after@,
        found,
    );
}

/// A removal loses no key with another fingerprint.
pub proof fn law_remove_keeps_other_keys<H: BuildHasher, K: Hash + ?Sized, Q: Hash + ?Sized>(
    before: CuckooFilter<H>,
    key: &K,
    after: CuckooFilter<H>,
    found: bool,
    other: &Q,
)
    requires
        before.wf(),
        after.same_setup(&before),
        before.removes_key(key, &after, found),
        before.contains_key(other),
        forall|fingerprint: u32|
            !(#[trigger] before.has_fingerprint(key, fingerprint) && before.has_fingerprint(
                other,
                fingerprint,
            )),
    ensures
        after.contains_key(other),
{
    let cfg = before.config();
    before.lemma_shape();
    let hash = choose|hash: u64| #[trigger]
        hashing::hashes_to(before.hasher(), key, hash) && cfg.removes(
            before.hashes(),
            before@,
            cfg.hash_fingerprint(hash),
            cfg.hash_index(hash),
            after@,
            found,
        );
    let h = choose|h: u64| #[trigger]
        hashing::hashes_to(before.hasher(), other, h) && cfg.has_item(
            before.hashes(),
            before@,
            cfg.hash_fingerprint(h),
            cfg.hash_index(h),
        );
    lemma_hash(cfg, hash);
    lemma_hash(cfg, h);
    assert(before.has_fingerprint(key, cfg.hash_fingerprint(hash)));
    assert(before.has_fingerprint(other, cfg.hash_fingerprint(h)));
    laws::law_remove_keeps_other_items(
        cfg,
        before.hashes(),
        before@,
        cfg.hash_fingerprint(hash),
        cfg.hash_index(hash),
        after@,
        found,
        cfg.hash_fingerprint(h),
        cfg.hash_index(h),
    );
    assert(hashing::hashes_to(after.hasher(), other, h));
}

/// What changes no fingerprint, or empties slots only, keeps the filter free of duplicates. Scans
/// and lookups are such changes.
pub proof fn law_fewer_items_are_no_duplicates<H: BuildHasher>(
    before: CuckooFilter<H>,
    after: CuckooFilter<H>,
)
    requires
        before.wf(),
        before.no_duplicates(),
        after.same_setup(&before),
        filter::same_shape(before@, after@),
        forall|i: int, j: int|
            0 <= i < before@.len() && 0 <= j < before@[i].len() ==> (
            #[trigger] after@[i][j]).fingerprint == before@[i][j].fingerprint
                || after@[i][j].fingerprint == 0,
    ensures
        after.no_duplicates(),
{
    let cfg = before.config();
    before.lemma_shape();
    assert forall|i: u32, s: int, j: u32, t: int|
        cfg.is_index(i) && cfg.is_index(j) && 0 <= s < after@[i as int].len() && 0 <= t
            < after@[j as int].len() implies !#[trigger] cfg.duplicates(
        after.hashes(),
        after@,
        i,
        s,
        j,
        t,
    ) by {
        laws::lemma_index_in_range(cfg, before@, i);
        laws::lemma_index_in_range(cfg, before@, j);
        assert(!cfg.duplicates(before.hashes(), before@, i, s, j, t));
        assert(after@[i as int][s].fingerprint == before@[i as int][s].fingerprint
            || after@[i as int][s].fingerprint == 0);
        assert(after@[j as int][t].fingerprint == before@[j as int][t].fingerprint
            || after@[j as int][t].fingerprint == 0);
    }
}

/// Whatever is stored in a filter fits its fields.
pub proof fn law_stored_values_are_in_range<H: BuildHasher>(
    filter: CuckooFilter<H>,
    i: int,
    j: int,
)
    requires
        filter.wf(),
        0 <= i < filter@.len(),
        0 <= j < filter@[i].len(),
    ensures
        ({
            let cfg = filter.config();
            let stored = filter@[i][j];
            &&& stored.fingerprint <= cfg.fingerprint_field().max()
            &&& cfg.lru_field() matches Some((_, field)) ==> stored.lru <= field.max()
            &&& cfg.ttl_field() matches Some((_, field)) ==> stored.ttl <= field.max()
            &&& cfg.counter_field() matches Some((_, field)) ==> stored.counter <= field.max()
        }),
{
    let cfg = filter.config();
    filter.lemma_shape();
    filter.lemma_bytes();
    slot::lemma_slot_bounds(
        cfg,
        bucket::block_at(filter.bytes()[i], cfg.data_block_size as int, j),
    );
}

/// The slots of a filter say all there is to know of its bytes.
pub proof fn law_slots_determine_filter_bytes<H: BuildHasher>(
    a: CuckooFilter<H>,
    b: CuckooFilter<H>,
)
    requires
        a.wf(),
        b.wf(),
        a.same_setup(&b),
        a@ == b@,
    ensures
        a.bytes() == b.bytes(),
{
    a.lemma_bytes_follow(&b);
}

/// An insertion leaves empty slots clean.
pub proof fn law_insertion_keeps_clean<H: BuildHasher, K: Hash + ?Sized>(
    before: CuckooFilter<H>,
    key: &K,
    after: CuckooFilter<H>,
    evicted: Option<u32>,
)
    requires
        before.wf(),
        before.is_clean(),
        before.inserts_key(key, &after, evicted) || before.inserts_key_if_not_present(
            key,
            &after,
            evicted,
        ),
    ensures
        after.is_clean(),
{
    let cfg = before.config();
    before.lemma_shape();
    let hash = lemma_insertion(before, key, after, evicted);
    lemma_hash(cfg, hash);
    laws::law_insert_keeps_clean(
        cfg,
        before.hashes(),
        before@,
        cfg.new_slot(cfg.hash_fingerprint(hash), placement::plain_insert()),
        cfg.hash_index(hash),
        after@,
        evicted,
    );
}

/// A lookup leaves empty slots clean.
pub proof fn law_key_lookup_keeps_clean<H: BuildHasher, K: Hash + ?Sized>(
    before: CuckooFilter<H>,
    key: &K,
    after: CuckooFilter<H>,
    found: bool,
)
    requires
        before.wf(),
        before.is_clean(),
        before.looks_up_key(key, &after, found),
    ensures
        after.is_clean(),
{
    let cfg = before.config();
    before.lemma_shape();
    let (hash, found_in) = choose|hash: u64, found_in: Option<u32>| #[trigger]
        before.looks_up_hash(key, &after, hash, found_in) && found == found_in is Some;
    lemma_hash(cfg, hash);
    laws::law_lookup_keeps_clean(
        cfg,
        before.hashes(),
        before@,
        cfg.hash_fingerprint(hash),
        cfg.hash_index(hash),
        placement::plain_lookup(),
        after@,
        found_in,
    );
}

/// A removal leaves empty slots clean.
pub proof fn law_removal_keeps_clean<H: BuildHasher, K: Hash + ?Sized>(
    before: CuckooFilter<H>,
    key: &K,
    after: CuckooFilter<H>,
    found: bool,
)
    requires
        before.wf(),
        before.is_clean(),
        before.removes_key(key, &after, found),
    ensures
        after.is_clean(),
{
    let cfg = before.config();
    before.lemma_shape();
    let hash = choose|hash: u64| #[trigger]
        hashing::hashes_to(before.hasher(), key, hash) && cfg.removes(
            before.hashes(),
            before@,
            cfg.hash_fingerprint(hash),
            cfg.hash_index(hash),
            after@,
            found,
        );
    lemma_hash(cfg, hash);
    laws::law_remove_keeps_clean(
        cfg,
        before.hashes(),
        before@,
        cfg.hash_fingerprint(hash),
        cfg.hash_index(hash),
        after@,
        found,
    );
}

/// Scans leave empty slots clean.
pub proof fn law_scans_keep_clean<H: BuildHasher>(before: CuckooFilter<H>, after: CuckooFilter<H>)
    requires
        before.is_clean(),
        before.scans_lru(&after) || before.scans_ttl(&after) || before.scans_full(&after),
    ensures
        after.is_clean(),
{
    laws::law_scan_keeps_empty_slots(before.config());
    assert forall|i: int, s: int|
        0 <= i < after@.len() && 0 <= s < after@[i].len() && after@[i][s].fingerprint
            == 0 implies #[trigger] after@[i][s] == slot::empty_slot() by {
        if before@[i][s].fingerprint == 0 {
            assert(before@[i][s] == slot::empty_slot());
        }
    }
}

/// Removal undoes an insertion: if a filter does not contain a key and has a free slot for it, then
/// removing the key after it was inserted finds it, and restores every slot and every byte.
pub proof fn law_removal_undoes_insertion<H: BuildHasher, K: Hash + ?Sized>(
    before: CuckooFilter<H>,
    key: &K,
    inserted: CuckooFilter<H>,
    evicted: Option<u32>,
    after: CuckooFilter<H>,
    found: bool,
)
    requires
        before.wf(),
        before.is_clean(),
        before.is_consistent_for(key),
        !before.contains_key(key),
        before.has_free_slot(key),
        inserted.same_setup(&before),
        before.inserts_key(key, &inserted, evicted),
        after.wf(),
        after.same_setup(&before),
        inserted.removes_key(key, &after, found),
    ensures
        evicted is None,
        found,
        after@ == before@,
        after.bytes() == before.bytes(),
{
    let cfg = before.config();
    before.lemma_shape();
    let (h, place, s) = choose|hash: u64, place: u32, s: int|
        #![trigger hashing::hashes_to(before.hasher(), key, hash), before@[place as int][s]]
        {
            &&& hashing::hashes_to(before.hasher(), key, hash)
            &&& cfg.near(
                before.hashes(),
                cfg.hash_fingerprint(hash),
                cfg.hash_index(hash),
                place,
            )
            &&& 0 <= s < before@[place as int].len()
            &&& before@[place as int][s].fingerprint == 0
        };
    let hash = choose|hash: u64| #[trigger]
        hashing::hashes_to(before.hasher(), key, hash) && cfg.inserts(
            before.hashes(),
            before@,
            cfg.new_slot(cfg.hash_fingerprint(hash), placement::plain_insert()),
            cfg.hash_index(hash),
            inserted@,
            evicted,
        );
    let again = choose|hash: u64| #[trigger]
        hashing::hashes_to(inserted.hasher(), key, hash) && inserted.config().removes(
            inserted.hashes(),
            inserted@,
            inserted.config().hash_fingerprint(hash),
            inserted.config().hash_index(hash),
            after@,
            found,
        );
    assert(hash == h && again == h);
    lemma_hash(cfg, h);
    laws::law_remove_undoes_insert(
        cfg,
        before.hashes(),
        before@,
        cfg.new_slot(cfg.hash_fingerprint(h), placement::plain_insert()),
        cfg.hash_index(h),
        place,
        s,
        inserted@,
        evicted,
        after@,
        found,
    );
    after.lemma_bytes_follow(&before);
}

/// A full scan does what an LRU scan followed by a TTL scan does, down to the bytes. With both
/// features off it changes no byte.
pub proof fn law_full_scan_is_lru_scan_and_ttl_scan<H: BuildHasher>(
    before: CuckooFilter<H>,
    full: CuckooFilter<H>,
    lru: CuckooFilter<H>,
    both: CuckooFilter<H>,
)
    requires
        before.wf(),
        full.wf(),
        full.same_setup(&before),
        before.scans_full(&full),
        lru.same_setup(&before),
        before.scans_lru(&lru),
        both.wf(),
        both.same_setup(&before),
        lru.scans_ttl(&both),
    ensures
        full@ == both@,
        full.bytes() == both.bytes(),
        before.config().lru_field() is None && before.config().ttl_field() is None
            ==> full.bytes() == before.bytes(),
{
    assert forall|i: int| 0 <= i < full@.len() implies full@[i] == both@[i] by {
        assert forall|j: int| 0 <= j < full@[i].len() implies full@[i][j] == both@[i][j] by {
            assert(lru@[i][j] == before.config().lru_aged(before@[i][j]));
        }
        assert(full@[i] =~= both@[i]);
    }
    assert(full@ =~= both@);
    full.lemma_bytes_follow(&both);
    if before.config().lru_field() is None && before.config().ttl_field() is None {
        assert forall|i: int| 0 <= i < full@.len() implies full@[i] == before@[i] by {
            assert(full@[i] =~= before@[i]);
        }
        assert(full@ =~= before@);
        full.lemma_bytes_follow(&before);
    }
}

/// Lookups of the same key in equal filters find the same and change the same, down to the bytes.
/// `contains` and `get_associated_data` are such lookups.
pub proof fn law_key_lookups_agree<H: BuildHasher, K: Hash + ?Sized>(
    before: CuckooFilter<H>,
    other: CuckooFilter<H>,
    key: &K,
    a: CuckooFilter<H>,
    found_a: bool,
    b: CuckooFilter<H>,
    found_b: bool,
)
    requires
        before.is_consistent_for(key),
        other.same_setup(&before),
        other@ == before@,
        a.wf(),
        a.same_setup(&before),
        before.looks_up_key(key, &a, found_a),
        b.wf(),
        b.same_setup(&before),
        other.looks_up_key(key, &b, found_b),
    ensures
        found_a == found_b,
        a@ == b@,
        a.bytes() == b.bytes(),
{
    let cfg = before.config();
    let (x, found_x) = choose|hash: u64, found_in: Option<u32>| #[trigger]
        before.looks_up_hash(key, &a, hash, found_in) && found_a == found_in is Some;
    let (y, found_y) = choose|hash: u64, found_in: Option<u32>| #[trigger]
        other.looks_up_hash(key, &b, hash, found_in) && found_b == found_in is Some;
    assert(x == y);
    laws::law_lookups_agree(
        cfg,
        before.hashes(),
        before@,
        cfg.hash_fingerprint(x),
        cfg.hash_index(x),
        placement::plain_lookup(),
        a@,
        found_x,
        b@,
        found_y,
    );
    a.lemma_bytes_follow(&b);
}

} // verus!
