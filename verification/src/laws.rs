//! What holds of the filter as a whole.
//!
//! The laws are stated over the descriptions that the functions of the filter give of themselves:
//! `inserts` describes an insertion, `looks_up` a lookup, and so on. An item is known by its
//! fingerprint and by the index of its first bucket.
use crate::bucket;
use crate::bucket::LookupValues;
use crate::config::{CuckooConfiguration, CuckooConfigurationBuilder};
use crate::data_block::DataBlockFieldConfiguration;
use crate::numbers;
use crate::placement;
use crate::slot;
use crate::slot::SlotView;
use vstd::prelude::*;

verus! {

/// Whether every fingerprint has at most one hash.
pub open spec fn consistent(hashes: spec_fn(u32, u64) -> bool) -> bool {
    forall|fingerprint: u32, a: u64, b: u64| #[trigger]
        hashes(fingerprint, a) && #[trigger] hashes(fingerprint, b) ==> a == b
}

impl CuckooConfiguration {
    /// Whether there are as many buckets and slots as the configuration says.
    pub open(crate) spec fn shapes(self, buckets: Seq<Seq<SlotView>>) -> bool {
        &&& self.inv()
        &&& buckets.len() == self.bucket_count
        &&& forall|i: int| 0 <= i < buckets.len() ==> #[trigger] buckets[i].len() == self.bucket_size
    }

    /// Whether a number is the index of a bucket that a hash can lead to.
    pub open spec fn is_index(self, index: u32) -> bool {
        index & self.mask() == index
    }

    /// Whether a fingerprint in bucket `index` can also be stored in bucket `place`.
    pub open spec fn near(
        self,
        hashes: spec_fn(u32, u64) -> bool,
        fingerprint: u32,
        index: u32,
        place: u32,
    ) -> bool {
        place == index || self.is_alternate(hashes, fingerprint, index, place)
    }

    /// Whether the filter contains an item: whether one of its two buckets holds its fingerprint.
    pub open spec fn has_item(
        self,
        hashes: spec_fn(u32, u64) -> bool,
        buckets: Seq<Seq<SlotView>>,
        fingerprint: u32,
        index: u32,
    ) -> bool {
        exists|place: u32| #[trigger]
            self.near(hashes, fingerprint, index, place) && bucket::holds(
                buckets[place as int],
                fingerprint,
            )
    }

    /// Whether slot `s` of bucket `i` and slot `t` of bucket `j` hold the same item.
    pub open spec fn duplicates(
        self,
        hashes: spec_fn(u32, u64) -> bool,
        buckets: Seq<Seq<SlotView>>,
        i: u32,
        s: int,
        j: u32,
        t: int,
    ) -> bool {
        &&& (i, s) != (j, t)
        &&& buckets[i as int][s].fingerprint != 0
        &&& buckets[i as int][s].fingerprint == buckets[j as int][t].fingerprint
        &&& self.near(hashes, buckets[i as int][s].fingerprint, i, j)
    }

    /// Whether no item is stored twice.
    pub open spec fn no_duplicates(
        self,
        hashes: spec_fn(u32, u64) -> bool,
        buckets: Seq<Seq<SlotView>>,
    ) -> bool {
        forall|i: u32, s: int, j: u32, t: int|
            self.is_index(i) && self.is_index(j) && 0 <= s < buckets[i as int].len() && 0 <= t
                < buckets[j as int].len() ==> !#[trigger] self.duplicates(
                hashes,
                buckets,
                i,
                s,
                j,
                t,
            )
    }
}

/// Going to the other bucket twice leads back, for the same hash.
pub proof fn law_alternate_is_an_involution(mask: u32, hash: u64, index: u32)
    requires
        index & mask == index,
    ensures
        placement::alternate(mask, hash, placement::alternate(mask, hash, index)) == index,
{
    let h = hash as u32;
    assert((((index ^ (h & mask)) & mask) ^ (h & mask)) & mask == index) by (bit_vector)
        requires
            index & mask == index,
    ;
}

/// The slot that `first_match` finds is the first that matches.
proof fn lemma_first_match(slots: Seq<SlotView>, fingerprint: u32, or_empty: bool, from: int)
    requires
        0 <= from <= slots.len(),
    ensures
        ({
            let index = bucket::first_match(slots, fingerprint, or_empty, from);
            &&& from <= index <= slots.len()
            &&& index < slots.len() ==> slots[index].fingerprint == fingerprint || (or_empty
                && slots[index].fingerprint == 0)
            &&& forall|s: int|
                from <= s < index ==> #[trigger] slots[s].fingerprint != fingerprint && !(or_empty
                    && slots[s].fingerprint == 0)
        }),
    decreases slots.len() - from,
{
    if from < slots.len() && !(slots[from].fingerprint == fingerprint || (or_empty
        && slots[from].fingerprint == 0)) {
        lemma_first_match(slots, fingerprint, or_empty, from + 1);
    }
}

/// A bucket holds a fingerprint exactly if one of its slots does.
pub proof fn lemma_holds(slots: Seq<SlotView>, fingerprint: u32)
    ensures
        bucket::holds(slots, fingerprint) <==> exists|s: int|
            0 <= s < slots.len() && #[trigger] slots[s].fingerprint == fingerprint,
{
    lemma_first_match(slots, fingerprint, false, 0);
    let index = bucket::first_match(slots, fingerprint, false, 0);
    if index < slots.len() {
        assert(slots[index].fingerprint == fingerprint);
    }
}

/// A slot that holds a fingerprint shows that its bucket does.
proof fn lemma_slot_holds(slots: Seq<SlotView>, fingerprint: u32, s: int)
    requires
        0 <= s < slots.len(),
        slots[s].fingerprint == fingerprint,
    ensures
        bucket::holds(slots, fingerprint),
{
    lemma_holds(slots, fingerprint);
}

/// A bucket index that fits the mask is the index of a bucket.
pub(crate) proof fn lemma_index_in_range(cfg: CuckooConfiguration, buckets: Seq<Seq<SlotView>>, index: u32)
    requires
        cfg.shapes(buckets),
        cfg.is_index(index),
    ensures
        index < buckets.len(),
{
    let m = cfg.buckets_mask;
    assert(index & m <= m) by (bit_vector);
}

proof fn lemma_alternate_is_index(
    cfg: CuckooConfiguration,
    hashes: spec_fn(u32, u64) -> bool,
    fingerprint: u32,
    index: u32,
    other: u32,
)
    requires
        cfg.is_alternate(hashes, fingerprint, index, other),
    ensures
        cfg.is_index(other),
{
    let hash = choose|hash: u64| #[trigger]
        hashes(fingerprint, hash) && other == placement::alternate(cfg.mask(), hash, index);
    let m = cfg.mask();
    let x = index ^ ((hash as u32) & m);
    assert((x & m) & m == x & m) by (bit_vector);
}

/// Both buckets of an item are buckets that a hash can lead to.
pub(crate) proof fn lemma_near_is_index(
    cfg: CuckooConfiguration,
    hashes: spec_fn(u32, u64) -> bool,
    fingerprint: u32,
    index: u32,
    place: u32,
)
    requires
        cfg.is_index(index),
        cfg.near(hashes, fingerprint, index, place),
    ensures
        cfg.is_index(place),
{
    if place != index {
        lemma_alternate_is_index(cfg, hashes, fingerprint, index, place);
    }
}

/// Two buckets near each other stay near when a third is near one of them: an item has only two
/// buckets.
proof fn lemma_near_step(
    cfg: CuckooConfiguration,
    hashes: spec_fn(u32, u64) -> bool,
    fingerprint: u32,
    index: u32,
    place: u32,
    next: u32,
)
    requires
        consistent(hashes),
        cfg.is_index(index),
        cfg.near(hashes, fingerprint, index, place),
        cfg.is_alternate(hashes, fingerprint, place, next),
    ensures
        cfg.near(hashes, fingerprint, index, next),
{
    if place != index {
        let a = choose|hash: u64| #[trigger]
            hashes(fingerprint, hash) && place == placement::alternate(cfg.mask(), hash, index);
        let b = choose|hash: u64| #[trigger]
            hashes(fingerprint, hash) && next == placement::alternate(cfg.mask(), hash, place);
        assert(a == b);
        law_alternate_is_an_involution(cfg.mask(), a, index);
    }
}

/// Nearness goes both ways.
proof fn lemma_near_symmetric(
    cfg: CuckooConfiguration,
    hashes: spec_fn(u32, u64) -> bool,
    fingerprint: u32,
    index: u32,
    place: u32,
)
    requires
        cfg.is_index(index),
        cfg.near(hashes, fingerprint, index, place),
    ensures
        cfg.near(hashes, fingerprint, place, index),
{
    if place != index {
        let hash = choose|hash: u64| #[trigger]
            hashes(fingerprint, hash) && place == placement::alternate(cfg.mask(), hash, index);
        law_alternate_is_an_involution(cfg.mask(), hash, index);
        assert(hashes(fingerprint, hash));
    }
}

/// Storing an item keeps the fingerprints of a bucket and adds its own.
proof fn lemma_placed(cfg: CuckooConfiguration, slots: Seq<SlotView>, item: SlotView)
    requires
        bucket::has_room(slots, item.fingerprint),
    ensures
        ({
            let after = cfg.placed(slots, item);
            let index = bucket::first_match(slots, item.fingerprint, true, 0);
            &&& after.len() == slots.len()
            &&& 0 <= index < slots.len()
            &&& after[index].fingerprint == item.fingerprint
            &&& slots[index].fingerprint == item.fingerprint || slots[index].fingerprint == 0
            &&& forall|s: int| 0 <= s < slots.len() && s != index ==> #[trigger] after[s] == slots[s]
            &&& bucket::holds(after, item.fingerprint)
            &&& forall|f: u32| f != 0 && bucket::holds(slots, f) ==> #[trigger] bucket::holds(after, f)
        }),
{
    let after = cfg.placed(slots, item);
    let index = bucket::first_match(slots, item.fingerprint, true, 0);
    lemma_first_match(slots, item.fingerprint, true, 0);
    lemma_slot_holds(after, item.fingerprint, index);
    assert forall|f: u32| f != 0 && bucket::holds(slots, f) implies #[trigger] bucket::holds(after, f) by {
        lemma_holds(slots, f);
        let s = choose|s: int| 0 <= s < slots.len() && #[trigger] slots[s].fingerprint == f;
        lemma_slot_holds(after, f, s);
    }
}

/// Storing an item in one of its buckets makes the filter contain it, and loses no other.
proof fn lemma_stored_keeps(
    cfg: CuckooConfiguration,
    hashes: spec_fn(u32, u64) -> bool,
    buckets: Seq<Seq<SlotView>>,
    item: SlotView,
    place: u32,
    fingerprint: u32,
    index: u32,
)
    requires
        cfg.shapes(buckets),
        cfg.is_index(place),
        bucket::has_room(buckets[place as int], item.fingerprint),
        fingerprint != 0,
        cfg.is_index(index),
        cfg.has_item(hashes, buckets, fingerprint, index) || (fingerprint == item.fingerprint
            && cfg.near(hashes, fingerprint, index, place)),
    ensures
        cfg.shapes(cfg.stored(buckets, item, place)),
        cfg.has_item(hashes, cfg.stored(buckets, item, place), fingerprint, index),
{
    let after = cfg.stored(buckets, item, place);
    lemma_index_in_range(cfg, buckets, place);
    lemma_placed(cfg, buckets[place as int], item);
    if cfg.has_item(hashes, buckets, fingerprint, index) {
        let at = choose|at: u32| #[trigger]
            cfg.near(hashes, fingerprint, index, at) && bucket::holds(buckets[at as int], fingerprint);
        if at != index {
            lemma_alternate_is_index(cfg, hashes, fingerprint, index, at);
        }
        lemma_index_in_range(cfg, buckets, at);
        assert(bucket::holds(after[at as int], fingerprint));
    } else {
        assert(bucket::holds(after[place as int], fingerprint));
    }
}

/// A kick moves one item out of its bucket and another one in: every item that the filter contained
/// is still there, or is the one that was kicked out and goes to its other bucket.
proof fn lemma_kicked_keeps(
    cfg: CuckooConfiguration,
    hashes: spec_fn(u32, u64) -> bool,
    buckets: Seq<Seq<SlotView>>,
    item: SlotView,
    place: u32,
    victim: int,
    next: u32,
    fingerprint: u32,
    index: u32,
)
    requires
        consistent(hashes),
        cfg.shapes(buckets),
        cfg.is_index(place),
        0 <= victim < buckets[place as int].len(),
        cfg.is_alternate(hashes, buckets[place as int][victim].fingerprint, place, next),
        cfg.is_index(index),
        cfg.has_item(hashes, buckets, fingerprint, index) || (fingerprint == item.fingerprint
            && cfg.near(hashes, fingerprint, index, place)),
    ensures
        cfg.shapes(cfg.kicked(buckets, item, place, victim)),
        cfg.has_item(hashes, cfg.kicked(buckets, item, place, victim), fingerprint, index) || (
        fingerprint == buckets[place as int][victim].fingerprint && cfg.near(
            hashes,
            fingerprint,
            index,
            next,
        )),
{
    let after = cfg.kicked(buckets, item, place, victim);
    lemma_index_in_range(cfg, buckets, place);
    if fingerprint == item.fingerprint && cfg.near(hashes, fingerprint, index, place) {
        lemma_slot_holds(after[place as int], fingerprint, victim);
    } else {
        let at = choose|at: u32| #[trigger]
            cfg.near(hashes, fingerprint, index, at) && bucket::holds(buckets[at as int], fingerprint);
        if at != index {
            lemma_alternate_is_index(cfg, hashes, fingerprint, index, at);
        }
        lemma_index_in_range(cfg, buckets, at);
        lemma_holds(buckets[at as int], fingerprint);
        let s = choose|s: int|
            0 <= s < buckets[at as int].len() && #[trigger] buckets[at as int][s].fingerprint
                == fingerprint;
        if at == place && s == victim {
            lemma_near_step(cfg, hashes, fingerprint, index, place, next);
        } else {
            assert(after[at as int][s] == buckets[at as int][s]);
            lemma_slot_holds(after[at as int], fingerprint, s);
        }
    }
}

/// Kicking loses no item but the evicted one.
proof fn lemma_kicks_keep(
    cfg: CuckooConfiguration,
    hashes: spec_fn(u32, u64) -> bool,
    kicks: nat,
    keep: u32,
    buckets: Seq<Seq<SlotView>>,
    item: SlotView,
    place: u32,
    after: Seq<Seq<SlotView>>,
    evicted: Option<u32>,
    fingerprint: u32,
    index: u32,
)
    requires
        consistent(hashes),
        cfg.shapes(buckets),
        cfg.is_index(place),
        cfg.kicks(hashes, kicks, keep, buckets, item, place, after, evicted),
        fingerprint != 0,
        cfg.is_index(index),
        cfg.has_item(hashes, buckets, fingerprint, index) || (fingerprint == item.fingerprint
            && cfg.near(hashes, fingerprint, index, place)),
    ensures
        cfg.has_item(hashes, after, fingerprint, index) || evicted == Some(fingerprint),
    decreases kicks,
{
    if kicks == 0 || (cfg.lru_field_config is Some && forall|victim: int|
        !bucket::is_lru_victim(buckets[place as int], item.lru, victim)) {
    } else {
        let (victim, next) = choose|victim: int, next: u32|
            #![trigger cfg.kick_step(hashes, keep, buckets, item, place, victim, next)]
            {
                let out = buckets[place as int][victim];
                let kicked = cfg.kicked(buckets, item, place, victim);
                &&& cfg.kick_step(hashes, keep, buckets, item, place, victim, next)
                &&& if bucket::has_room(kicked[next as int], out.fingerprint) {
                    after == cfg.stored(kicked, out, next) && evicted is None
                } else {
                    cfg.kicks(
                        hashes,
                        (kicks - 1) as nat,
                        keep,
                        kicked,
                        out,
                        next,
                        after,
                        evicted,
                    )
                }
            };
        let out = buckets[place as int][victim];
        let kicked = cfg.kicked(buckets, item, place, victim);
        lemma_alternate_is_index(cfg, hashes, out.fingerprint, place, next);
        lemma_kicked_keeps(
            cfg,
            hashes,
            buckets,
            item,
            place,
            victim,
            next,
            fingerprint,
            index,
        );
        if bucket::has_room(kicked[next as int], out.fingerprint) {
            lemma_stored_keeps(cfg, hashes, kicked, out, next, fingerprint, index);
        } else {
            lemma_kicks_keep(
                cfg,
                hashes,
                (kicks - 1) as nat,
                keep,
                kicked,
                out,
                next,
                after,
                evicted,
                fingerprint,
                index,
            );
        }
    }
}

proof fn lemma_stores_keep(
    cfg: CuckooConfiguration,
    hashes: spec_fn(u32, u64) -> bool,
    buckets: Seq<Seq<SlotView>>,
    item: SlotView,
    first: u32,
    second: u32,
    start: u32,
    after: Seq<Seq<SlotView>>,
    evicted: Option<u32>,
    fingerprint: u32,
    index: u32,
)
    requires
        consistent(hashes),
        cfg.shapes(buckets),
        cfg.is_index(first),
        cfg.is_alternate(hashes, item.fingerprint, first, second),
        start == first || start == second,
        cfg.stores(hashes, buckets, item, first, second, start, after, evicted),
        fingerprint != 0,
        cfg.is_index(index),
        cfg.has_item(hashes, buckets, fingerprint, index) || (fingerprint == item.fingerprint
            && index == first),
    ensures
        cfg.has_item(hashes, after, fingerprint, index) || evicted == Some(fingerprint),
{
    lemma_alternate_is_index(cfg, hashes, item.fingerprint, first, second);
    if bucket::has_room(buckets[first as int], item.fingerprint) {
        lemma_stored_keeps(cfg, hashes, buckets, item, first, fingerprint, index);
    } else if bucket::has_room(buckets[second as int], item.fingerprint) {
        lemma_stored_keeps(cfg, hashes, buckets, item, second, fingerprint, index);
    } else {
        lemma_kicks_keep(
            cfg,
            hashes,
            cfg.max_kicks as nat,
            item.fingerprint,
            buckets,
            item,
            start,
            after,
            evicted,
            fingerprint,
            index,
        );
    }
}

/// An insertion loses nothing but what it reports: after it, the filter contains the inserted item
/// and every item that it contained before, except that an item with the evicted fingerprint may be
/// gone.
pub proof fn law_insert_keeps_items(
    cfg: CuckooConfiguration,
    hashes: spec_fn(u32, u64) -> bool,
    buckets: Seq<Seq<SlotView>>,
    item: SlotView,
    first: u32,
    after: Seq<Seq<SlotView>>,
    evicted: Option<u32>,
    fingerprint: u32,
    index: u32,
)
    requires
        consistent(hashes),
        cfg.shapes(buckets),
        cfg.is_index(first),
        cfg.inserts(hashes, buckets, item, first, after, evicted),
        fingerprint != 0,
        cfg.is_index(index),
        cfg.has_item(hashes, buckets, fingerprint, index) || (fingerprint == item.fingerprint
            && index == first),
    ensures
        cfg.has_item(hashes, after, fingerprint, index) || evicted == Some(fingerprint),
{
    if bucket::has_room(buckets[first as int], item.fingerprint) {
        lemma_stored_keeps(cfg, hashes, buckets, item, first, fingerprint, index);
    } else {
        let second = choose|second: u32|
            #![trigger cfg.is_alternate(hashes, item.fingerprint, first, second)]
            cfg.is_alternate(hashes, item.fingerprint, first, second) && cfg.stores(
                hashes,
                buckets,
                item,
                first,
                second,
                first,
                after,
                evicted,
            );
        lemma_stores_keep(
            cfg,
            hashes,
            buckets,
            item,
            first,
            second,
            first,
            after,
            evicted,
            fingerprint,
            index,
        );
    }
}

/// A lookup changes no fingerprint.
proof fn lemma_found_keeps(
    cfg: CuckooConfiguration,
    slots: Seq<SlotView>,
    fingerprint: u32,
    update: LookupValues,
)
    ensures
        cfg.found(slots, fingerprint, update).len() == slots.len(),
        forall|s: int|
            0 <= s < slots.len() ==> (#[trigger] cfg.found(
                slots,
                fingerprint,
                update,
            )[s]).fingerprint == slots[s].fingerprint,
        forall|f: u32| #[trigger]
            bucket::holds(cfg.found(slots, fingerprint, update), f) <==> bucket::holds(slots, f),
{
    let after = cfg.found(slots, fingerprint, update);
    lemma_first_match(slots, fingerprint, false, 0);
    assert forall|f: u32| #[trigger] bucket::holds(after, f) <==> bucket::holds(slots, f) by {
        lemma_holds(slots, f);
        lemma_holds(after, f);
        if bucket::holds(slots, f) {
            let s = choose|s: int| 0 <= s < slots.len() && #[trigger] slots[s].fingerprint == f;
            assert(after[s].fingerprint == f);
        }
        if bucket::holds(after, f) {
            let s = choose|s: int| 0 <= s < after.len() && #[trigger] after[s].fingerprint == f;
            assert(slots[s].fingerprint == f);
        }
    }
}

proof fn lemma_looked_up_in_keeps(
    cfg: CuckooConfiguration,
    hashes: spec_fn(u32, u64) -> bool,
    buckets: Seq<Seq<SlotView>>,
    fingerprint: u32,
    place: u32,
    update: LookupValues,
    f: u32,
    index: u32,
)
    requires
        cfg.shapes(buckets),
        cfg.is_index(place),
        cfg.is_index(index),
    ensures
        cfg.shapes(cfg.looked_up_in(buckets, fingerprint, place, update)),
        cfg.has_item(hashes, cfg.looked_up_in(buckets, fingerprint, place, update), f, index)
            <==> cfg.has_item(hashes, buckets, f, index),
{
    let after = cfg.looked_up_in(buckets, fingerprint, place, update);
    lemma_index_in_range(cfg, buckets, place);
    lemma_found_keeps(cfg, buckets[place as int], fingerprint, update);
    assert forall|at: u32| cfg.near(hashes, f, index, at) implies bucket::holds(after[at as int], f)
        == bucket::holds(buckets[at as int], f) by {
        if at != index {
            lemma_alternate_is_index(cfg, hashes, f, index, at);
        }
        lemma_index_in_range(cfg, buckets, at);
        if at != place {
            assert(after[at as int] == buckets[at as int]);
        }
    }
    if cfg.has_item(hashes, buckets, f, index) {
        let at = choose|at: u32| #[trigger]
            cfg.near(hashes, f, index, at) && bucket::holds(buckets[at as int], f);
        assert(bucket::holds(after[at as int], f));
    }
    if cfg.has_item(hashes, after, f, index) {
        let at = choose|at: u32| #[trigger]
            cfg.near(hashes, f, index, at) && bucket::holds(after[at as int], f);
        assert(bucket::holds(buckets[at as int], f));
    }
}

/// A lookup finds an item exactly if the filter contains it. If it finds nothing, the item is
/// definitely not present.
pub proof fn law_lookup_finds_what_is_there(
    cfg: CuckooConfiguration,
    hashes: spec_fn(u32, u64) -> bool,
    buckets: Seq<Seq<SlotView>>,
    fingerprint: u32,
    first: u32,
    update: LookupValues,
    after: Seq<Seq<SlotView>>,
    found_in: Option<u32>,
)
    requires
        consistent(hashes),
        cfg.looks_up(hashes, buckets, fingerprint, first, update, after, found_in),
    ensures
        found_in is Some <==> cfg.has_item(hashes, buckets, fingerprint, first),
{
    if bucket::holds(buckets[first as int], fingerprint) {
        assert(cfg.near(hashes, fingerprint, first, first));
    } else {
        let second = choose|second: u32|
            #![trigger cfg.is_alternate(hashes, fingerprint, first, second)]
            cfg.is_alternate(hashes, fingerprint, first, second) && (if bucket::holds(
                buckets[second as int],
                fingerprint,
            ) {
                found_in == Some(second) && after == cfg.looked_up_in(
                    buckets,
                    fingerprint,
                    second,
                    update,
                )
            } else {
                found_in is None && after == buckets
            });
        assert(cfg.near(hashes, fingerprint, first, second));
        if cfg.has_item(hashes, buckets, fingerprint, first) {
            let at = choose|at: u32| #[trigger]
                cfg.near(hashes, fingerprint, first, at) && bucket::holds(buckets[at as int], fingerprint);
            let a = choose|hash: u64| #[trigger]
                hashes(fingerprint, hash) && at == placement::alternate(cfg.mask(), hash, first);
            let b = choose|hash: u64| #[trigger]
                hashes(fingerprint, hash) && second == placement::alternate(cfg.mask(), hash, first);
            assert(a == b);
        }
    }
}

/// A lookup neither adds nor removes items: it changes associated data only.
pub proof fn law_lookup_keeps_items(
    cfg: CuckooConfiguration,
    hashes: spec_fn(u32, u64) -> bool,
    buckets: Seq<Seq<SlotView>>,
    fingerprint: u32,
    first: u32,
    update: LookupValues,
    after: Seq<Seq<SlotView>>,
    found_in: Option<u32>,
    other: u32,
    index: u32,
)
    requires
        cfg.shapes(buckets),
        cfg.is_index(first),
        cfg.is_index(index),
        cfg.looks_up(hashes, buckets, fingerprint, first, update, after, found_in),
    ensures
        cfg.has_item(hashes, after, other, index) <==> cfg.has_item(hashes, buckets, other, index),
{
    if let Some(place) = found_in {
        if place != first {
            lemma_alternate_is_index(cfg, hashes, fingerprint, first, place);
        }
        lemma_looked_up_in_keeps(
            cfg,
            hashes,
            buckets,
            fingerprint,
            place,
            update,
            other,
            index,
        );
    }
}

/// What was inserted is found: if the item is not the evicted one, a lookup finds it.
pub proof fn law_inserted_item_is_found(
    cfg: CuckooConfiguration,
    hashes: spec_fn(u32, u64) -> bool,
    buckets: Seq<Seq<SlotView>>,
    item: SlotView,
    first: u32,
    inserted: Seq<Seq<SlotView>>,
    evicted: Option<u32>,
    update: LookupValues,
    after: Seq<Seq<SlotView>>,
    found_in: Option<u32>,
)
    requires
        consistent(hashes),
        cfg.shapes(buckets),
        cfg.is_index(first),
        item.fingerprint != 0,
        cfg.inserts(hashes, buckets, item, first, inserted, evicted),
        cfg.looks_up(hashes, inserted, item.fingerprint, first, update, after, found_in),
    ensures
        found_in is Some || evicted == Some(item.fingerprint),
{
    law_insert_keeps_items(
        cfg,
        hashes,
        buckets,
        item,
        first,
        inserted,
        evicted,
        item.fingerprint,
        first,
    );
    law_lookup_finds_what_is_there(
        cfg,
        hashes,
        inserted,
        item.fingerprint,
        first,
        update,
        after,
        found_in,
    );
}

/// An insertion of what is not present loses nothing but what it reports.
pub proof fn law_insert_if_not_present_keeps_items(
    cfg: CuckooConfiguration,
    hashes: spec_fn(u32, u64) -> bool,
    buckets: Seq<Seq<SlotView>>,
    item: SlotView,
    first: u32,
    after: Seq<Seq<SlotView>>,
    evicted: Option<u32>,
    fingerprint: u32,
    index: u32,
)
    requires
        consistent(hashes),
        cfg.shapes(buckets),
        cfg.is_index(first),
        cfg.inserts_if_not_present(hashes, buckets, item, first, after, evicted),
        fingerprint != 0,
        cfg.is_index(index),
        cfg.has_item(hashes, buckets, fingerprint, index) || (fingerprint == item.fingerprint
            && index == first),
    ensures
        cfg.has_item(hashes, after, fingerprint, index) || evicted == Some(fingerprint),
{
    if bucket::holds(buckets[first as int], item.fingerprint) {
        assert(cfg.near(hashes, item.fingerprint, first, first));
        lemma_looked_up_in_keeps(
            cfg,
            hashes,
            buckets,
            item.fingerprint,
            first,
            placement::plain_lookup(),
            fingerprint,
            index,
        );
    } else {
        let second = choose|second: u32|
            #![trigger cfg.is_alternate(hashes, item.fingerprint, first, second)]
            cfg.is_alternate(hashes, item.fingerprint, first, second) && cfg.resolves(
                hashes,
                buckets,
                item,
                first,
                second,
                after,
                evicted,
            );
        lemma_alternate_is_index(cfg, hashes, item.fingerprint, first, second);
        assert(cfg.near(hashes, item.fingerprint, first, second));
        if bucket::holds(buckets[second as int], item.fingerprint) {
            lemma_looked_up_in_keeps(
                cfg,
                hashes,
                buckets,
                item.fingerprint,
                second,
                placement::plain_lookup(),
                fingerprint,
                index,
            );
        } else {
            let start = if cfg.stores(
                hashes,
                buckets,
                item,
                first,
                second,
                first,
                after,
                evicted,
            ) {
                first
            } else {
                second
            };
            lemma_stores_keep(
                cfg,
                hashes,
                buckets,
                item,
                first,
                second,
                start,
                after,
                evicted,
                fingerprint,
                index,
            );
        }
    }
}

/// The victim of a random kick holds the fingerprint to keep only if every slot does.
proof fn lemma_random_victim(slots: Seq<SlotView>, keep: u32, start: int, skipped: int)
    requires
        0 <= start < slots.len(),
        0 <= skipped <= slots.len(),
    ensures
        ({
            let victim = bucket::random_victim(slots, keep, start, skipped);
            &&& 0 <= victim < slots.len()
            &&& slots[victim].fingerprint == keep ==> forall|k: int|
                skipped <= k < slots.len() ==> #[trigger] slots[(start + k) % (slots.len()
                    as int)].fingerprint == keep
        }),
    decreases slots.len() - skipped,
{
    if skipped < slots.len() {
        let index = (start + skipped) % (slots.len() as int);
        if slots[index].fingerprint == keep {
            lemma_random_victim(slots, keep, start, skipped + 1);
        }
    }
}

/// A random kick in a bucket of at least two slots leaves the fingerprint to keep in the bucket.
proof fn lemma_kick_leaves_kept(
    slots: Seq<SlotView>,
    item: SlotView,
    keep: u32,
    start: int,
    victim: int,
)
    requires
        slots.len() >= 2,
        0 <= start < slots.len(),
        victim == bucket::random_victim(slots, keep, start, 0),
        bucket::holds(slots, keep),
    ensures
        bucket::holds(slots.update(victim, item), keep),
{
    lemma_random_victim(slots, keep, start, 0);
    lemma_holds(slots, keep);
    let s = choose|s: int| 0 <= s < slots.len() && #[trigger] slots[s].fingerprint == keep;
    let after = slots.update(victim, item);
    if s != victim {
        lemma_slot_holds(after, keep, s);
    } else {
        let n = slots.len() as int;
        let other: int = if victim == 0 {
            1
        } else {
            0
        };
        let k: int = if other >= start {
            other - start
        } else {
            other - start + n
        };
        assert((start + k) % n == other) by {
            if other >= start {
                vstd::arithmetic::div_mod::lemma_small_mod(other as nat, n as nat);
            } else {
                vstd::arithmetic::div_mod::lemma_fundamental_div_mod_converse(
                    start + k,
                    n,
                    1,
                    other,
                );
            }
        }
        assert(slots[(start + k) % n].fingerprint == keep);
        lemma_slot_holds(after, keep, other);
    }
}

/// Random kicks never push out an item with the fingerprint to keep.
proof fn lemma_kicks_leave_kept(
    cfg: CuckooConfiguration,
    hashes: spec_fn(u32, u64) -> bool,
    kicks: nat,
    keep: u32,
    buckets: Seq<Seq<SlotView>>,
    item: SlotView,
    place: u32,
    after: Seq<Seq<SlotView>>,
    evicted: Option<u32>,
    index: u32,
)
    requires
        cfg.shapes(buckets),
        cfg.lru_field_config is None,
        cfg.bucket_size >= 2,
        keep != 0,
        cfg.is_index(place),
        cfg.is_index(index),
        cfg.kicks(hashes, kicks, keep, buckets, item, place, after, evicted),
        cfg.has_item(hashes, buckets, keep, index) || (kicks >= 1 && item.fingerprint == keep
            && cfg.near(hashes, keep, index, place)),
    ensures
        cfg.has_item(hashes, after, keep, index),
    decreases kicks,
{
    if kicks > 0 {
        let (victim, next) = choose|victim: int, next: u32|
            #![trigger cfg.kick_step(hashes, keep, buckets, item, place, victim, next)]
            {
                let out = buckets[place as int][victim];
                let kicked = cfg.kicked(buckets, item, place, victim);
                &&& cfg.kick_step(hashes, keep, buckets, item, place, victim, next)
                &&& if bucket::has_room(kicked[next as int], out.fingerprint) {
                    after == cfg.stored(kicked, out, next) && evicted is None
                } else {
                    cfg.kicks(
                        hashes,
                        (kicks - 1) as nat,
                        keep,
                        kicked,
                        out,
                        next,
                        after,
                        evicted,
                    )
                }
            };
        let slots = buckets[place as int];
        let out = slots[victim];
        let kicked = cfg.kicked(buckets, item, place, victim);
        lemma_alternate_is_index(cfg, hashes, out.fingerprint, place, next);
        lemma_index_in_range(cfg, buckets, place);
        if cfg.has_item(hashes, buckets, keep, index) {
            let at = choose|at: u32| #[trigger]
                cfg.near(hashes, keep, index, at) && bucket::holds(buckets[at as int], keep);
            if at == place {
                let start = choose|start: int|
                    0 <= start < slots.len() && victim == #[trigger] bucket::random_victim(
                        slots,
                        keep,
                        start,
                        0,
                    );
                lemma_kick_leaves_kept(slots, item, keep, start, victim);
            } else {
                if at != index {
                    lemma_alternate_is_index(cfg, hashes, keep, index, at);
                }
                lemma_index_in_range(cfg, buckets, at);
            }
            assert(bucket::holds(kicked[at as int], keep));
        } else {
            lemma_slot_holds(kicked[place as int], keep, victim);
        }
        assert(cfg.has_item(hashes, kicked, keep, index));
        assert(cfg.shapes(kicked));
        if bucket::has_room(kicked[next as int], out.fingerprint) {
            lemma_stored_keeps(cfg, hashes, kicked, out, next, keep, index);
        } else {
            lemma_kicks_leave_kept(
                cfg,
                hashes,
                (kicks - 1) as nat,
                keep,
                kicked,
                out,
                next,
                after,
                evicted,
                index,
            );
        }
    }
}

/// A bucket without room for an item has no empty slot and does not hold the item.
proof fn lemma_no_room(slots: Seq<SlotView>, fingerprint: u32)
    requires
        !bucket::has_room(slots, fingerprint),
    ensures
        forall|s: int|
            0 <= s < slots.len() ==> #[trigger] slots[s].fingerprint != 0 && slots[s].fingerprint
                != fingerprint,
{
    lemma_first_match(slots, fingerprint, true, 0);
}

/// An insertion evicts an item only if both buckets of the inserted item are full.
pub proof fn law_insert_evicts_only_if_full(
    cfg: CuckooConfiguration,
    hashes: spec_fn(u32, u64) -> bool,
    buckets: Seq<Seq<SlotView>>,
    item: SlotView,
    first: u32,
    after: Seq<Seq<SlotView>>,
    evicted: Option<u32>,
    place: u32,
)
    requires
        consistent(hashes),
        cfg.inserts(hashes, buckets, item, first, after, evicted) || cfg.inserts_if_not_present(
            hashes,
            buckets,
            item,
            first,
            after,
            evicted,
        ),
        evicted is Some,
        cfg.near(hashes, item.fingerprint, first, place),
    ensures
        forall|s: int|
            0 <= s < buckets[place as int].len() ==> #[trigger] buckets[place as int][s].fingerprint
                != 0,
{
    let second = if cfg.inserts(hashes, buckets, item, first, after, evicted) {
        choose|second: u32|
            #![trigger cfg.is_alternate(hashes, item.fingerprint, first, second)]
            cfg.is_alternate(hashes, item.fingerprint, first, second) && cfg.stores(
                hashes,
                buckets,
                item,
                first,
                second,
                first,
                after,
                evicted,
            )
    } else {
        choose|second: u32|
            #![trigger cfg.is_alternate(hashes, item.fingerprint, first, second)]
            cfg.is_alternate(hashes, item.fingerprint, first, second) && cfg.resolves(
                hashes,
                buckets,
                item,
                first,
                second,
                after,
                evicted,
            )
    };
    lemma_no_room(buckets[first as int], item.fingerprint);
    lemma_no_room(buckets[second as int], item.fingerprint);
    if place != first {
        let a = choose|hash: u64| #[trigger]
            hashes(item.fingerprint, hash) && place == placement::alternate(
                cfg.mask(),
                hash,
                first,
            );
        let b = choose|hash: u64| #[trigger]
            hashes(item.fingerprint, hash) && second == placement::alternate(
                cfg.mask(),
                hash,
                first,
            );
        assert(a == b);
    }
}

/// Whether every item has an LRU counter above 0.
pub open spec fn all_used(buckets: Seq<Seq<SlotView>>) -> bool {
    forall|i: int, s: int|
        0 <= i < buckets.len() && 0 <= s < buckets[i].len() && buckets[i][s].fingerprint != 0
            ==> #[trigger] buckets[i][s].lru > 0
}

/// Storing an item where there is room leaves the other items where they are.
proof fn lemma_stored_stays(
    cfg: CuckooConfiguration,
    buckets: Seq<Seq<SlotView>>,
    item: SlotView,
    place: u32,
    i: int,
    s: int,
)
    requires
        cfg.shapes(buckets),
        cfg.is_index(place),
        bucket::has_room(buckets[place as int], item.fingerprint),
        0 <= i < buckets.len(),
        0 <= s < buckets[i].len(),
        buckets[i][s].fingerprint != 0,
    ensures
        cfg.stored(buckets, item, place)[i][s].fingerprint == buckets[i][s].fingerprint,
{
    lemma_index_in_range(cfg, buckets, place);
    lemma_placed(cfg, buckets[place as int], item);
}

/// Kicking for an item with an LRU counter leaves items alone that are used at least as much.
proof fn lemma_kicks_leave_used(
    cfg: CuckooConfiguration,
    hashes: spec_fn(u32, u64) -> bool,
    kicks: nat,
    keep: u32,
    buckets: Seq<Seq<SlotView>>,
    item: SlotView,
    place: u32,
    after: Seq<Seq<SlotView>>,
    evicted: Option<u32>,
    i: int,
    s: int,
)
    requires
        cfg.lru_field() is Some,
        cfg.shapes(buckets),
        cfg.is_index(place),
        cfg.kicks(hashes, kicks, keep, buckets, item, place, after, evicted),
        all_used(buckets),
        forall|t: int|
            0 <= t < buckets[place as int].len() ==> #[trigger] buckets[place as int][t].fingerprint
                != 0,
        item.lru > 0,
        0 <= i < buckets.len(),
        0 <= s < buckets[i].len(),
        buckets[i][s].fingerprint != 0,
        buckets[i][s].lru >= item.lru,
    ensures
        after[i][s].fingerprint == buckets[i][s].fingerprint,
    decreases kicks,
{
    if kicks == 0 || (cfg.lru_field_config is Some && forall|victim: int|
        !bucket::is_lru_victim(buckets[place as int], item.lru, victim)) {
    } else {
        let (victim, next) = choose|victim: int, next: u32|
            #![trigger cfg.kick_step(hashes, keep, buckets, item, place, victim, next)]
            {
                let out = buckets[place as int][victim];
                let kicked = cfg.kicked(buckets, item, place, victim);
                &&& cfg.kick_step(hashes, keep, buckets, item, place, victim, next)
                &&& if bucket::has_room(kicked[next as int], out.fingerprint) {
                    after == cfg.stored(kicked, out, next) && evicted is None
                } else {
                    cfg.kicks(
                        hashes,
                        (kicks - 1) as nat,
                        keep,
                        kicked,
                        out,
                        next,
                        after,
                        evicted,
                    )
                }
            };
        let out = buckets[place as int][victim];
        let kicked = cfg.kicked(buckets, item, place, victim);
        lemma_index_in_range(cfg, buckets, place);
        lemma_alternate_is_index(cfg, hashes, out.fingerprint, place, next);
        assert(out.lru < item.lru);
        assert(out.fingerprint != 0 && out.lru > 0);
        assert(kicked[i][s] == buckets[i][s]);
        if bucket::has_room(kicked[next as int], out.fingerprint) {
            lemma_stored_stays(cfg, kicked, out, next, i, s);
        } else {
            lemma_no_room(kicked[next as int], out.fingerprint);
            assert forall|j: int, t: int|
                0 <= j < kicked.len() && 0 <= t < kicked[j].len() && kicked[j][t].fingerprint
                    != 0 implies #[trigger] kicked[j][t].lru > 0 by {
                if j == place && t == victim {
                    assert(kicked[j][t] == item);
                } else {
                    assert(kicked[j][t] == buckets[j][t]);
                    assert(buckets[j][t].lru > 0);
                }
            }
            lemma_kicks_leave_used(
                cfg,
                hashes,
                (kicks - 1) as nat,
                keep,
                kicked,
                out,
                next,
                after,
                evicted,
                i,
                s,
            );
        }
    }
}

/// With LRU, an item stays where it is when another one is inserted that is not used more, as long
/// as no LRU counter is 0: only less used items are kicked.
pub proof fn law_more_used_items_stay(
    cfg: CuckooConfiguration,
    hashes: spec_fn(u32, u64) -> bool,
    buckets: Seq<Seq<SlotView>>,
    item: SlotView,
    first: u32,
    after: Seq<Seq<SlotView>>,
    evicted: Option<u32>,
    i: int,
    s: int,
)
    requires
        cfg.lru_field() is Some,
        cfg.shapes(buckets),
        cfg.is_index(first),
        cfg.inserts(hashes, buckets, item, first, after, evicted) || cfg.inserts_if_not_present(
            hashes,
            buckets,
            item,
            first,
            after,
            evicted,
        ),
        all_used(buckets),
        item.lru > 0,
        0 <= i < buckets.len(),
        0 <= s < buckets[i].len(),
        buckets[i][s].fingerprint != 0,
        buckets[i][s].lru >= item.lru,
    ensures
        after[i][s].fingerprint == buckets[i][s].fingerprint,
{
    lemma_index_in_range(cfg, buckets, first);
    if cfg.inserts(hashes, buckets, item, first, after, evicted) {
        if bucket::has_room(buckets[first as int], item.fingerprint) {
            lemma_stored_stays(cfg, buckets, item, first, i, s);
        } else {
            let second = choose|second: u32|
                #![trigger cfg.is_alternate(hashes, item.fingerprint, first, second)]
                cfg.is_alternate(hashes, item.fingerprint, first, second) && cfg.stores(
                    hashes,
                    buckets,
                    item,
                    first,
                    second,
                    first,
                    after,
                    evicted,
                );
            lemma_stores_leave_used(
                cfg,
                hashes,
                buckets,
                item,
                first,
                second,
                first,
                after,
                evicted,
                i,
                s,
            );
        }
    } else if bucket::holds(buckets[first as int], item.fingerprint) {
        lemma_found_keeps(
            cfg,
            buckets[first as int],
            item.fingerprint,
            placement::plain_lookup(),
        );
    } else {
        let second = choose|second: u32|
            #![trigger cfg.is_alternate(hashes, item.fingerprint, first, second)]
            cfg.is_alternate(hashes, item.fingerprint, first, second) && cfg.resolves(
                hashes,
                buckets,
                item,
                first,
                second,
                after,
                evicted,
            );
        lemma_alternate_is_index(cfg, hashes, item.fingerprint, first, second);
        lemma_index_in_range(cfg, buckets, second);
        if bucket::holds(buckets[second as int], item.fingerprint) {
            lemma_found_keeps(
                cfg,
                buckets[second as int],
                item.fingerprint,
                placement::plain_lookup(),
            );
        } else if cfg.stores(hashes, buckets, item, first, second, first, after, evicted) {
            lemma_stores_leave_used(
                cfg,
                hashes,
                buckets,
                item,
                first,
                second,
                first,
                after,
                evicted,
                i,
                s,
            );
        } else {
            lemma_stores_leave_used(
                cfg,
                hashes,
                buckets,
                item,
                first,
                second,
                second,
                after,
                evicted,
                i,
                s,
            );
        }
    }
}

/// Storing an item with an LRU counter leaves items alone that are used at least as much.
proof fn lemma_stores_leave_used(
    cfg: CuckooConfiguration,
    hashes: spec_fn(u32, u64) -> bool,
    buckets: Seq<Seq<SlotView>>,
    item: SlotView,
    first: u32,
    second: u32,
    start: u32,
    after: Seq<Seq<SlotView>>,
    evicted: Option<u32>,
    i: int,
    s: int,
)
    requires
        cfg.lru_field() is Some,
        cfg.shapes(buckets),
        cfg.is_index(first),
        cfg.is_alternate(hashes, item.fingerprint, first, second),
        start == first || start == second,
        cfg.stores(hashes, buckets, item, first, second, start, after, evicted),
        all_used(buckets),
        item.lru > 0,
        0 <= i < buckets.len(),
        0 <= s < buckets[i].len(),
        buckets[i][s].fingerprint != 0,
        buckets[i][s].lru >= item.lru,
    ensures
        after[i][s].fingerprint == buckets[i][s].fingerprint,
{
    lemma_alternate_is_index(cfg, hashes, item.fingerprint, first, second);
    if bucket::has_room(buckets[first as int], item.fingerprint) {
        lemma_stored_stays(cfg, buckets, item, first, i, s);
    } else if bucket::has_room(buckets[second as int], item.fingerprint) {
        lemma_stored_stays(cfg, buckets, item, second, i, s);
    } else {
        lemma_no_room(buckets[first as int], item.fingerprint);
        lemma_no_room(buckets[second as int], item.fingerprint);
        lemma_kicks_leave_used(
            cfg,
            hashes,
            cfg.max_kicks as nat,
            item.fingerprint,
            buckets,
            item,
            start,
            after,
            evicted,
            i,
            s,
        );
    }
}

/// Without LRU, with buckets of at least two slots and with at least one kick allowed, the filter
/// contains an item after it was inserted, whatever was evicted.
pub proof fn law_newest_item_stays(
    cfg: CuckooConfiguration,
    hashes: spec_fn(u32, u64) -> bool,
    buckets: Seq<Seq<SlotView>>,
    item: SlotView,
    first: u32,
    after: Seq<Seq<SlotView>>,
    evicted: Option<u32>,
)
    requires
        cfg.shapes(buckets),
        cfg.lru_field() is None,
        cfg.slot_count() >= 2,
        cfg.kick_limit() >= 1,
        cfg.is_index(first),
        item.fingerprint != 0,
        cfg.inserts(hashes, buckets, item, first, after, evicted) || cfg.inserts_if_not_present(
            hashes,
            buckets,
            item,
            first,
            after,
            evicted,
        ),
    ensures
        cfg.has_item(hashes, after, item.fingerprint, first),
{
    let fingerprint = item.fingerprint;
    assert(cfg.near(hashes, fingerprint, first, first));
    lemma_index_in_range(cfg, buckets, first);
    if cfg.inserts(hashes, buckets, item, first, after, evicted) {
        if bucket::has_room(buckets[first as int], fingerprint) {
            lemma_stored_keeps(cfg, hashes, buckets, item, first, fingerprint, first);
        } else {
            let second = choose|second: u32|
                #![trigger cfg.is_alternate(hashes, fingerprint, first, second)]
                cfg.is_alternate(hashes, fingerprint, first, second) && cfg.stores(
                    hashes,
                    buckets,
                    item,
                    first,
                    second,
                    first,
                    after,
                    evicted,
                );
            lemma_stored_item_stays(
                cfg,
                hashes,
                buckets,
                item,
                first,
                second,
                first,
                after,
                evicted,
            );
        }
    } else if bucket::holds(buckets[first as int], fingerprint) {
        lemma_found_keeps(cfg, buckets[first as int], fingerprint, placement::plain_lookup());
        assert(bucket::holds(after[first as int], fingerprint));
    } else {
        let second = choose|second: u32|
            #![trigger cfg.is_alternate(hashes, fingerprint, first, second)]
            cfg.is_alternate(hashes, fingerprint, first, second) && cfg.resolves(
                hashes,
                buckets,
                item,
                first,
                second,
                after,
                evicted,
            );
        lemma_alternate_is_index(cfg, hashes, fingerprint, first, second);
        lemma_index_in_range(cfg, buckets, second);
        assert(cfg.near(hashes, fingerprint, first, second));
        if bucket::holds(buckets[second as int], fingerprint) {
            lemma_found_keeps(cfg, buckets[second as int], fingerprint, placement::plain_lookup());
            assert(bucket::holds(after[second as int], fingerprint));
        } else {
            let start = if cfg.stores(
                hashes,
                buckets,
                item,
                first,
                second,
                first,
                after,
                evicted,
            ) {
                first
            } else {
                second
            };
            lemma_stored_item_stays(
                cfg,
                hashes,
                buckets,
                item,
                first,
                second,
                start,
                after,
                evicted,
            );
        }
    }
}

/// Without LRU, an item that was stored is still there once kicking has ended.
proof fn lemma_stored_item_stays(
    cfg: CuckooConfiguration,
    hashes: spec_fn(u32, u64) -> bool,
    buckets: Seq<Seq<SlotView>>,
    item: SlotView,
    first: u32,
    second: u32,
    start: u32,
    after: Seq<Seq<SlotView>>,
    evicted: Option<u32>,
)
    requires
        cfg.shapes(buckets),
        cfg.lru_field() is None,
        cfg.slot_count() >= 2,
        cfg.kick_limit() >= 1,
        cfg.is_index(first),
        cfg.is_alternate(hashes, item.fingerprint, first, second),
        start == first || start == second,
        item.fingerprint != 0,
        cfg.stores(hashes, buckets, item, first, second, start, after, evicted),
    ensures
        cfg.has_item(hashes, after, item.fingerprint, first),
{
    lemma_alternate_is_index(cfg, hashes, item.fingerprint, first, second);
    assert(cfg.near(hashes, item.fingerprint, first, first));
    assert(cfg.near(hashes, item.fingerprint, first, second));
    if bucket::has_room(buckets[first as int], item.fingerprint) {
        lemma_stored_keeps(cfg, hashes, buckets, item, first, item.fingerprint, first);
    } else if bucket::has_room(buckets[second as int], item.fingerprint) {
        lemma_stored_keeps(cfg, hashes, buckets, item, second, item.fingerprint, first);
    } else {
        lemma_kicks_leave_kept(
            cfg,
            hashes,
            cfg.max_kicks as nat,
            item.fingerprint,
            buckets,
            item,
            start,
            after,
            evicted,
            first,
        );
    }
}

/// Storing an item that is not there yet makes no duplicates.
proof fn lemma_stored_unique(
    cfg: CuckooConfiguration,
    hashes: spec_fn(u32, u64) -> bool,
    buckets: Seq<Seq<SlotView>>,
    item: SlotView,
    place: u32,
)
    requires
        cfg.shapes(buckets),
        cfg.is_index(place),
        bucket::has_room(buckets[place as int], item.fingerprint),
        !cfg.has_item(hashes, buckets, item.fingerprint, place),
        cfg.no_duplicates(hashes, buckets),
    ensures
        cfg.no_duplicates(hashes, cfg.stored(buckets, item, place)),
{
    let after = cfg.stored(buckets, item, place);
    let slots = buckets[place as int];
    let p = bucket::first_match(slots, item.fingerprint, true, 0);
    lemma_index_in_range(cfg, buckets, place);
    lemma_placed(cfg, slots, item);
    assert forall|i: u32, s: int, j: u32, t: int|
        cfg.is_index(i) && cfg.is_index(j) && 0 <= s < after[i as int].len() && 0 <= t
            < after[j as int].len() implies !#[trigger] cfg.duplicates(
        hashes,
        after,
        i,
        s,
        j,
        t,
    ) by {
        if cfg.duplicates(hashes, after, i, s, j, t) {
            lemma_index_in_range(cfg, buckets, i);
            lemma_index_in_range(cfg, buckets, j);
            let fingerprint = after[i as int][s].fingerprint;
            if i == place && s == p {
                assert(after[j as int][t] == buckets[j as int][t]);
                lemma_slot_holds(buckets[j as int], fingerprint, t);
            } else if j == place && t == p {
                assert(after[i as int][s] == buckets[i as int][s]);
                lemma_near_symmetric(cfg, hashes, fingerprint, i, place);
                lemma_slot_holds(buckets[i as int], fingerprint, s);
            } else {
                assert(after[i as int][s] == buckets[i as int][s]);
                assert(after[j as int][t] == buckets[j as int][t]);
                assert(cfg.duplicates(hashes, buckets, i, s, j, t));
            }
        }
    }
}

/// A kick that puts in an item that is not there yet makes no duplicates, and the filter does not
/// contain the item that it puts out any more.
proof fn lemma_kicked_unique(
    cfg: CuckooConfiguration,
    hashes: spec_fn(u32, u64) -> bool,
    buckets: Seq<Seq<SlotView>>,
    item: SlotView,
    place: u32,
    victim: int,
    next: u32,
)
    requires
        consistent(hashes),
        cfg.shapes(buckets),
        cfg.is_index(place),
        0 <= victim < buckets[place as int].len(),
        buckets[place as int][victim].fingerprint != 0,
        cfg.is_alternate(hashes, buckets[place as int][victim].fingerprint, place, next),
        !cfg.has_item(hashes, buckets, item.fingerprint, place),
        cfg.no_duplicates(hashes, buckets),
    ensures
        cfg.no_duplicates(hashes, cfg.kicked(buckets, item, place, victim)),
        !cfg.has_item(
            hashes,
            cfg.kicked(buckets, item, place, victim),
            buckets[place as int][victim].fingerprint,
            next,
        ),
{
    let after = cfg.kicked(buckets, item, place, victim);
    let out = buckets[place as int][victim].fingerprint;
    lemma_index_in_range(cfg, buckets, place);
    lemma_alternate_is_index(cfg, hashes, out, place, next);
    assert(cfg.near(hashes, item.fingerprint, place, place));
    assert(out != item.fingerprint) by {
        if out == item.fingerprint {
            lemma_slot_holds(buckets[place as int], out, victim);
        }
    }
    assert forall|i: u32, s: int, j: u32, t: int|
        cfg.is_index(i) && cfg.is_index(j) && 0 <= s < after[i as int].len() && 0 <= t
            < after[j as int].len() implies !#[trigger] cfg.duplicates(
        hashes,
        after,
        i,
        s,
        j,
        t,
    ) by {
        if cfg.duplicates(hashes, after, i, s, j, t) {
            lemma_index_in_range(cfg, buckets, i);
            lemma_index_in_range(cfg, buckets, j);
            let fingerprint = after[i as int][s].fingerprint;
            if i == place && s == victim {
                assert(after[j as int][t] == buckets[j as int][t]);
                lemma_slot_holds(buckets[j as int], fingerprint, t);
            } else if j == place && t == victim {
                assert(after[i as int][s] == buckets[i as int][s]);
                lemma_near_symmetric(cfg, hashes, fingerprint, i, place);
                lemma_slot_holds(buckets[i as int], fingerprint, s);
            } else {
                assert(after[i as int][s] == buckets[i as int][s]);
                assert(after[j as int][t] == buckets[j as int][t]);
                assert(cfg.duplicates(hashes, buckets, i, s, j, t));
            }
        }
    }
    if cfg.has_item(hashes, after, out, next) {
        let at = choose|at: u32| #[trigger]
            cfg.near(hashes, out, next, at) && bucket::holds(after[at as int], out);
        if at != next {
            lemma_alternate_is_index(cfg, hashes, out, next, at);
            assert(cfg.near(hashes, out, place, next));
            lemma_near_step(cfg, hashes, out, place, next, at);
        }
        lemma_index_in_range(cfg, buckets, at);
        lemma_holds(after[at as int], out);
        let t = choose|t: int|
            0 <= t < after[at as int].len() && #[trigger] after[at as int][t].fingerprint == out;
        assert(after[at as int][t] == buckets[at as int][t]);
        assert(cfg.duplicates(hashes, buckets, place, victim, at, t));
    }
}

proof fn lemma_kicks_unique(
    cfg: CuckooConfiguration,
    hashes: spec_fn(u32, u64) -> bool,
    kicks: nat,
    keep: u32,
    buckets: Seq<Seq<SlotView>>,
    item: SlotView,
    place: u32,
    after: Seq<Seq<SlotView>>,
    evicted: Option<u32>,
)
    requires
        consistent(hashes),
        cfg.shapes(buckets),
        cfg.is_index(place),
        !bucket::has_room(buckets[place as int], item.fingerprint),
        !cfg.has_item(hashes, buckets, item.fingerprint, place),
        cfg.no_duplicates(hashes, buckets),
        cfg.kicks(hashes, kicks, keep, buckets, item, place, after, evicted),
    ensures
        cfg.no_duplicates(hashes, after),
    decreases kicks,
{
    if kicks == 0 || (cfg.lru_field_config is Some && forall|victim: int|
        !bucket::is_lru_victim(buckets[place as int], item.lru, victim)) {
    } else {
        let (victim, next) = choose|victim: int, next: u32|
            #![trigger cfg.kick_step(hashes, keep, buckets, item, place, victim, next)]
            {
                let out = buckets[place as int][victim];
                let kicked = cfg.kicked(buckets, item, place, victim);
                &&& cfg.kick_step(hashes, keep, buckets, item, place, victim, next)
                &&& if bucket::has_room(kicked[next as int], out.fingerprint) {
                    after == cfg.stored(kicked, out, next) && evicted is None
                } else {
                    cfg.kicks(
                        hashes,
                        (kicks - 1) as nat,
                        keep,
                        kicked,
                        out,
                        next,
                        after,
                        evicted,
                    )
                }
            };
        let out = buckets[place as int][victim];
        let kicked = cfg.kicked(buckets, item, place, victim);
        lemma_first_match(buckets[place as int], item.fingerprint, true, 0);
        assert(out.fingerprint != 0);
        lemma_index_in_range(cfg, buckets, place);
        lemma_alternate_is_index(cfg, hashes, out.fingerprint, place, next);
        lemma_kicked_unique(cfg, hashes, buckets, item, place, victim, next);
        assert(cfg.shapes(kicked));
        if bucket::has_room(kicked[next as int], out.fingerprint) {
            lemma_stored_unique(cfg, hashes, kicked, out, next);
        } else {
            lemma_kicks_unique(
                cfg,
                hashes,
                (kicks - 1) as nat,
                keep,
                kicked,
                out,
                next,
                after,
                evicted,
            );
        }
    }
}

/// Slots that keep their fingerprints make no duplicates.
proof fn lemma_same_fingerprints_unique(
    cfg: CuckooConfiguration,
    hashes: spec_fn(u32, u64) -> bool,
    buckets: Seq<Seq<SlotView>>,
    after: Seq<Seq<SlotView>>,
)
    requires
        cfg.shapes(buckets),
        cfg.shapes(after),
        cfg.no_duplicates(hashes, buckets),
        forall|i: int, s: int|
            0 <= i < buckets.len() && 0 <= s < cfg.bucket_size ==> (
            #[trigger] after[i][s]).fingerprint == buckets[i][s].fingerprint
                || after[i][s].fingerprint == 0,
    ensures
        cfg.no_duplicates(hashes, after),
{
    assert forall|i: u32, s: int, j: u32, t: int|
        cfg.is_index(i) && cfg.is_index(j) && 0 <= s < after[i as int].len() && 0 <= t
            < after[j as int].len() implies !#[trigger] cfg.duplicates(
        hashes,
        after,
        i,
        s,
        j,
        t,
    ) by {
        if cfg.duplicates(hashes, after, i, s, j, t) {
            lemma_index_in_range(cfg, buckets, i);
            lemma_index_in_range(cfg, buckets, j);
            assert(after[i as int][s].fingerprint == buckets[i as int][s].fingerprint);
            assert(after[j as int][t].fingerprint == buckets[j as int][t].fingerprint);
            assert(cfg.duplicates(hashes, buckets, i, s, j, t));
        }
    }
}

/// Inserting only what is not present keeps the filter free of duplicates.
pub proof fn law_insert_if_not_present_makes_no_duplicates(
    cfg: CuckooConfiguration,
    hashes: spec_fn(u32, u64) -> bool,
    buckets: Seq<Seq<SlotView>>,
    item: SlotView,
    first: u32,
    after: Seq<Seq<SlotView>>,
    evicted: Option<u32>,
)
    requires
        consistent(hashes),
        cfg.shapes(buckets),
        cfg.is_index(first),
        cfg.no_duplicates(hashes, buckets),
        cfg.inserts_if_not_present(hashes, buckets, item, first, after, evicted),
    ensures
        cfg.no_duplicates(hashes, after),
{
    let fingerprint = item.fingerprint;
    lemma_index_in_range(cfg, buckets, first);
    if bucket::holds(buckets[first as int], fingerprint) {
        lemma_found_keeps(cfg, buckets[first as int], fingerprint, placement::plain_lookup());
        lemma_same_fingerprints_unique(cfg, hashes, buckets, after);
    } else {
        let second = choose|second: u32|
            #![trigger cfg.is_alternate(hashes, fingerprint, first, second)]
            cfg.is_alternate(hashes, fingerprint, first, second) && cfg.resolves(
                hashes,
                buckets,
                item,
                first,
                second,
                after,
                evicted,
            );
        lemma_alternate_is_index(cfg, hashes, fingerprint, first, second);
        lemma_index_in_range(cfg, buckets, second);
        if bucket::holds(buckets[second as int], fingerprint) {
            lemma_found_keeps(cfg, buckets[second as int], fingerprint, placement::plain_lookup());
            lemma_same_fingerprints_unique(cfg, hashes, buckets, after);
        } else {
            assert(cfg.near(hashes, fingerprint, first, second));
            lemma_absent_from_both(cfg, hashes, buckets, fingerprint, first, second, first);
            lemma_absent_from_both(cfg, hashes, buckets, fingerprint, first, second, second);
            let start = if cfg.stores(
                hashes,
                buckets,
                item,
                first,
                second,
                first,
                after,
                evicted,
            ) {
                first
            } else {
                second
            };
            if bucket::has_room(buckets[first as int], fingerprint) {
                lemma_stored_unique(cfg, hashes, buckets, item, first);
            } else if bucket::has_room(buckets[second as int], fingerprint) {
                lemma_stored_unique(cfg, hashes, buckets, item, second);
            } else {
                lemma_kicks_unique(
                    cfg,
                    hashes,
                    cfg.max_kicks as nat,
                    fingerprint,
                    buckets,
                    item,
                    start,
                    after,
                    evicted,
                );
            }
        }
    }
}

/// An item that neither of its buckets holds is not there.
proof fn lemma_absent_from_both(
    cfg: CuckooConfiguration,
    hashes: spec_fn(u32, u64) -> bool,
    buckets: Seq<Seq<SlotView>>,
    fingerprint: u32,
    first: u32,
    second: u32,
    place: u32,
)
    requires
        consistent(hashes),
        cfg.is_index(first),
        cfg.is_alternate(hashes, fingerprint, first, second),
        !bucket::holds(buckets[first as int], fingerprint),
        !bucket::holds(buckets[second as int], fingerprint),
        place == first || place == second,
    ensures
        !cfg.has_item(hashes, buckets, fingerprint, place),
{
    if cfg.has_item(hashes, buckets, fingerprint, place) {
        let at = choose|at: u32| #[trigger]
            cfg.near(hashes, fingerprint, place, at) && bucket::holds(buckets[at as int], fingerprint);
        let b = choose|hash: u64| #[trigger]
            hashes(fingerprint, hash) && second == placement::alternate(cfg.mask(), hash, first);
        let a = choose|hash: u64| #[trigger]
            hashes(fingerprint, hash) && at == placement::alternate(cfg.mask(), hash, place);
        assert(a == b);
        law_alternate_is_an_involution(cfg.mask(), a, first);
    }
}

/// A removal finds an item exactly if the filter contains it.
pub proof fn law_remove_finds_what_is_there(
    cfg: CuckooConfiguration,
    hashes: spec_fn(u32, u64) -> bool,
    buckets: Seq<Seq<SlotView>>,
    fingerprint: u32,
    first: u32,
    after: Seq<Seq<SlotView>>,
    found: bool,
)
    requires
        consistent(hashes),
        cfg.is_index(first),
        cfg.removes(hashes, buckets, fingerprint, first, after, found),
    ensures
        found <==> cfg.has_item(hashes, buckets, fingerprint, first),
{
    if bucket::holds(buckets[first as int], fingerprint) {
        assert(cfg.near(hashes, fingerprint, first, first));
    } else {
        let second = choose|second: u32|
            #![trigger cfg.is_alternate(hashes, fingerprint, first, second)]
            cfg.is_alternate(hashes, fingerprint, first, second) && (if bucket::holds(
                buckets[second as int],
                fingerprint,
            ) {
                found && after == buckets.update(
                    second as int,
                    bucket::removed(buckets[second as int], fingerprint),
                )
            } else {
                !found && after == buckets
            });
        if bucket::holds(buckets[second as int], fingerprint) {
            assert(cfg.near(hashes, fingerprint, first, second));
        } else {
            lemma_absent_from_both(cfg, hashes, buckets, fingerprint, first, second, first);
        }
    }
}

/// A removal changes one slot at most: the first that holds the fingerprint in bucket `place`.
proof fn lemma_removes(
    cfg: CuckooConfiguration,
    hashes: spec_fn(u32, u64) -> bool,
    buckets: Seq<Seq<SlotView>>,
    fingerprint: u32,
    first: u32,
    after: Seq<Seq<SlotView>>,
    found: bool,
) -> (place: u32)
    requires
        cfg.shapes(buckets),
        cfg.is_index(first),
        cfg.removes(hashes, buckets, fingerprint, first, after, found),
    ensures
        cfg.shapes(after),
        cfg.is_index(place),
        found ==> {
            let slot = bucket::first_match(buckets[place as int], fingerprint, false, 0);
            &&& cfg.near(hashes, fingerprint, first, place)
            &&& 0 <= slot < buckets[place as int].len()
            &&& buckets[place as int][slot].fingerprint == fingerprint
            &&& after == buckets.update(
                place as int,
                buckets[place as int].update(slot, slot::empty_slot()),
            )
        },
        !found ==> after == buckets,
{
    lemma_index_in_range(cfg, buckets, first);
    lemma_first_match(buckets[first as int], fingerprint, false, 0);
    if bucket::holds(buckets[first as int], fingerprint) {
        first
    } else {
        let second = choose|second: u32|
            #![trigger cfg.is_alternate(hashes, fingerprint, first, second)]
            cfg.is_alternate(hashes, fingerprint, first, second) && (if bucket::holds(
                buckets[second as int],
                fingerprint,
            ) {
                found && after == buckets.update(
                    second as int,
                    bucket::removed(buckets[second as int], fingerprint),
                )
            } else {
                !found && after == buckets
            });
        lemma_alternate_is_index(cfg, hashes, fingerprint, first, second);
        lemma_index_in_range(cfg, buckets, second);
        lemma_first_match(buckets[second as int], fingerprint, false, 0);
        second
    }
}

/// A removal loses no item with another fingerprint.
pub proof fn law_remove_keeps_other_items(
    cfg: CuckooConfiguration,
    hashes: spec_fn(u32, u64) -> bool,
    buckets: Seq<Seq<SlotView>>,
    fingerprint: u32,
    first: u32,
    after: Seq<Seq<SlotView>>,
    found: bool,
    other: u32,
    index: u32,
)
    requires
        cfg.shapes(buckets),
        cfg.is_index(first),
        cfg.is_index(index),
        cfg.removes(hashes, buckets, fingerprint, first, after, found),
        other != fingerprint,
        cfg.has_item(hashes, buckets, other, index),
    ensures
        cfg.has_item(hashes, after, other, index),
{
    let place = lemma_removes(cfg, hashes, buckets, fingerprint, first, after, found);
    let at = choose|at: u32| #[trigger]
        cfg.near(hashes, other, index, at) && bucket::holds(buckets[at as int], other);
    if at != index {
        lemma_alternate_is_index(cfg, hashes, other, index, at);
    }
    lemma_index_in_range(cfg, buckets, at);
    lemma_index_in_range(cfg, buckets, place);
    lemma_holds(buckets[at as int], other);
    let s = choose|s: int|
        0 <= s < buckets[at as int].len() && #[trigger] buckets[at as int][s].fingerprint == other;
    assert(after[at as int][s] == buckets[at as int][s]);
    lemma_slot_holds(after[at as int], other, s);
}

/// In a filter without duplicates, an item is gone once it was removed, and there are still no
/// duplicates.
pub proof fn law_removed_item_is_gone(
    cfg: CuckooConfiguration,
    hashes: spec_fn(u32, u64) -> bool,
    buckets: Seq<Seq<SlotView>>,
    fingerprint: u32,
    first: u32,
    after: Seq<Seq<SlotView>>,
    found: bool,
)
    requires
        consistent(hashes),
        cfg.shapes(buckets),
        cfg.is_index(first),
        fingerprint != 0,
        cfg.no_duplicates(hashes, buckets),
        cfg.removes(hashes, buckets, fingerprint, first, after, found),
    ensures
        !cfg.has_item(hashes, after, fingerprint, first),
        cfg.no_duplicates(hashes, after),
{
    law_remove_finds_what_is_there(cfg, hashes, buckets, fingerprint, first, after, found);
    let place = lemma_removes(cfg, hashes, buckets, fingerprint, first, after, found);
    let slot = bucket::first_match(buckets[place as int], fingerprint, false, 0);
    lemma_index_in_range(cfg, buckets, place);
    if found && cfg.has_item(hashes, after, fingerprint, first) {
        let at = choose|at: u32| #[trigger]
            cfg.near(hashes, fingerprint, first, at) && bucket::holds(after[at as int], fingerprint);
        if at != first {
            lemma_alternate_is_index(cfg, hashes, fingerprint, first, at);
        }
        lemma_index_in_range(cfg, buckets, at);
        lemma_holds(after[at as int], fingerprint);
        let t = choose|t: int|
            0 <= t < after[at as int].len() && #[trigger] after[at as int][t].fingerprint
                == fingerprint;
        assert(after[at as int][t] == buckets[at as int][t]);
        lemma_near_symmetric(cfg, hashes, fingerprint, first, place);
        if at != first {
            if place == first {
                assert(cfg.near(hashes, fingerprint, place, at));
            } else {
                lemma_near_step(cfg, hashes, fingerprint, place, first, at);
            }
        }
        assert(cfg.near(hashes, fingerprint, place, at));
        assert(cfg.duplicates(hashes, buckets, place, slot, at, t));
    }
    lemma_same_fingerprints_unique(cfg, hashes, buckets, after);
}

impl CuckooConfiguration {
    /// A slot after `n` full scans.
    pub open(crate) spec fn scanned_times(self, slot: SlotView, n: nat) -> SlotView
        decreases n,
    {
        if n == 0 {
            slot
        } else {
            self.scanned(self.scanned_times(slot, (n - 1) as nat))
        }
    }
}

/// Each full scan reduces the TTL of an item by 1, until it reaches 0, when the item is removed.
/// That is, if aging LRU counters does not remove items.
pub proof fn law_items_expire(cfg: CuckooConfiguration, slot: SlotView, n: nat)
    requires
        cfg.ttl_field() is Some,
        cfg.lru_field() matches Some((lru, _)) ==> !lru.remove_on_zero,
        slot.fingerprint != 0,
    ensures
        n < slot.ttl ==> {
            let scanned = cfg.scanned_times(slot, n);
            &&& scanned.fingerprint == slot.fingerprint
            &&& scanned.ttl == slot.ttl - n
            &&& scanned.counter == slot.counter
        },
        n >= 1 && n >= slot.ttl ==> cfg.scanned_times(slot, n).fingerprint == 0,
    decreases n,
{
    assert(cfg.scanned_times(slot, 0) == slot);
    if n > 0 {
        law_items_expire(cfg, slot, (n - 1) as nat);
    }
}

/// A scan changes nothing if neither LRU nor TTL is enabled.
pub proof fn law_scan_without_features_changes_nothing(cfg: CuckooConfiguration, slot: SlotView)
    requires
        cfg.lru_field() is None,
        cfg.ttl_field() is None,
    ensures
        cfg.scanned(slot) == slot,
{
}

/// Up to half of what can be counted, room for any number of entries can be asked for.
pub proof fn law_entries_can_be_asked_for(builder: CuckooConfigurationBuilder)
    requires
        builder.bucket_size@ != 0,
        builder.max_entries <= usize::MAX / 2 + 1,
    ensures
        numbers::has_next_power_of_two(builder.required_buckets()),
{
    let n = builder.max_entries as int;
    let size = builder.bucket_size@ as int;
    vstd::arithmetic::power2::lemma2_to64_rest();
    vstd::arithmetic::power2::lemma2_to64();
    vstd::arithmetic::div_mod::lemma_div_is_ordered_by_denominator(n, 1, size);
    vstd::arithmetic::div_mod::lemma_fundamental_div_mod(n, size);
    assert(n % size != 0 ==> n / size < n) by (nonlinear_arith)
        requires
            0 <= n,
            0 < size,
            n == size * (n / size) + n % size,
            0 <= n % size,
            0 <= n / size,
    ;
    assert(builder.required_buckets() <= n);
    if usize::BITS == 32 {
        assert(builder.required_buckets() <= vstd::arithmetic::power2::pow2(31) <= usize::MAX);
    } else {
        assert(builder.required_buckets() <= vstd::arithmetic::power2::pow2(63) <= usize::MAX);
    }
}

/// A filter has at least as many slots as entries were asked for.
pub proof fn law_capacity(builder: CuckooConfigurationBuilder, cfg: CuckooConfiguration)
    requires
        builder.builds(cfg),
    ensures
        builder.max_entries <= cfg.bucket_total() * cfg.slot_count(),
{
    let entries = builder.max_entries as int;
    let size = cfg.bucket_size as int;
    let count = cfg.bucket_count as int;
    vstd::arithmetic::div_mod::lemma_fundamental_div_mod(entries, size);
    assert(entries <= count * size) by (nonlinear_arith)
        requires
            entries == size * (entries / size) + entries % size,
            0 <= entries % size < size,
            0 < size,
            entries / size + (if entries % size == 0 {
                0int
            } else {
                1int
            }) <= count,
    ;
}

/// Storing a field of a block makes that field read back as what was stored, and no other field
/// that does not overlap it changes.
pub proof fn law_fields_do_not_interfere(
    f: DataBlockFieldConfiguration,
    g: DataBlockFieldConfiguration,
    before: Seq<u8>,
    after: Seq<u8>,
    value: u32,
)
    requires
        f.stored(before, after, value),
        g.fits(before.len() as int),
        0 <= g.spec_start(),
        f.spec_end() <= g.spec_start() || g.spec_end() <= f.spec_start(),
    ensures
        f.value(after) == value,
        g.value(after) == g.value(before),
{
    slot::lemma_other_field(f, g, before, after, value);
}

/// Whether every slot without a fingerprint is empty in all its numbers.
pub open spec fn all_clean(buckets: Seq<Seq<SlotView>>) -> bool {
    forall|i: int, s: int|
        0 <= i < buckets.len() && 0 <= s < buckets[i].len() && buckets[i][s].fingerprint == 0
            ==> #[trigger] buckets[i][s] == slot::empty_slot()
}

/// Storing an item where there is room leaves empty slots clean.
proof fn lemma_stored_clean(
    cfg: CuckooConfiguration,
    buckets: Seq<Seq<SlotView>>,
    item: SlotView,
    place: u32,
)
    requires
        cfg.shapes(buckets),
        cfg.is_index(place),
        bucket::has_room(buckets[place as int], item.fingerprint),
        item.fingerprint != 0,
        all_clean(buckets),
    ensures
        all_clean(cfg.stored(buckets, item, place)),
{
    let after = cfg.stored(buckets, item, place);
    lemma_index_in_range(cfg, buckets, place);
    lemma_placed(cfg, buckets[place as int], item);
    assert forall|i: int, s: int|
        0 <= i < after.len() && 0 <= s < after[i].len() && after[i][s].fingerprint
            == 0 implies #[trigger] after[i][s] == slot::empty_slot() by {
        assert(after[i][s] == buckets[i][s]);
    }
}

/// Kicking leaves empty slots clean.
proof fn lemma_kicks_clean(
    cfg: CuckooConfiguration,
    hashes: spec_fn(u32, u64) -> bool,
    kicks: nat,
    keep: u32,
    buckets: Seq<Seq<SlotView>>,
    item: SlotView,
    place: u32,
    after: Seq<Seq<SlotView>>,
    evicted: Option<u32>,
)
    requires
        cfg.shapes(buckets),
        cfg.is_index(place),
        cfg.kicks(hashes, kicks, keep, buckets, item, place, after, evicted),
        forall|t: int|
            0 <= t < buckets[place as int].len() ==> #[trigger] buckets[place as int][t].fingerprint
                != 0,
        item.fingerprint != 0,
        all_clean(buckets),
    ensures
        all_clean(after),
    decreases kicks,
{
    if kicks == 0 || (cfg.lru_field_config is Some && forall|victim: int|
        !bucket::is_lru_victim(buckets[place as int], item.lru, victim)) {
    } else {
        let (victim, next) = choose|victim: int, next: u32|
            #![trigger cfg.kick_step(hashes, keep, buckets, item, place, victim, next)]
            {
                let out = buckets[place as int][victim];
                let kicked = cfg.kicked(buckets, item, place, victim);
                &&& cfg.kick_step(hashes, keep, buckets, item, place, victim, next)
                &&& if bucket::has_room(kicked[next as int], out.fingerprint) {
                    after == cfg.stored(kicked, out, next) && evicted is None
                } else {
                    cfg.kicks(
                        hashes,
                        (kicks - 1) as nat,
                        keep,
                        kicked,
                        out,
                        next,
                        after,
                        evicted,
                    )
                }
            };
        let out = buckets[place as int][victim];
        let kicked = cfg.kicked(buckets, item, place, victim);
        lemma_index_in_range(cfg, buckets, place);
        lemma_alternate_is_index(cfg, hashes, out.fingerprint, place, next);
        assert(out.fingerprint != 0);
        assert forall|i: int, s: int|
            0 <= i < kicked.len() && 0 <= s < kicked[i].len() && kicked[i][s].fingerprint
                == 0 implies #[trigger] kicked[i][s] == slot::empty_slot() by {
            assert(kicked[i][s] == buckets[i][s]);
        }
        if bucket::has_room(kicked[next as int], out.fingerprint) {
            lemma_stored_clean(cfg, kicked, out, next);
        } else {
            lemma_no_room(kicked[next as int], out.fingerprint);
            lemma_kicks_clean(
                cfg,
                hashes,
                (kicks - 1) as nat,
                keep,
                kicked,
                out,
                next,
                after,
                evicted,
            );
        }
    }
}

/// Storing an item in one of its buckets, with kicks if both are full, leaves empty slots clean.
proof fn lemma_stores_clean(
    cfg: CuckooConfiguration,
    hashes: spec_fn(u32, u64) -> bool,
    buckets: Seq<Seq<SlotView>>,
    item: SlotView,
    first: u32,
    second: u32,
    start: u32,
    after: Seq<Seq<SlotView>>,
    evicted: Option<u32>,
)
    requires
        cfg.shapes(buckets),
        cfg.is_index(first),
        cfg.is_alternate(hashes, item.fingerprint, first, second),
        start == first || start == second,
        cfg.stores(hashes, buckets, item, first, second, start, after, evicted),
        item.fingerprint != 0,
        all_clean(buckets),
    ensures
        all_clean(after),
{
    lemma_alternate_is_index(cfg, hashes, item.fingerprint, first, second);
    if bucket::has_room(buckets[first as int], item.fingerprint) {
        lemma_stored_clean(cfg, buckets, item, first);
    } else if bucket::has_room(buckets[second as int], item.fingerprint) {
        lemma_stored_clean(cfg, buckets, item, second);
    } else {
        lemma_no_room(buckets[first as int], item.fingerprint);
        lemma_no_room(buckets[second as int], item.fingerprint);
        lemma_kicks_clean(
            cfg,
            hashes,
            cfg.max_kicks as nat,
            item.fingerprint,
            buckets,
            item,
            start,
            after,
            evicted,
        );
    }
}

/// A lookup in a bucket leaves empty slots clean.
proof fn lemma_looked_up_in_clean(
    cfg: CuckooConfiguration,
    buckets: Seq<Seq<SlotView>>,
    fingerprint: u32,
    place: u32,
    update: LookupValues,
)
    requires
        cfg.shapes(buckets),
        cfg.is_index(place),
        fingerprint != 0,
        all_clean(buckets),
    ensures
        all_clean(cfg.looked_up_in(buckets, fingerprint, place, update)),
{
    let after = cfg.looked_up_in(buckets, fingerprint, place, update);
    lemma_index_in_range(cfg, buckets, place);
    lemma_first_match(buckets[place as int], fingerprint, false, 0);
    assert forall|i: int, s: int|
        0 <= i < after.len() && 0 <= s < after[i].len() && after[i][s].fingerprint
            == 0 implies #[trigger] after[i][s] == slot::empty_slot() by {
        assert(after[i][s] == buckets[i][s]);
    }
}

/// An insertion leaves empty slots clean.
pub proof fn law_insert_keeps_clean(
    cfg: CuckooConfiguration,
    hashes: spec_fn(u32, u64) -> bool,
    buckets: Seq<Seq<SlotView>>,
    item: SlotView,
    first: u32,
    after: Seq<Seq<SlotView>>,
    evicted: Option<u32>,
)
    requires
        cfg.shapes(buckets),
        cfg.is_index(first),
        cfg.inserts(hashes, buckets, item, first, after, evicted) || cfg.inserts_if_not_present(
            hashes,
            buckets,
            item,
            first,
            after,
            evicted,
        ),
        item.fingerprint != 0,
        all_clean(buckets),
    ensures
        all_clean(after),
{
    let fingerprint = item.fingerprint;
    if cfg.inserts(hashes, buckets, item, first, after, evicted) {
        if bucket::has_room(buckets[first as int], fingerprint) {
            lemma_stored_clean(cfg, buckets, item, first);
        } else {
            let second = choose|second: u32|
                #![trigger cfg.is_alternate(hashes, fingerprint, first, second)]
                cfg.is_alternate(hashes, fingerprint, first, second) && cfg.stores(
                    hashes,
                    buckets,
                    item,
                    first,
                    second,
                    first,
                    after,
                    evicted,
                );
            lemma_stores_clean(cfg, hashes, buckets, item, first, second, first, after, evicted);
        }
    } else if bucket::holds(buckets[first as int], fingerprint) {
        lemma_looked_up_in_clean(cfg, buckets, fingerprint, first, placement::plain_lookup());
    } else {
        let second = choose|second: u32|
            #![trigger cfg.is_alternate(hashes, fingerprint, first, second)]
            cfg.is_alternate(hashes, fingerprint, first, second) && cfg.resolves(
                hashes,
                buckets,
                item,
                first,
                second,
                after,
                evicted,
            );
        lemma_alternate_is_index(cfg, hashes, fingerprint, first, second);
        if bucket::holds(buckets[second as int], fingerprint) {
            lemma_looked_up_in_clean(cfg, buckets, fingerprint, second, placement::plain_lookup());
        } else {
            let start = if cfg.stores(
                hashes,
                buckets,
                item,
                first,
                second,
                first,
                after,
                evicted,
            ) {
                first
            } else {
                second
            };
            lemma_stores_clean(cfg, hashes, buckets, item, first, second, start, after, evicted);
        }
    }
}

/// A lookup leaves empty slots clean.
pub proof fn law_lookup_keeps_clean(
    cfg: CuckooConfiguration,
    hashes: spec_fn(u32, u64) -> bool,
    buckets: Seq<Seq<SlotView>>,
    fingerprint: u32,
    first: u32,
    update: LookupValues,
    after: Seq<Seq<SlotView>>,
    found_in: Option<u32>,
)
    requires
        cfg.shapes(buckets),
        cfg.is_index(first),
        fingerprint != 0,
        cfg.looks_up(hashes, buckets, fingerprint, first, update, after, found_in),
        all_clean(buckets),
    ensures
        all_clean(after),
{
    if bucket::holds(buckets[first as int], fingerprint) {
        lemma_looked_up_in_clean(cfg, buckets, fingerprint, first, update);
    } else if let Some(second) = found_in {
        lemma_alternate_is_index(cfg, hashes, fingerprint, first, second);
        lemma_looked_up_in_clean(cfg, buckets, fingerprint, second, update);
    }
}

/// A removal leaves empty slots clean.
pub proof fn law_remove_keeps_clean(
    cfg: CuckooConfiguration,
    hashes: spec_fn(u32, u64) -> bool,
    buckets: Seq<Seq<SlotView>>,
    fingerprint: u32,
    first: u32,
    after: Seq<Seq<SlotView>>,
    found: bool,
)
    requires
        cfg.shapes(buckets),
        cfg.is_index(first),
        cfg.removes(hashes, buckets, fingerprint, first, after, found),
        all_clean(buckets),
    ensures
        all_clean(after),
{
    lemma_index_in_range(cfg, buckets, first);
    let place = if bucket::holds(buckets[first as int], fingerprint) {
        first
    } else {
        let second = choose|second: u32|
            #![trigger cfg.is_alternate(hashes, fingerprint, first, second)]
            {
                &&& cfg.is_alternate(hashes, fingerprint, first, second)
                &&& if bucket::holds(buckets[second as int], fingerprint) {
                    &&& found
                    &&& after == buckets.update(
                        second as int,
                        bucket::removed(buckets[second as int], fingerprint),
                    )
                } else {
                    !found && after == buckets
                }
            };
        lemma_alternate_is_index(cfg, hashes, fingerprint, first, second);
        second
    };
    lemma_index_in_range(cfg, buckets, place);
    lemma_first_match(buckets[place as int], fingerprint, false, 0);
    assert forall|i: int, s: int|
        0 <= i < after.len() && 0 <= s < after[i].len() && after[i][s].fingerprint
            == 0 implies #[trigger] after[i][s] == slot::empty_slot() by {
        if after[i][s] != slot::empty_slot() {
            assert(after[i][s] == buckets[i][s]);
        }
    }
}

/// A scan leaves a clean empty slot as it is.
pub proof fn law_scan_keeps_empty_slots(cfg: CuckooConfiguration)
    ensures
        cfg.scanned(slot::empty_slot()) == slot::empty_slot(),
        cfg.lru_aged(slot::empty_slot()) == slot::empty_slot(),
        cfg.ttl_aged(slot::empty_slot()) == slot::empty_slot(),
{
}

/// Storing an item in an empty slot and removing it again restores the bucket.
proof fn lemma_placed_and_removed(cfg: CuckooConfiguration, slots: Seq<SlotView>, item: SlotView)
    requires
        bucket::has_room(slots, item.fingerprint),
        !bucket::holds(slots, item.fingerprint),
        forall|s: int|
            0 <= s < slots.len() && slots[s].fingerprint == 0 ==> #[trigger] slots[s]
                == slot::empty_slot(),
    ensures
        bucket::holds(cfg.placed(slots, item), item.fingerprint),
        bucket::removed(cfg.placed(slots, item), item.fingerprint) == slots,
{
    let fingerprint = item.fingerprint;
    let stored = cfg.placed(slots, item);
    let index = bucket::first_match(slots, fingerprint, true, 0);
    lemma_placed(cfg, slots, item);
    lemma_holds(slots, fingerprint);
    assert(slots[index].fingerprint == 0);
    lemma_first_match(stored, fingerprint, false, 0);
    let found = bucket::first_match(stored, fingerprint, false, 0);
    assert(found == index) by {
        if found < index {
            assert(stored[found] == slots[found]);
        } else if found > index {
            assert(stored[index].fingerprint != fingerprint);
        }
    }
    assert(bucket::removed(stored, fingerprint) =~= slots);
}

/// Removal undoes an insertion: if neither bucket of an item holds it, and one of them has an empty
/// slot, then removing the item after it was inserted finds it and restores the filter.
pub proof fn law_remove_undoes_insert(
    cfg: CuckooConfiguration,
    hashes: spec_fn(u32, u64) -> bool,
    buckets: Seq<Seq<SlotView>>,
    item: SlotView,
    first: u32,
    place: u32,
    s: int,
    inserted: Seq<Seq<SlotView>>,
    evicted: Option<u32>,
    after: Seq<Seq<SlotView>>,
    found: bool,
)
    requires
        consistent(hashes),
        cfg.shapes(buckets),
        cfg.is_index(first),
        all_clean(buckets),
        !cfg.has_item(hashes, buckets, item.fingerprint, first),
        cfg.near(hashes, item.fingerprint, first, place),
        0 <= s < buckets[place as int].len(),
        buckets[place as int][s].fingerprint == 0,
        cfg.inserts(hashes, buckets, item, first, inserted, evicted),
        cfg.removes(hashes, inserted, item.fingerprint, first, after, found),
    ensures
        evicted is None,
        found,
        after == buckets,
{
    let fingerprint = item.fingerprint;
    assert(cfg.near(hashes, fingerprint, first, first));
    lemma_index_in_range(cfg, buckets, first);
    lemma_near_is_index(cfg, hashes, fingerprint, first, place);
    lemma_index_in_range(cfg, buckets, place);
    assert(!bucket::holds(buckets[first as int], fingerprint));
    assert(!bucket::holds(buckets[place as int], fingerprint));
    if bucket::has_room(buckets[first as int], fingerprint) {
        lemma_placed_and_removed(cfg, buckets[first as int], item);
        assert(after =~= buckets);
    } else {
        lemma_no_room(buckets[first as int], fingerprint);
        let second = choose|second: u32|
            #![trigger cfg.is_alternate(hashes, fingerprint, first, second)]
            cfg.is_alternate(hashes, fingerprint, first, second) && cfg.stores(
                hashes,
                buckets,
                item,
                first,
                second,
                first,
                inserted,
                evicted,
            );
        lemma_one_alternate(cfg, hashes, fingerprint, first, place, second);
        if !bucket::has_room(buckets[place as int], fingerprint) {
            lemma_no_room(buckets[place as int], fingerprint);
        }
        lemma_placed_and_removed(cfg, buckets[place as int], item);
        let again = choose|again: u32|
            #![trigger cfg.is_alternate(hashes, fingerprint, first, again)]
            {
                &&& cfg.is_alternate(hashes, fingerprint, first, again)
                &&& if bucket::holds(inserted[again as int], fingerprint) {
                    &&& found
                    &&& after == inserted.update(
                        again as int,
                        bucket::removed(inserted[again as int], fingerprint),
                    )
                } else {
                    !found && after == inserted
                }
            };
        lemma_one_alternate(cfg, hashes, fingerprint, first, place, again);
        assert(after =~= buckets);
    }
}

/// With consistent hashes an item has only one other bucket.
proof fn lemma_one_alternate(
    cfg: CuckooConfiguration,
    hashes: spec_fn(u32, u64) -> bool,
    fingerprint: u32,
    index: u32,
    a: u32,
    b: u32,
)
    requires
        consistent(hashes),
        cfg.is_alternate(hashes, fingerprint, index, a),
        cfg.is_alternate(hashes, fingerprint, index, b),
    ensures
        a == b,
{
    let x = choose|hash: u64| #[trigger]
        hashes(fingerprint, hash) && a == placement::alternate(cfg.mask(), hash, index);
    let y = choose|hash: u64| #[trigger]
        hashes(fingerprint, hash) && b == placement::alternate(cfg.mask(), hash, index);
    assert(x == y);
}

/// Two lookups of the same item in equal filters find the same and change the same.
pub proof fn law_lookups_agree(
    cfg: CuckooConfiguration,
    hashes: spec_fn(u32, u64) -> bool,
    buckets: Seq<Seq<SlotView>>,
    fingerprint: u32,
    first: u32,
    update: LookupValues,
    a: Seq<Seq<SlotView>>,
    found_a: Option<u32>,
    b: Seq<Seq<SlotView>>,
    found_b: Option<u32>,
)
    requires
        consistent(hashes),
        cfg.looks_up(hashes, buckets, fingerprint, first, update, a, found_a),
        cfg.looks_up(hashes, buckets, fingerprint, first, update, b, found_b),
    ensures
        a == b,
        found_a == found_b,
{
    if !bucket::holds(buckets[first as int], fingerprint) {
        let x = choose|second: u32|
            #![trigger cfg.is_alternate(hashes, fingerprint, first, second)]
            {
                &&& cfg.is_alternate(hashes, fingerprint, first, second)
                &&& if bucket::holds(buckets[second as int], fingerprint) {
                    &&& found_a == Some(second)
                    &&& a == cfg.looked_up_in(buckets, fingerprint, second, update)
                } else {
                    found_a is None && a == buckets
                }
            };
        let y = choose|second: u32|
            #![trigger cfg.is_alternate(hashes, fingerprint, first, second)]
            {
                &&& cfg.is_alternate(hashes, fingerprint, first, second)
                &&& if bucket::holds(buckets[second as int], fingerprint) {
                    &&& found_b == Some(second)
                    &&& b == cfg.looked_up_in(buckets, fingerprint, second, update)
                } else {
                    found_b is None && b == buckets
                }
            };
        lemma_one_alternate(cfg, hashes, fingerprint, first, x, y);
    }
}

/// Lookups of the same fingerprint in a bucket change the same bytes. `Bucket::contains` and
/// `Bucket::get_associated_data` are such lookups.
pub proof fn law_bucket_lookups_agree(
    cfg: CuckooConfiguration,
    before: Seq<u8>,
    fingerprint: u32,
    update: LookupValues,
    a: Seq<u8>,
    b: Seq<u8>,
)
    requires
        cfg.inv(),
        a.len() == cfg.bucket_len(),
        b.len() == cfg.bucket_len(),
        cfg.slots(a) == cfg.found(cfg.slots(before), fingerprint, update),
        cfg.slots(b) == cfg.found(cfg.slots(before), fingerprint, update),
    ensures
        a == b,
{
    bucket::lemma_slots_determine_bytes(cfg, a, b);
}

/// The slots of a bucket say all there is to know of its bytes.
pub proof fn law_slots_determine_bucket_bytes(cfg: CuckooConfiguration, a: Seq<u8>, b: Seq<u8>)
    requires
        cfg.inv(),
        a.len() == cfg.bucket_len(),
        b.len() == cfg.bucket_len(),
        cfg.slots(a) == cfg.slots(b),
    ensures
        a == b,
{
    bucket::lemma_slots_determine_bytes(cfg, a, b);
}

/// The numbers of a slot say all there is to know of its bytes.
pub proof fn law_slot_determines_bytes(cfg: CuckooConfiguration, a: Seq<u8>, b: Seq<u8>)
    requires
        cfg.inv(),
        a.len() == b.len(),
        a.len() >= cfg.block_len(),
        cfg.slot(a) == cfg.slot(b),
    ensures
        a == b,
{
    slot::lemma_slot_determines_bytes(cfg, a, b);
}

} // verus!
