//! Where items are placed: how hashes choose buckets, and how insertions move items between them.
use crate::bucket;
use crate::bucket::{InsertValues, LookupValues};
use crate::config::CuckooConfiguration;
use crate::data_block::Fingerprint;
use crate::slot::SlotView;
use vstd::prelude::*;

verus! {

/// A lookup that changes nothing but what the configuration says.
pub open spec fn plain_lookup() -> LookupValues {
    LookupValues { ttl: None, counter_diff: None }
}

/// An insertion that stores nothing but what the configuration says.
pub open spec fn plain_insert() -> InsertValues {
    InsertValues { ttl: None, counter: None }
}

/// The index of the other bucket of an item.
pub open spec fn alternate(mask: u32, hash: u64, index: u32) -> u32 {
    (index ^ ((hash as u32) & mask)) & mask
}

impl CuckooConfiguration {
    /// The mask of bucket indexes.
    pub open(crate) spec fn mask(self) -> u32 {
        self.buckets_mask
    }

    /// The fingerprint of an item with the given hash.
    pub open spec fn hash_fingerprint(self, hash: u64) -> u32 {
        Fingerprint::of_hash((hash >> 32) as u32, self.fingerprint_max())
    }

    /// The index of the first bucket of an item with the given hash.
    pub open spec fn hash_index(self, hash: u64) -> u32 {
        (hash as u32) & self.mask()
    }

    /// Whether bucket `other` is the other bucket of a fingerprint in bucket `index`. `hashes` says
    /// which numbers can be the hash of a fingerprint.
    pub open spec fn is_alternate(
        self,
        hashes: spec_fn(u32, u64) -> bool,
        fingerprint: u32,
        index: u32,
        other: u32,
    ) -> bool {
        exists|hash: u64| #[trigger]
            hashes(fingerprint, hash) && other == alternate(self.mask(), hash, index)
    }

    /// Whether `victim` is the slot of bucket `index` that is kicked for an item, and `next` the
    /// bucket that the kicked item goes to.
    pub open(crate) spec fn kick_step(
        self,
        hashes: spec_fn(u32, u64) -> bool,
        keep: u32,
        buckets: Seq<Seq<SlotView>>,
        item: SlotView,
        index: u32,
        victim: int,
        next: u32,
    ) -> bool {
        let slots = buckets[index as int];
        &&& 0 <= victim < slots.len()
        &&& if self.lru_field_config is Some {
            bucket::is_lru_victim(slots, item.lru, victim)
        } else {
            exists|start: int|
                0 <= start < slots.len() && victim == #[trigger] bucket::random_victim(
                    slots,
                    keep,
                    start,
                    0,
                )
        }
        &&& self.is_alternate(hashes, slots[victim].fingerprint, index, next)
    }

    /// The buckets after the item in slot `victim` of bucket `index` was exchanged with the given
    /// one.
    pub open spec fn kicked(
        self,
        buckets: Seq<Seq<SlotView>>,
        item: SlotView,
        index: u32,
        victim: int,
    ) -> Seq<Seq<SlotView>> {
        buckets.update(index as int, buckets[index as int].update(victim, item))
    }

    /// The buckets after an item was stored in a bucket that has room for it.
    pub open(crate) spec fn stored(
        self,
        buckets: Seq<Seq<SlotView>>,
        item: SlotView,
        index: u32,
    ) -> Seq<Seq<SlotView>> {
        buckets.update(index as int, self.placed(buckets[index as int], item))
    }

    /// Whether kicking, with at most `kicks` kicks left and with `item` to go into the full bucket
    /// `index`, can end with the buckets `after` and with `evicted` lost.
    ///
    /// With LRU, kicking ends without a kick if every item of the bucket is used more. A kicked
    /// item is stored in its other bucket if that has room for it, and else is the next to go
    /// there.
    pub open(crate) spec fn kicks(
        self,
        hashes: spec_fn(u32, u64) -> bool,
        kicks: nat,
        keep: u32,
        buckets: Seq<Seq<SlotView>>,
        item: SlotView,
        index: u32,
        after: Seq<Seq<SlotView>>,
        evicted: Option<u32>,
    ) -> bool
        decreases kicks,
    {
        if kicks == 0 || (self.lru_field_config is Some && forall|victim: int|
            !bucket::is_lru_victim(buckets[index as int], item.lru, victim)) {
            after == buckets && evicted == Some(item.fingerprint)
        } else {
            exists|victim: int, next: u32|
                #![trigger self.kick_step(hashes, keep, buckets, item, index, victim, next)]
                {
                    let out = buckets[index as int][victim];
                    let kicked = self.kicked(buckets, item, index, victim);
                    &&& self.kick_step(hashes, keep, buckets, item, index, victim, next)
                    &&& if bucket::has_room(kicked[next as int], out.fingerprint) {
                        after == self.stored(kicked, out, next) && evicted is None
                    } else {
                        self.kicks(
                            hashes,
                            (kicks - 1) as nat,
                            keep,
                            kicked,
                            out,
                            next,
                            after,
                            evicted,
                        )
                    }
                }
        }
    }

    /// Whether storing an item in one of its two buckets, with kicks from bucket `start` if both
    /// are full, can end with the buckets `after` and with `evicted` lost.
    pub open(crate) spec fn stores(
        self,
        hashes: spec_fn(u32, u64) -> bool,
        buckets: Seq<Seq<SlotView>>,
        item: SlotView,
        first: u32,
        second: u32,
        start: u32,
        after: Seq<Seq<SlotView>>,
        evicted: Option<u32>,
    ) -> bool {
        if bucket::has_room(buckets[first as int], item.fingerprint) {
            after == self.stored(buckets, item, first) && evicted is None
        } else if bucket::has_room(buckets[second as int], item.fingerprint) {
            after == self.stored(buckets, item, second) && evicted is None
        } else {
            self.kicks(
                hashes,
                self.max_kicks as nat,
                item.fingerprint,
                buckets,
                item,
                start,
                after,
                evicted,
            )
        }
    }

    /// Whether inserting an item with the first bucket `first` can end with the buckets `after` and
    /// with `evicted` lost.
    pub open(crate) spec fn inserts(
        self,
        hashes: spec_fn(u32, u64) -> bool,
        buckets: Seq<Seq<SlotView>>,
        item: SlotView,
        first: u32,
        after: Seq<Seq<SlotView>>,
        evicted: Option<u32>,
    ) -> bool {
        if bucket::has_room(buckets[first as int], item.fingerprint) {
            after == self.stored(buckets, item, first) && evicted is None
        } else {
            exists|second: u32|
                #![trigger self.is_alternate(hashes, item.fingerprint, first, second)]
                {
                    &&& self.is_alternate(hashes, item.fingerprint, first, second)
                    &&& self.stores(hashes, buckets, item, first, second, first, after, evicted)
                }
        }
    }

    /// Whether inserting an item that its first bucket does not hold, unless its second bucket holds
    /// it, can end with the buckets `after` and with `evicted` lost. Kicks start from either bucket.
    pub open(crate) spec fn resolves(
        self,
        hashes: spec_fn(u32, u64) -> bool,
        buckets: Seq<Seq<SlotView>>,
        item: SlotView,
        first: u32,
        second: u32,
        after: Seq<Seq<SlotView>>,
        evicted: Option<u32>,
    ) -> bool {
        if bucket::holds(buckets[second as int], item.fingerprint) {
            after == self.looked_up_in(buckets, item.fingerprint, second, plain_lookup())
                && evicted is None
        } else {
            self.stores(hashes, buckets, item, first, second, first, after, evicted)
                || self.stores(hashes, buckets, item, first, second, second, after, evicted)
        }
    }

    /// Whether inserting an item with the first bucket `first`, unless the filter contains it, can
    /// end with the buckets `after` and with `evicted` lost.
    pub open(crate) spec fn inserts_if_not_present(
        self,
        hashes: spec_fn(u32, u64) -> bool,
        buckets: Seq<Seq<SlotView>>,
        item: SlotView,
        first: u32,
        after: Seq<Seq<SlotView>>,
        evicted: Option<u32>,
    ) -> bool {
        if bucket::holds(buckets[first as int], item.fingerprint) {
            after == self.looked_up_in(buckets, item.fingerprint, first, plain_lookup())
                && evicted is None
        } else {
            exists|second: u32|
                #![trigger self.is_alternate(hashes, item.fingerprint, first, second)]
                {
                    &&& self.is_alternate(hashes, item.fingerprint, first, second)
                    &&& self.resolves(hashes, buckets, item, first, second, after, evicted)
                }
        }
    }

    /// The buckets after a lookup of a fingerprint in one of them.
    pub open(crate) spec fn looked_up_in(
        self,
        buckets: Seq<Seq<SlotView>>,
        fingerprint: u32,
        index: u32,
        update: LookupValues,
    ) -> Seq<Seq<SlotView>> {
        buckets.update(index as int, self.found(buckets[index as int], fingerprint, update))
    }

    /// Whether a lookup of a fingerprint with the first bucket `first` can end with the buckets
    /// `after`. `found_in` is the bucket that the fingerprint was found in, if any.
    pub open(crate) spec fn looks_up(
        self,
        hashes: spec_fn(u32, u64) -> bool,
        buckets: Seq<Seq<SlotView>>,
        fingerprint: u32,
        first: u32,
        update: LookupValues,
        after: Seq<Seq<SlotView>>,
        found_in: Option<u32>,
    ) -> bool {
        if bucket::holds(buckets[first as int], fingerprint) {
            &&& found_in == Some(first)
            &&& after == self.looked_up_in(buckets, fingerprint, first, update)
        } else {
            exists|second: u32|
                #![trigger self.is_alternate(hashes, fingerprint, first, second)]
                {
                    &&& self.is_alternate(hashes, fingerprint, first, second)
                    &&& if bucket::holds(buckets[second as int], fingerprint) {
                        &&& found_in == Some(second)
                        &&& after == self.looked_up_in(
                            buckets,
                            fingerprint,
                            second,
                            update,
                        )
                    } else {
                        found_in is None && after == buckets
                    }
                }
        }
    }

    /// Whether removing a fingerprint with the first bucket `first` can end with the buckets
    /// `after`. `found` says whether the fingerprint was there.
    pub open(crate) spec fn removes(
        self,
        hashes: spec_fn(u32, u64) -> bool,
        buckets: Seq<Seq<SlotView>>,
        fingerprint: u32,
        first: u32,
        after: Seq<Seq<SlotView>>,
        found: bool,
    ) -> bool {
        if bucket::holds(buckets[first as int], fingerprint) {
            &&& found
            &&& after == buckets.update(
                first as int,
                bucket::removed(buckets[first as int], fingerprint),
            )
        } else {
            exists|second: u32|
                #![trigger self.is_alternate(hashes, fingerprint, first, second)]
                {
                    &&& self.is_alternate(hashes, fingerprint, first, second)
                    &&& if bucket::holds(buckets[second as int], fingerprint) {
                        &&& found
                        &&& after == buckets.update(
                            second as int,
                            bucket::removed(buckets[second as int], fingerprint),
                        )
                    } else {
                        !found && after == buckets
                    }
                }
        }
    }
}

} // verus!
