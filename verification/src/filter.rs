//! The cuckoo filter.
use crate::associated_data::AssociatedData;
use crate::bits;
use crate::bucket;
use crate::bucket::{Bucket, InsertValues, LookupValues};
use crate::bytes::ByteReader;
use crate::config::{CuckooConfiguration, CuckooConfigurationBuilder};
use crate::data_block;
use crate::data_block::{DataBlock, Fingerprint};
use crate::exporter;
use crate::exporter::{
    end_of_input, read_hasher_from, CuckooFilterExporter, Exportable, ExportableBuildHasher,
    ExportableRandomState, Fault, ImportError,
};
use crate::hashing;
use crate::hashing::{hash_of, new_random_state};
use crate::placement;
use crate::random::random_bool;
use crate::slot;
use crate::slot::SlotView;
use std::hash::{BuildHasher, Hash, RandomState};
use vstd::prelude::*;

verus! {

/// Cuckoo filter, with support for TTL, LRU and custom counters associated with the stored data.
pub struct CuckooFilter<H: BuildHasher> {
    configuration: CuckooConfiguration,
    buckets: Vec<Bucket>,
    build_hasher: H,
}

impl CuckooFilter<RandomState> {
    /// Creates a new instance of [`CuckooFilter`], using [`RandomState`] as its [`BuildHasher`].
    ///
    /// # Panics
    ///
    /// Panics if allocation of buckets fails (if too much memory was requested).
    #[must_use]
    pub fn new_random(configuration: CuckooConfiguration) -> (filter: Self)
        ensures
            filter.wf(),
            filter.config() == configuration,
            filter.is_blank(),
            filter.is_zero(),
    {
        Self::new(configuration, new_random_state())
    }
}

/// The numbers of optional fingerprints.
pub open spec fn optional_fingerprint(fingerprint: Option<Fingerprint>) -> Option<u32> {
    match fingerprint {
        Some(fingerprint) => Some(fingerprint@),
        None => None,
    }
}

impl<H: BuildHasher> CuckooFilter<H> {
    /// The configuration of the filter.
    pub closed spec fn config(&self) -> CuckooConfiguration {
        self.configuration
    }

    /// The hasher of the filter.
    pub closed spec fn hasher(&self) -> H {
        self.build_hasher
    }

    /// The slots of the buckets of the filter.
    pub closed spec fn view(&self) -> Seq<Seq<SlotView>> {
        Seq::new(self.buckets@.len(), |i: int| self.buckets@[i].slots(self.configuration))
    }

    /// The bytes of the buckets of the filter.
    pub closed spec fn bytes(&self) -> Seq<Seq<u8>> {
        Seq::new(self.buckets@.len(), |i: int| self.buckets@[i]@)
    }

    /// The filter has the buckets that its configuration says.
    pub closed spec fn wf(&self) -> bool {
        &&& self.configuration.inv()
        &&& self.buckets@.len() == self.configuration.bucket_count
        &&& forall|i: int|
            0 <= i < self.buckets@.len() ==> #[trigger] self.buckets@[i].wf(self.configuration)
    }

    /// Which numbers can be the hash of a fingerprint in this filter.
    pub open(crate) spec fn hashes(&self) -> spec_fn(u32, u64) -> bool {
        hashing::fingerprint_hashes(self.hasher())
    }

    /// Whether nothing is stored in the filter.
    pub open spec fn is_blank(&self) -> bool {
        forall|i: int, j: int|
            0 <= i < self@.len() && 0 <= j < self@[i].len() ==> #[trigger] self@[i][j]
                == slot::empty_slot()
    }

    /// Whether the filter is still set up like another one: same configuration, same hasher.
    pub open spec fn same_setup(&self, other: &Self) -> bool {
        self.config() == other.config() && self.hasher() == other.hasher()
    }

    /// Whether a number can be the fingerprint of a key in this filter.
    pub open spec fn has_fingerprint<K: Hash + ?Sized>(&self, key: &K, fingerprint: u32) -> bool {
        exists|hash: u64| #[trigger]
            hashing::hashes_to(self.hasher(), key, hash) && fingerprint
                == self.config().hash_fingerprint(hash)
    }

    /// Whether inserting a key can end with the filter `after` and with `evicted` lost.
    pub open(crate) spec fn inserts_key<K: Hash + ?Sized>(
        &self,
        key: &K,
        after: &Self,
        evicted: Option<u32>,
    ) -> bool {
        exists|hash: u64| #[trigger]
            hashing::hashes_to(self.hasher(), key, hash) && self.config().inserts(
                self.hashes(),
                self@,
                self.config().new_slot(
                    self.config().hash_fingerprint(hash),
                    placement::plain_insert(),
                ),
                self.config().hash_index(hash),
                after@,
                evicted,
            )
    }

    /// Whether inserting a key, unless the filter contains it, can end with the filter `after` and
    /// with `evicted` lost.
    pub open(crate) spec fn inserts_key_if_not_present<K: Hash + ?Sized>(
        &self,
        key: &K,
        after: &Self,
        evicted: Option<u32>,
    ) -> bool {
        exists|hash: u64| #[trigger]
            hashing::hashes_to(self.hasher(), key, hash) && self.config().inserts_if_not_present(
                self.hashes(),
                self@,
                self.config().new_slot(
                    self.config().hash_fingerprint(hash),
                    placement::plain_insert(),
                ),
                self.config().hash_index(hash),
                after@,
                evicted,
            )
    }

    /// Whether a lookup of a key with the given hash can end with the filter `after`. `found_in` is
    /// the bucket that the key was found in, if any.
    pub open(crate) spec fn looks_up_hash<K: Hash + ?Sized>(
        &self,
        key: &K,
        after: &Self,
        hash: u64,
        found_in: Option<u32>,
    ) -> bool {
        hashing::hashes_to(self.hasher(), key, hash) && self.config().looks_up(
            self.hashes(),
            self@,
            self.config().hash_fingerprint(hash),
            self.config().hash_index(hash),
            placement::plain_lookup(),
            after@,
            found_in,
        )
    }

    /// Whether a lookup of a key can end with the filter `after`. `found` says whether the key was
    /// found.
    pub open(crate) spec fn looks_up_key<K: Hash + ?Sized>(
        &self,
        key: &K,
        after: &Self,
        found: bool,
    ) -> bool {
        exists|hash: u64, found_in: Option<u32>| #[trigger]
            self.looks_up_hash(key, after, hash, found_in) && found == found_in is Some
    }

    /// Whether removing a key can end with the filter `after`. `found` says whether the key was
    /// there.
    pub open(crate) spec fn removes_key<K: Hash + ?Sized>(
        &self,
        key: &K,
        after: &Self,
        found: bool,
    ) -> bool {
        exists|hash: u64| #[trigger]
            hashing::hashes_to(self.hasher(), key, hash) && self.config().removes(
                self.hashes(),
                self@,
                self.config().hash_fingerprint(hash),
                self.config().hash_index(hash),
                after@,
                found,
            )
    }

    /// The bytes of slot `j` of bucket `i`.
    pub open(crate) spec fn slot_bytes(&self, i: int, j: int) -> Seq<u8> {
        bucket::block_at(self.bytes()[i], self.config().block_len(), j)
    }

    /// Whether every byte of every bucket is 0.
    pub open(crate) spec fn is_zero(&self) -> bool {
        self.bytes() == Seq::new(
            self.config().bucket_total() as nat,
            |i: int| data_block::zero_block(self.config().bucket_len() as nat),
        )
    }

    /// Whether the bytes of the filter changed as its slots did: a bucket or a slot that is the same
    /// as before has the same bytes, and a slot that is empty in all its numbers has zero bytes.
    pub open(crate) spec fn bytes_follow(&self, before: &Self) -> bool {
        &&& self.bytes().len() == before.bytes().len()
        &&& self@ == before@ ==> self.bytes() == before.bytes()
        &&& forall|i: int|
            0 <= i < self@.len() && self@[i] == before@[i] ==> #[trigger] self.bytes()[i]
                == before.bytes()[i]
        &&& forall|i: int, j: int|
            0 <= i < self@.len() && 0 <= j < self@[i].len() && self@[i][j] == before@[i][j]
                ==> #[trigger] self.slot_bytes(i, j) == before.slot_bytes(i, j)
        &&& forall|i: int, j: int|
            0 <= i < self@.len() && 0 <= j < self@[i].len() && self@[i][j] == slot::empty_slot()
                ==> #[trigger] self.slot_bytes(i, j) == data_block::zero_block(
                self.config().block_len() as nat,
            )
    }

    /// Whether `after` differs from this filter only in that the first slot of bucket `place` that
    /// holds the fingerprint has zero bytes.
    pub open(crate) spec fn clears(&self, fingerprint: u32, place: u32, after: &Self) -> bool {
        let index = bucket::first_match(self@[place as int], fingerprint, false, 0);
        &&& bucket::holds(self@[place as int], fingerprint)
        &&& after.bytes() == self.bytes().update(
            place as int,
            bucket::with_block(
                self.bytes()[place as int],
                self.config().block_len(),
                index,
                data_block::zero_block(self.config().block_len() as nat),
            ),
        )
    }

    /// Whether removing a fingerprint with the first bucket `first` clears one slot that holds it: in
    /// its first bucket if that holds it, and else in its second one.
    pub open(crate) spec fn clears_one(&self, fingerprint: u32, first: u32, after: &Self) -> bool {
        if bucket::holds(self@[first as int], fingerprint) {
            self.clears(fingerprint, first, after)
        } else {
            exists|second: u32| #[trigger]
                self.config().is_alternate(self.hashes(), fingerprint, first, second)
                    && self.clears(fingerprint, second, after)
        }
    }

    /// Whether `after` is this filter with every LRU counter aged.
    pub open(crate) spec fn scans_lru(&self, after: &Self) -> bool {
        &&& same_shape(self@, after@)
        &&& forall|i: int, j: int|
            0 <= i < self@.len() && 0 <= j < self@[i].len() ==> #[trigger] after@[i][j]
                == self.config().lru_aged(self@[i][j])
    }

    /// Whether `after` is this filter with every TTL counter aged.
    pub open(crate) spec fn scans_ttl(&self, after: &Self) -> bool {
        &&& same_shape(self@, after@)
        &&& forall|i: int, j: int|
            0 <= i < self@.len() && 0 <= j < self@[i].len() ==> #[trigger] after@[i][j]
                == self.config().ttl_aged(self@[i][j])
    }

    /// Whether `after` is this filter with every LRU counter and then every TTL counter aged.
    pub open(crate) spec fn scans_full(&self, after: &Self) -> bool {
        &&& same_shape(self@, after@)
        &&& forall|i: int, j: int|
            0 <= i < self@.len() && 0 <= j < self@[i].len() ==> #[trigger] after@[i][j]
                == self.config().scanned(self@[i][j])
    }

    /// Creates a new instance of [`CuckooFilter`], using provided [`BuildHasher`].
    ///
    /// # Panics
    ///
    /// Panics if allocation of buckets fails (if too much memory was requested).
    pub fn new(configuration: CuckooConfiguration, build_hasher: H) -> (filter: Self)
        ensures
            filter.wf(),
            filter.config() == configuration,
            filter.hasher() == build_hasher,
            filter.is_blank(),
            filter.is_zero(),
    {
        proof {
            use_type_invariant(&configuration);
        }
        let mut buckets: Vec<Bucket> = Vec::new();
        let mut i: usize = 0;
        while i < configuration.bucket_count
            invariant
                i <= configuration.bucket_count,
                buckets@.len() == i,
                forall|j: int| 0 <= j < i ==> #[trigger] buckets@[j].wf(configuration),
                forall|j: int|
                    0 <= j < i ==> (#[trigger] buckets@[j])@ == data_block::zero_block(
                        configuration.bucket_len() as nat,
                    ),
                forall|j: int, k: int|
                    0 <= j < i && 0 <= k < configuration.bucket_size ==> #[trigger] buckets@[j].slots(
                        configuration,
                    )[k] == slot::empty_slot(),
            decreases configuration.bucket_count - i,
        {
            buckets.push(Bucket::new(&configuration));
            i = i + 1;
        }
        let filter = Self { configuration, buckets, build_hasher };
        assert(filter.bytes() =~= Seq::new(
            configuration.bucket_total() as nat,
            |i: int| data_block::zero_block(configuration.bucket_len() as nat),
        ));
        filter
    }

    /// Returns the actual bucket count for this [`CuckooFilter`].
    ///
    /// Bucket count is calculated as first next power of two of capacity / bucket_size.
    /// This means that the actual capacity of the filter is usually bigger than the requested
    /// capacity.
    pub fn get_bucket_count(&self) -> (count: usize)
        requires
            self.wf(),
        ensures
            count == self@.len(),
            count == self.config().bucket_total(),
    {
        self.configuration.bucket_count
    }

    /// Returns the configuration of this [`CuckooFilter`].
    pub fn get_configuration(&self) -> (configuration: &CuckooConfiguration)
        ensures
            *configuration == self.config(),
    {
        &self.configuration
    }

    /// Every bucket index that fits the mask is in range, and every bucket has slots.
    pub proof fn lemma_shape(&self)
        requires
            self.wf(),
        ensures
            self.config().inv(),
            self@.len() == self.config().bucket_total(),
            self.config().mask() < self@.len(),
            self.config().shapes(self@),
            forall|i: int| 0 <= i < self@.len() ==> #[trigger] self@[i].len() == self.config().slot_count(),
    {
    }

    /// The slots of the filter are what its bytes spell.
    pub(crate) proof fn lemma_bytes(&self)
        requires
            self.wf(),
        ensures
            self.bytes().len() == self.config().bucket_total(),
            forall|i: int|
                0 <= i < self.bytes().len() ==> (#[trigger] self.bytes()[i]).len()
                    == self.config().bucket_len(),
            self@ == Seq::new(
                self.bytes().len(),
                |i: int| self.config().slots(self.bytes()[i]),
            ),
    {
        assert forall|i: int| 0 <= i < self.bytes().len() implies (
        #[trigger] self.bytes()[i]).len() == self.config().bucket_len() by {
            assert(self.buckets@[i].wf(self.configuration));
        }
        assert(self@ =~= Seq::new(
            self.bytes().len(),
            |i: int| self.config().slots(self.bytes()[i]),
        ));
    }

    /// The bytes of a filter change as its slots do.
    pub(crate) proof fn lemma_bytes_follow(&self, before: &Self)
        requires
            self.wf(),
            before.wf(),
            self.same_setup(before),
        ensures
            self.bytes_follow(before),
    {
        let cfg = self.configuration;
        let size = cfg.data_block_size as int;
        self.lemma_bytes();
        before.lemma_bytes();
        assert forall|i: int| 0 <= i < self@.len() && self@[i] == before@[i] implies #[trigger]
            self.bytes()[i] == before.bytes()[i] by {
            bucket::lemma_slots_determine_bytes(cfg, self.bytes()[i], before.bytes()[i]);
        }
        if self@ == before@ {
            assert(self.bytes() =~= before.bytes());
        }
        assert forall|i: int, j: int|
            0 <= i < self@.len() && 0 <= j < self@[i].len() && self@[i][j]
                == before@[i][j] implies #[trigger] self.slot_bytes(i, j) == before.slot_bytes(
            i,
            j,
        ) by {
            bucket::lemma_slot_offset(cfg, j);
            slot::lemma_slot_determines_bytes(cfg, self.slot_bytes(i, j), before.slot_bytes(i, j));
        }
        let zero = data_block::zero_block(size as nat);
        slot::lemma_zero_slot(cfg, zero);
        assert forall|i: int, j: int|
            0 <= i < self@.len() && 0 <= j < self@[i].len() && self@[i][j]
                == slot::empty_slot() implies #[trigger] self.slot_bytes(i, j) == zero by {
            bucket::lemma_slot_offset(cfg, j);
            slot::lemma_slot_determines_bytes(cfg, self.slot_bytes(i, j), zero);
        }
    }

    fn new_data_block(&self, fp: &Fingerprint, values: &InsertValues) -> (block: DataBlock<Vec<u8>>)
        requires
            self.wf(),
        ensures
            block@.len() == self.configuration.block_len(),
            self.configuration.slot(block@) == self.configuration.new_slot(fp@, *values),
    {
        let configuration = self.configuration;
        let mut owned: DataBlock<Vec<u8>> = DataBlock(vec![0u8; configuration.data_block_size]);
        let mut block = owned.as_mut_block();
        proof {
            slot::lemma_zero_slot(configuration, block@);
        }
        let ghost before = block@;
        block.store_fingerprint(fp, &configuration);
        proof {
            slot::lemma_stored_fingerprint(
                configuration,
                before,
                block@,
                fp@ & configuration.fingerprint_max(),
            );
        }
        if let Some(ttl_config) = configuration.ttl_field_config() {
            let ghost before = block@;
            let ttl: u32 = match values.ttl {
                Some(ttl) => ttl,
                None => ttl_config.0.ttl.get(),
            };
            block.set_ttl(ttl_config, ttl);
            proof {
                slot::lemma_stored_ttl(
                    configuration,
                    *ttl_config,
                    before,
                    block@,
                    ttl & ttl_config.1.max(),
                );
            }
        }
        if let Some(counter_config) = configuration.counter_field_config() {
            let ghost before = block@;
            let diff: i32 = match values.counter {
                Some(counter) => counter,
                None => counter_config.0.change_on_insert,
            };
            block.update_counter(counter_config, diff);
            proof {
                slot::lemma_stored_counter(
                    configuration,
                    *counter_config,
                    before,
                    block@,
                    counter_config.1.value(block@),
                );
            }
        }
        if let Some(lru_config) = configuration.lru_field_config() {
            let ghost before = block@;
            block.start_lru_counter(lru_config);
            proof {
                slot::lemma_stored_lru(
                    configuration,
                    *lru_config,
                    before,
                    block@,
                    lru_config.1.value(block@),
                );
            }
        }
        owned
    }

    /// The fingerprint and the first bucket of an item with the given hash.
    fn fingerprint_and_index(&self, hash: u64) -> (result: (Fingerprint, u32))
        requires
            self.wf(),
        ensures
            result.0@ == self.config().hash_fingerprint(hash),
            result.0@ != 0,
            result.1 == self.config().hash_index(hash),
            result.1 < self@.len(),
            result.1 & self.config().mask() == result.1,
    {
        // Fingerprint bits over 32 are definitely an overkill
        // We can reduce number of hashes by using one hash as fingerprint and first index
        let fingerprint: u32 = #[verifier::truncate] ((hash >> 32) as u32);
        let low: u32 = #[verifier::truncate] (hash as u32);
        let mask: u32 = self.configuration.buckets_mask;
        proof {
            lemma_masked_index(low, mask);
        }
        (
            Fingerprint::new(
                fingerprint,
                self.configuration.fingerprint_field_config.value_mask(),
            ),
            low & mask,
        )
    }

    /// Generates the fingerprint and first index for the provided key.
    pub fn get_fingerprint_and_index<K: Hash + ?Sized>(&self, key: &K) -> (result: (
        Fingerprint,
        u32,
    ))
        requires
            self.wf(),
        ensures
            exists|hash: u64| #[trigger]
                hashing::hashes_to(self.hasher(), key, hash) && result.0@ == self.config().hash_fingerprint(
                    hash,
                ) && result.1 == self.config().hash_index(hash),
            result.0@ != 0,
            result.1 <= self.config().mask(),
    {
        let hash: u64 = hash_of(&self.build_hasher, key);
        let result = self.fingerprint_and_index(hash);
        proof {
            lemma_masked_index(hash as u32, self.configuration.buckets_mask);
            assert(hashing::hashes_to(self.hasher(), key, hash));
        }
        result
    }

    /// Generates the fingerprint for the provided key.
    pub fn get_fingerprint<K: Hash + ?Sized>(&self, key: &K) -> (fingerprint: Fingerprint)
        requires
            self.wf(),
        ensures
            self.has_fingerprint(key, fingerprint@),
    {
        self.get_fingerprint_and_index(key).0
    }

    /// The other bucket of a fingerprint in bucket `index`.
    pub fn alt_index(&self, fingerprint: &Fingerprint, index: u32) -> (other: u32)
        requires
            self.wf(),
        ensures
            self.config().is_alternate(self.hashes(), fingerprint@, index, other),
            other <= self.config().mask(),
            other & self.config().mask() == other,
    {
        let hash: u64 = hash_of(&self.build_hasher, fingerprint);
        let low: u32 = #[verifier::truncate] (hash as u32);
        let mask: u32 = self.configuration.buckets_mask;
        let other: u32 = (index ^ (low & mask)) & mask;
        proof {
            lemma_masked_index(index ^ (low & mask), mask);
            assert(*fingerprint == Fingerprint { data: fingerprint@ });
            assert(self.hashes()(fingerprint@, hash));
        }
        other
    }

    /// Stores an item in a bucket, if the bucket has room for it.
    fn insert_into(&mut self, index: u32, block: &DataBlock<Vec<u8>>) -> (inserted: bool)
        requires
            old(self).wf(),
            index < old(self)@.len(),
            block@.len() == old(self).configuration.block_len(),
        ensures
            final(self).wf(),
            final(self).same_setup(old(self)),
            ({
                let item = old(self).configuration.slot(block@);
                &&& inserted == bucket::has_room(old(self)@[index as int], item.fingerprint)
                &&& inserted ==> final(self)@ == old(self).configuration.stored(
                    old(self)@,
                    item,
                    index,
                )
                &&& !inserted ==> final(self)@ == old(self)@
            }),
    {
        let configuration = self.configuration;
        let inserted: bool = self.buckets[index as usize].insert(block, &configuration);
        proof {
            if inserted {
                assert(self@ =~= configuration.stored(
                    old(self)@,
                    configuration.slot(block@),
                    index,
                ));
            } else {
                assert(self@ =~= old(self)@);
            }
        }
        inserted
    }

    /// Moves items to their other buckets to make room for an item whose buckets are full, starting
    /// in bucket `start`.
    ///
    /// Returns the fingerprint of the item that no place was found for, if any.
    fn kick(&mut self, fp: &Fingerprint, block: DataBlock<Vec<u8>>, start: u32) -> (evicted: Option<
        Fingerprint,
    >)
        requires
            old(self).wf(),
            start < old(self)@.len(),
            block@.len() == old(self).configuration.block_len(),
            old(self).configuration.slot(block@).fingerprint == fp@,
        ensures
            final(self).wf(),
            final(self).same_setup(old(self)),
            old(self).configuration.kicks(
                old(self).hashes(),
                old(self).configuration.max_kicks as nat,
                fp@,
                old(self)@,
                old(self).configuration.slot(block@),
                start,
                final(self)@,
                optional_fingerprint(evicted),
            ),
    {
        let configuration = self.configuration;
        let ghost hashes = self.hashes();
        let ghost buckets = self@;
        let ghost item = configuration.slot(block@);
        let mut cur_block = block;
        let mut cur_index: u32 = start;
        let mut kicks: usize = configuration.max_kicks;
        while kicks > 0
            invariant
                self.wf(),
                self.same_setup(old(self)),
                self.configuration == configuration,
                configuration == old(self).configuration,
                hashes == old(self).hashes(),
                hashes == self.hashes(),
                buckets == old(self)@,
                item == configuration.slot(block@),
                cur_index < self@.len(),
                cur_block@.len() == configuration.data_block_size,
                forall|after: Seq<Seq<SlotView>>, evicted: Option<u32>| #[trigger]
                    configuration.kicks(
                        hashes,
                        kicks as nat,
                        fp@,
                        self@,
                        configuration.slot(cur_block@),
                        cur_index,
                        after,
                        evicted,
                    ) ==> configuration.kicks(
                        hashes,
                        configuration.max_kicks as nat,
                        fp@,
                        buckets,
                        item,
                        start,
                        after,
                        evicted,
                    ),
            decreases kicks,
        {
            let ghost before = self@;
            let ghost cur_item = configuration.slot(cur_block@);
            let ghost left = kicks as nat;
            let ghost from = cur_index;
            let ghost slots = before[from as int];
            let ghost mut victim: int = 0;
            if let Some(lru_config) = configuration.lru_field_config() {
                let kicked: bool = self.buckets[cur_index as usize].kick_lru(
                    &mut cur_block,
                    &configuration,
                    lru_config,
                );
                if !kicked {
                    proof {
                        assert(self@ =~= before);
                        assert(configuration.kicks(
                            hashes,
                            left,
                            fp@,
                            before,
                            cur_item,
                            from,
                            self@,
                            Some(cur_item.fingerprint),
                        ));
                    }
                    return Some(cur_block.get_fingerprint(&configuration));
                }
                proof {
                    victim = choose|victim: int| bucket::is_lru_victim(slots, cur_item.lru, victim);
                }
            } else {
                self.buckets[cur_index as usize].kick_random(&mut cur_block, &configuration, fp);
                proof {
                    let first = choose|first: int|
                        bucket::kicked_from(
                            slots,
                            cur_item,
                            fp@,
                            first,
                            self.buckets@[from as int].slots(configuration),
                            configuration.slot(cur_block@),
                        );
                    victim = bucket::random_victim(slots, fp@, first, 0);
                }
            }
            let ghost out = configuration.slot(cur_block@);
            let ghost kicked = configuration.kicked(before, cur_item, from, victim);
            proof {
                assert(self@ =~= kicked);
                assert(out == slots[victim]);
            }
            let cur_fp = cur_block.get_fingerprint(&configuration);
            cur_index = self.alt_index(&cur_fp, cur_index);
            kicks = kicks - 1;
            proof {
                assert(configuration.kick_step(
                    hashes,
                    fp@,
                    before,
                    cur_item,
                    from,
                    victim,
                    cur_index,
                ));
            }
            let inserted: bool = self.insert_into(cur_index, &cur_block);
            if inserted {
                // Found an alternative spot for evicted item, done with kicks
                proof {
                    assert(configuration.kicks(
                        hashes,
                        left,
                        fp@,
                        before,
                        cur_item,
                        from,
                        self@,
                        None,
                    ));
                }
                return None;
            }
            proof {
                assert forall|after: Seq<Seq<SlotView>>, evicted: Option<u32>| #[trigger]
                    configuration.kicks(
                        hashes,
                        kicks as nat,
                        fp@,
                        self@,
                        out,
                        cur_index,
                        after,
                        evicted,
                    ) implies configuration.kicks(
                    hashes,
                    left,
                    fp@,
                    before,
                    cur_item,
                    from,
                    after,
                    evicted,
                ) by {}
            }
        }
        proof {
            assert(configuration.kicks(
                hashes,
                0,
                fp@,
                self@,
                configuration.slot(cur_block@),
                cur_index,
                self@,
                Some(configuration.slot(cur_block@).fingerprint),
            ));
        }
        // Filter is full
        Some(cur_block.get_fingerprint(&configuration))
    }

    /// Inserts an item with the given hash, only if the filter doesn't contain it already. See
    /// [`CuckooFilter::insert_if_not_present`].
    pub fn insert_hash_if_not_present(&mut self, hash: u64, values: &InsertValues) -> (evicted:
        Option<Fingerprint>)
        requires
            old(self).wf(),
        ensures
            final(self).wf(),
            final(self).same_setup(old(self)),
            old(self).config().inserts_if_not_present(
                old(self).hashes(),
                old(self)@,
                old(self).config().new_slot(old(self).config().hash_fingerprint(hash), *values),
                old(self).config().hash_index(hash),
                final(self)@,
                optional_fingerprint(evicted),
            ),
            final(self).bytes_follow(old(self)),
    {
        let configuration = self.configuration;
        let (fp, i1) = self.fingerprint_and_index(hash);
        proof {
            lemma_own_fingerprint(configuration, hash);
        }
        let update = LookupValues::default();
        let evicted = if self.contains_in(i1, &fp, &update) {
            None
        } else {
            let i2: u32 = self.alt_index(&fp, i1);
            if self.contains_in(i2, &fp, &update) {
                None
            } else {
                let block = self.new_data_block(&fp, values);
                if self.insert_into(i1, &block) || self.insert_into(i2, &block) {
                    None
                } else {
                    let start: u32 = if random_bool() {
                        i1
                    } else {
                        i2
                    };
                    self.kick(&fp, block, start)
                }
            }
        };
        proof {
            self.lemma_bytes_follow(old(self));
        }
        evicted
    }

    /// Inserts a new item into the filter, only if the filter doesn't contain it already.
    ///
    /// This is slower than [`CuckooFilter::insert`], but it ensures that no duplicates are present
    /// in the filter. That can be useful when [`AssociatedData`] is used, to ensure consistent
    /// results.
    ///
    /// Returns fingerprint of the item that was evicted from the filter, if eviction had to take
    /// place to finalize the insertion. It is possible that the item that was just inserted gets
    /// evicted in the kicking process. That can be confirmed using [`Fingerprint::matches_key`].
    pub fn insert_if_not_present<K: Hash + ?Sized>(&mut self, key: &K) -> (evicted: Option<
        Fingerprint,
    >)
        requires
            old(self).wf(),
        ensures
            final(self).wf(),
            final(self).same_setup(old(self)),
            old(self).inserts_key_if_not_present(key, final(self), optional_fingerprint(evicted)),
            final(self).bytes_follow(old(self)),
    {
        let hash: u64 = hash_of(&self.build_hasher, key);
        let values = InsertValues::default();
        proof {
            assert(hashing::hashes_to(self.hasher(), key, hash));
            assert(values == placement::plain_insert());
        }
        self.insert_hash_if_not_present(hash, &values)
    }

    /// Inserts an item with the given hash. See [`CuckooFilter::insert`].
    pub fn insert_hash(&mut self, hash: u64, values: &InsertValues) -> (evicted: Option<
        Fingerprint,
    >)
        requires
            old(self).wf(),
        ensures
            final(self).wf(),
            final(self).same_setup(old(self)),
            old(self).config().inserts(
                old(self).hashes(),
                old(self)@,
                old(self).config().new_slot(old(self).config().hash_fingerprint(hash), *values),
                old(self).config().hash_index(hash),
                final(self)@,
                optional_fingerprint(evicted),
            ),
            final(self).bytes_follow(old(self)),
    {
        let configuration = self.configuration;
        let (fp, i1) = self.fingerprint_and_index(hash);
        proof {
            lemma_own_fingerprint(configuration, hash);
        }
        let block = self.new_data_block(&fp, values);
        let evicted = if self.insert_into(i1, &block) {
            None
        } else {
            let i2: u32 = self.alt_index(&fp, i1);
            if self.insert_into(i2, &block) {
                None
            } else {
                self.kick(&fp, block, i1)
            }
        };
        proof {
            self.lemma_bytes_follow(old(self));
        }
        evicted
    }

    /// Inserts a new item into the filter.
    ///
    /// If both target buckets for this item are full, random item is kicked out of one of these 2
    /// buckets and moved into its alternate bucket, starting a recursive kicking process, which
    /// stops once an empty slot is found in alternate bucket of a kicked item, or
    /// [`crate::config::CuckooConfigurationBuilder::max_kicks`] is reached.
    ///
    /// Returns fingerprint of the item that was evicted from the filter, if eviction had to take
    /// place to finalize the insertion. It is possible that the item that was just inserted gets
    /// evicted in the kicking process. That can be confirmed using [`Fingerprint::matches_key`].
    pub fn insert<K: Hash + ?Sized>(&mut self, key: &K) -> (evicted: Option<Fingerprint>)
        requires
            old(self).wf(),
        ensures
            final(self).wf(),
            final(self).same_setup(old(self)),
            old(self).inserts_key(key, final(self), optional_fingerprint(evicted)),
            final(self).bytes_follow(old(self)),
    {
        let hash: u64 = hash_of(&self.build_hasher, key);
        let values = InsertValues::default();
        proof {
            assert(hashing::hashes_to(self.hasher(), key, hash));
            assert(values == placement::plain_insert());
        }
        self.insert_hash(hash, &values)
    }

    /// Looks a fingerprint up in a bucket.
    fn contains_in(&mut self, index: u32, fp: &Fingerprint, update: &LookupValues) -> (contains:
        bool)
        requires
            old(self).wf(),
            index < old(self)@.len(),
        ensures
            final(self).wf(),
            final(self).same_setup(old(self)),
            contains == bucket::holds(old(self)@[index as int], fp@),
            contains ==> final(self)@ == old(self).configuration.looked_up_in(
                old(self)@,
                fp@,
                index,
                *update,
            ),
            !contains ==> final(self)@ == old(self)@,
    {
        let configuration = self.configuration;
        let contains: bool = self.buckets[index as usize].contains(fp, &configuration, update);
        proof {
            if contains {
                assert(self@ =~= configuration.looked_up_in(old(self)@, fp@, index, *update));
            } else {
                assert(self@ =~= old(self)@);
            }
        }
        contains
    }

    /// Checks if an item with the given hash is stored in the filter. See
    /// [`CuckooFilter::contains`].
    pub fn contains_hash(&mut self, hash: u64, update: &LookupValues) -> (contains: bool)
        requires
            old(self).wf(),
        ensures
            final(self).wf(),
            final(self).same_setup(old(self)),
            exists|found_in: Option<u32>| #[trigger]
                old(self).config().looks_up(
                    old(self).hashes(),
                    old(self)@,
                    old(self).config().hash_fingerprint(hash),
                    old(self).config().hash_index(hash),
                    *update,
                    final(self)@,
                    found_in,
                ) && contains == found_in is Some,
            final(self).bytes_follow(old(self)),
            !contains ==> final(self).bytes() == old(self).bytes(),
    {
        let configuration = self.configuration;
        let ghost hashes = self.hashes();
        let (fp, i1) = self.fingerprint_and_index(hash);
        if self.contains_in(i1, &fp, update) {
            proof {
                assert(configuration.looks_up(
                    hashes,
                    old(self)@,
                    fp@,
                    i1,
                    *update,
                    self@,
                    Some(i1),
                ));
                self.lemma_bytes_follow(old(self));
            }
            return true;
        }
        let i2: u32 = self.alt_index(&fp, i1);
        let contains: bool = self.contains_in(i2, &fp, update);
        proof {
            let found_in = if contains {
                Some(i2)
            } else {
                None
            };
            assert(configuration.looks_up(
                hashes,
                old(self)@,
                fp@,
                i1,
                *update,
                self@,
                found_in,
            ));
            self.lemma_bytes_follow(old(self));
        }
        contains
    }

    /// Check if this key is stored in the filter.
    ///
    /// Returns true if this key might be present in the filter. If false is returned, then the key
    /// is definitely not present.
    pub fn contains<K: Hash + ?Sized>(&mut self, key: &K) -> (contains: bool)
        requires
            old(self).wf(),
        ensures
            final(self).wf(),
            final(self).same_setup(old(self)),
            old(self).looks_up_key(key, final(self), contains),
            final(self).bytes_follow(old(self)),
            !contains ==> final(self).bytes() == old(self).bytes(),
    {
        let hash: u64 = hash_of(&self.build_hasher, key);
        let update = LookupValues::default();
        proof {
            assert(hashing::hashes_to(self.hasher(), key, hash));
            assert(update == placement::plain_lookup());
        }
        let contains: bool = self.contains_hash(hash, &update);
        proof {
            let config = old(self).config();
            let found_in = choose|found_in: Option<u32>| #[trigger]
                config.looks_up(
                    old(self).hashes(),
                    old(self)@,
                    config.hash_fingerprint(hash),
                    config.hash_index(hash),
                    update,
                    self@,
                    found_in,
                ) && contains == found_in is Some;
            assert(old(self).looks_up_hash(key, self, hash, found_in));
        }
        contains
    }

    /// Loads associated data of a fingerprint from a bucket.
    fn get_associated_data_in(
        &mut self,
        index: u32,
        fp: &Fingerprint,
        update: &LookupValues,
    ) -> (data: Option<AssociatedData>)
        requires
            old(self).wf(),
            index < old(self)@.len(),
        ensures
            final(self).wf(),
            final(self).same_setup(old(self)),
            data is Some == bucket::holds(old(self)@[index as int], fp@),
            data matches Some(data) ==> {
                &&& final(self)@ == old(self).configuration.looked_up_in(
                    old(self)@,
                    fp@,
                    index,
                    *update,
                )
                &&& data.config() == old(self).configuration
                &&& data.bytes().len() == old(self).configuration.block_len()
                &&& data.config().slot(data.bytes()) == old(self).configuration.accessed(
                    old(self)@[index as int][bucket::first_match(
                        old(self)@[index as int],
                        fp@,
                        false,
                        0,
                    )],
                    *update,
                )
            },
            data is None ==> final(self)@ == old(self)@,
    {
        let configuration = self.configuration;
        let data = self.buckets[index as usize].get_associated_data(fp, &configuration, update);
        proof {
            if data is Some {
                assert(self@ =~= configuration.looked_up_in(old(self)@, fp@, index, *update));
            } else {
                assert(self@ =~= old(self)@);
            }
        }
        data
    }

    /// Loads associated data of an item with the given hash. See
    /// [`CuckooFilter::get_associated_data`].
    pub fn get_associated_data_of_hash(&mut self, hash: u64, update: &LookupValues) -> (data:
        Option<AssociatedData>)
        requires
            old(self).wf(),
        ensures
            final(self).wf(),
            final(self).same_setup(old(self)),
            exists|found_in: Option<u32>| #[trigger]
                old(self).config().looks_up(
                    old(self).hashes(),
                    old(self)@,
                    old(self).config().hash_fingerprint(hash),
                    old(self).config().hash_index(hash),
                    *update,
                    final(self)@,
                    found_in,
                ) && old(self).gives_data(
                    old(self).config().hash_fingerprint(hash),
                    found_in,
                    *update,
                    data,
                ),
            final(self).bytes_follow(old(self)),
            data is None ==> final(self).bytes() == old(self).bytes(),
    {
        let configuration = self.configuration;
        let ghost hashes = self.hashes();
        let (fp, i1) = self.fingerprint_and_index(hash);
        let data = self.get_associated_data_in(i1, &fp, update);
        if data.is_some() {
            proof {
                assert(configuration.looks_up(
                    hashes,
                    old(self)@,
                    fp@,
                    i1,
                    *update,
                    self@,
                    Some(i1),
                ));
                self.lemma_bytes_follow(old(self));
            }
            return data;
        }
        let i2: u32 = self.alt_index(&fp, i1);
        let data = self.get_associated_data_in(i2, &fp, update);
        proof {
            let found_in = if data is Some {
                Some(i2)
            } else {
                None
            };
            assert(configuration.looks_up(
                hashes,
                old(self)@,
                fp@,
                i1,
                *update,
                self@,
                found_in,
            ));
            self.lemma_bytes_follow(old(self));
        }
        data
    }

    /// Whether `data` is a copy of what a lookup found in the first slot of bucket `found_in` that
    /// holds the fingerprint. The copy shows what the lookup has changed, except for the LRU
    /// counter, which it shows as it was before.
    pub open(crate) spec fn gives_data(
        &self,
        fingerprint: u32,
        found_in: Option<u32>,
        update: LookupValues,
        data: Option<AssociatedData>,
    ) -> bool {
        match (found_in, data) {
            (Some(index), Some(data)) => {
                let slots = self@[index as int];
                &&& data.config() == self.config()
                &&& data.bytes().len() == self.config().block_len()
                &&& data.config().slot(data.bytes()) == self.config().accessed(
                    slots[bucket::first_match(slots, fingerprint, false, 0)],
                    update,
                )
            },
            (None, None) => true,
            _ => false,
        }
    }

    /// Loads associated data of a key stored in the filter.
    ///
    /// This counts as an access to the item. The returned data shows the LRU counter from before the
    /// access.
    ///
    /// Returns None if this key is not present in the filter. Returns associated data for the first
    /// item with the fingerprint matching this key's fingerprint. Note that it is
    /// recommended to use [`CuckooFilter::insert_if_not_present`] if consistent [`AssociatedData`]
    /// is required.
    pub fn get_associated_data<K: Hash + ?Sized>(&mut self, key: &K) -> (data: Option<
        AssociatedData,
    >)
        requires
            old(self).wf(),
        ensures
            final(self).wf(),
            final(self).same_setup(old(self)),
            old(self).looks_up_key(key, final(self), data is Some),
            exists|hash: u64, found_in: Option<u32>|
                #![trigger old(self).looks_up_hash(key, final(self), hash, found_in)]
                old(self).looks_up_hash(key, final(self), hash, found_in) && old(self).gives_data(
                    old(self).config().hash_fingerprint(hash),
                    found_in,
                    placement::plain_lookup(),
                    data,
                ),
            final(self).bytes_follow(old(self)),
            data is None ==> final(self).bytes() == old(self).bytes(),
    {
        let hash: u64 = hash_of(&self.build_hasher, key);
        let update = LookupValues::default();
        proof {
            assert(hashing::hashes_to(self.hasher(), key, hash));
            assert(update == placement::plain_lookup());
        }
        let data = self.get_associated_data_of_hash(hash, &update);
        proof {
            let config = old(self).config();
            let fingerprint = config.hash_fingerprint(hash);
            let found_in = choose|found_in: Option<u32>| #[trigger]
                config.looks_up(
                    old(self).hashes(),
                    old(self)@,
                    fingerprint,
                    config.hash_index(hash),
                    update,
                    self@,
                    found_in,
                ) && old(self).gives_data(fingerprint, found_in, update, data);
            assert(old(self).looks_up_hash(key, self, hash, found_in));
        }
        data
    }

    /// Removes a fingerprint from a bucket.
    fn remove_from(&mut self, index: u32, fp: &Fingerprint) -> (found: bool)
        requires
            old(self).wf(),
            index < old(self)@.len(),
        ensures
            final(self).wf(),
            final(self).same_setup(old(self)),
            found == bucket::holds(old(self)@[index as int], fp@),
            found ==> final(self)@ == old(self)@.update(
                index as int,
                bucket::removed(old(self)@[index as int], fp@),
            ),
            found ==> old(self).clears(fp@, index, final(self)),
            !found ==> final(self)@ == old(self)@,
            !found ==> final(self).bytes() == old(self).bytes(),
    {
        let configuration = self.configuration;
        let found: bool = self.buckets[index as usize].remove(fp, &configuration);
        proof {
            if found {
                assert(self.bytes() =~= old(self).bytes().update(
                    index as int,
                    self.bytes()[index as int],
                ));
                assert(self@ =~= old(self)@.update(
                    index as int,
                    bucket::removed(old(self)@[index as int], fp@),
                ));
            } else {
                assert(self@ =~= old(self)@);
            }
        }
        found
    }

    /// Removes an item with the given hash from the filter, if present. See
    /// [`CuckooFilter::remove`].
    pub fn remove_hash(&mut self, hash: u64) -> (found: bool)
        requires
            old(self).wf(),
        ensures
            final(self).wf(),
            final(self).same_setup(old(self)),
            old(self).config().removes(
                old(self).hashes(),
                old(self)@,
                old(self).config().hash_fingerprint(hash),
                old(self).config().hash_index(hash),
                final(self)@,
                found,
            ),
            found ==> old(self).clears_one(
                old(self).config().hash_fingerprint(hash),
                old(self).config().hash_index(hash),
                final(self),
            ),
            !found ==> final(self).bytes() == old(self).bytes(),
    {
        let (fp, i1) = self.fingerprint_and_index(hash);
        if self.remove_from(i1, &fp) {
            return true;
        }
        let i2: u32 = self.alt_index(&fp, i1);
        self.remove_from(i2, &fp)
    }

    /// Removes this key from the filter, if present.
    ///
    /// Returns true if the key was present in the filter.
    pub fn remove<K: Hash + ?Sized>(&mut self, key: &K) -> (found: bool)
        requires
            old(self).wf(),
        ensures
            final(self).wf(),
            final(self).same_setup(old(self)),
            old(self).removes_key(key, final(self), found),
            final(self).bytes_follow(old(self)),
            found ==> exists|hash: u64| #[trigger]
                hashing::hashes_to(old(self).hasher(), key, hash) && old(self).clears_one(
                    old(self).config().hash_fingerprint(hash),
                    old(self).config().hash_index(hash),
                    final(self),
                ),
            !found ==> final(self).bytes() == old(self).bytes(),
    {
        let hash: u64 = hash_of(&self.build_hasher, key);
        proof {
            assert(hashing::hashes_to(self.hasher(), key, hash));
        }
        let found: bool = self.remove_hash(hash);
        proof {
            self.lemma_bytes_follow(old(self));
        }
        found
    }

    /// Scans all buckets of this filter and reduces TTL and LRU counters.
    ///
    /// If LRU and/or TTL features are used, this must be called periodically.
    /// Each call to this function will age all the LRU and TTL counters. The frequency of calls
    /// will affect both LRU and TTL in different ways:
    /// - TTL will get reduced by 1 on each call, meaning that scanning each second indirectly sets
    ///   the unit of TTL field to be seconds.
    /// - LRU will get aged on each call: halved, unless another aging strategy is configured. By
    ///   scanning more frequently, items will require more frequent usage to stay in the filter.
    ///
    /// This is a no-op if both LRU and TTL are disabled.
    pub fn scan_and_update_full(&mut self)
        requires
            old(self).wf(),
        ensures
            final(self).wf(),
            final(self).same_setup(old(self)),
            old(self).scans_full(final(self)),
            final(self).bytes_follow(old(self)),
            old(self).config().lru_field() is None && old(self).config().ttl_field() is None ==> final(self).bytes() == old(self).bytes(),
    {
        self.scan_and_update_lru();
        self.scan_and_update_ttl();
        proof {
            self.lemma_bytes_follow(old(self));
        }
    }

    /// Scans all buckets of this filter and reduces TTL counters.
    ///
    /// Similar to [`CuckooFilter::scan_and_update_full`], but updates only TTL counters. This
    /// allows more control, enabling different update frequency for TTL and LRU.
    ///
    /// This is a no-op if TTL is disabled.
    pub fn scan_and_update_ttl(&mut self)
        requires
            old(self).wf(),
        ensures
            final(self).wf(),
            final(self).same_setup(old(self)),
            old(self).scans_ttl(final(self)),
            final(self).bytes_follow(old(self)),
            old(self).config().ttl_field() is None ==> final(self).bytes() == old(self).bytes(),
    {
        let configuration = self.configuration;
        if let Some(ttl_config) = configuration.ttl_field_config() {
            let ghost before = self@;
            let mut i: usize = 0;
            while i < configuration.bucket_count
                invariant
                    i <= configuration.bucket_count,
                    self.wf(),
                    self.same_setup(old(self)),
                    self.configuration == configuration,
                    configuration.ttl_field_config == Some(*ttl_config),
                    before == old(self)@,
                    before.len() == configuration.bucket_count,
                    forall|j: int|
                        0 <= j < before.len() ==> #[trigger] before[j].len()
                            == configuration.bucket_size,
                    forall|j: int, k: int|
                        0 <= j < i && 0 <= k < configuration.bucket_size
                            ==> #[trigger] self@[j][k] == configuration.ttl_aged(before[j][k]),
                    forall|j: int| i <= j < before.len() ==> #[trigger] self@[j] == before[j],
                decreases configuration.bucket_count - i,
            {
                let ghost current = self@;
                let _ = self.buckets[i].age_ttl_counters(&configuration, ttl_config);
                proof {
                    assert(forall|j: int|
                        0 <= j < before.len() && j != i ==> #[trigger] self@[j] == current[j]);
                    assert(current[i as int] == before[i as int]);
                    assert forall|k: int| 0 <= k < configuration.bucket_size implies #[trigger]
                        self@[i as int][k] == configuration.ttl_aged(before[i as int][k]) by {
                        assert(self@[i as int][k] == self.buckets@[i as int].slots(
                            configuration,
                        )[k]);
                    }
                }
                i = i + 1;
            }
        }
        proof {
            self.lemma_bytes_follow(old(self));
        }
    }

    /// Scans all buckets of this filter and reduces LRU counters.
    ///
    /// Similar to [`CuckooFilter::scan_and_update_full`], but updates only LRU counters. This
    /// allows more control, enabling different update frequency for TTL and LRU.
    ///
    /// This is a no-op if LRU is disabled.
    pub fn scan_and_update_lru(&mut self)
        requires
            old(self).wf(),
        ensures
            final(self).wf(),
            final(self).same_setup(old(self)),
            old(self).scans_lru(final(self)),
            final(self).bytes_follow(old(self)),
            old(self).config().lru_field() is None ==> final(self).bytes() == old(self).bytes(),
    {
        let configuration = self.configuration;
        if let Some(lru_config) = configuration.lru_field_config() {
            let ghost before = self@;
            let mut i: usize = 0;
            while i < configuration.bucket_count
                invariant
                    i <= configuration.bucket_count,
                    self.wf(),
                    self.same_setup(old(self)),
                    self.configuration == configuration,
                    configuration.lru_field_config == Some(*lru_config),
                    before == old(self)@,
                    before.len() == configuration.bucket_count,
                    forall|j: int|
                        0 <= j < before.len() ==> #[trigger] before[j].len()
                            == configuration.bucket_size,
                    forall|j: int, k: int|
                        0 <= j < i && 0 <= k < configuration.bucket_size
                            ==> #[trigger] self@[j][k] == configuration.lru_aged(before[j][k]),
                    forall|j: int| i <= j < before.len() ==> #[trigger] self@[j] == before[j],
                decreases configuration.bucket_count - i,
            {
                let ghost current = self@;
                self.buckets[i].age_lru_counters(&configuration, lru_config);
                proof {
                    assert(forall|j: int|
                        0 <= j < before.len() && j != i ==> #[trigger] self@[j] == current[j]);
                    assert(current[i as int] == before[i as int]);
                    assert forall|k: int| 0 <= k < configuration.bucket_size implies #[trigger]
                        self@[i as int][k] == configuration.lru_aged(before[i as int][k]) by {
                        assert(self@[i as int][k] == self.buckets@[i as int].slots(
                            configuration,
                        )[k]);
                    }
                }
                i = i + 1;
            }
        }
        proof {
            self.lemma_bytes_follow(old(self));
        }
    }
}

impl<H: ExportableBuildHasher> CuckooFilter<H> {
    /// Returns an exporter for this [`CuckooFilter`].
    pub fn exporter<'a>(&'a self) -> (exporter: CuckooFilterExporter<'a, H>)
        ensures
            exporter.exportable() == (self.hasher().exportable() && self.config().exportable()),
            exporter.exported() == exporter::exported_filter(
                self.hasher(),
                self.config(),
                self.bytes(),
            ),
    {
        CuckooFilterExporter::new(&self.build_hasher, &self.buckets, &self.configuration)
    }

    /// Whether this is the filter that bytes with the given hasher and configuration, and with the
    /// buckets from byte `start` on, describe.
    pub open(crate) spec fn is_read_from(
        &self,
        input: Seq<u8>,
        hasher: H,
        builder: CuckooConfigurationBuilder,
        start: int,
    ) -> bool {
        &&& self.wf()
        &&& self.hasher() == hasher
        &&& builder.builds(self.config())
        &&& self.bytes().len() == builder.bucket_total()
        &&& forall|i: int|
            0 <= i < self.bytes().len() ==> #[trigger] self.bytes()[i] == input.subrange(
                start + i * builder.bucket_len(),
                start + i * builder.bucket_len() + builder.bucket_len(),
            )
    }

    /// Reads a filter from bytes that an exporter has written.
    pub fn import(reader: &mut ByteReader) -> (result: Result<Self, ImportError>)
        ensures
            match (exporter::parsed_filter::<H>(old(reader)@), result) {
                (Ok((hasher, builder, start)), Ok(filter)) => {
                    &&& filter.is_read_from(old(reader)@, hasher, builder, start)
                    &&& final(reader)@ == exporter::after(
                        old(reader)@,
                        start + builder.bucket_total() * builder.bucket_len(),
                    )
                },
                (Err(fault), Err(error)) => error.fault() == fault,
                _ => false,
            },
    {
        let ghost input = reader@;
        let build_hasher = match read_hasher_from::<H>(reader) {
            Ok(hasher) => hasher,
            Err(error) => {
                return Err(error);
            },
        };
        let ghost n = exporter::parsed_hasher::<H>(input)->Ok_0.1;
        let configuration = match CuckooConfiguration::read_from(reader) {
            Ok(configuration) => configuration,
            Err(error) => {
                return Err(error);
            },
        };
        let ghost (builder, m) = CuckooConfigurationBuilder::parsed(
            exporter::after(input, n),
        )->Ok_0;
        let ghost start = n + m;
        let ghost size = configuration.bucket_len();
        let ghost total = configuration.bucket_total();
        proof {
            use_type_invariant(&configuration);
            exporter::lemma_builder_builds(builder, configuration);
            assert(reader@ =~= exporter::after(input, start));
            assert(start + 0 * size == start);
        }
        let mut buckets: Vec<Bucket> = Vec::new();
        let mut i: usize = 0;
        while i < configuration.bucket_count
            invariant
                i <= configuration.bucket_count,
                configuration.inv(),
                size == configuration.bucket_byte_size,
                total == configuration.bucket_count,
                size == builder.bucket_len(),
                total == builder.bucket_total(),
                input == old(reader)@,
                exporter::parsed_hasher::<H>(input) == Ok::<(H, int), Fault>((build_hasher, n)),
                CuckooConfigurationBuilder::parsed(exporter::after(input, n)) == Ok::<
                    (CuckooConfigurationBuilder, int),
                    Fault,
                >((builder, m)),
                builder.fits(),
                start == n + m,
                0 <= start,
                start + i * size <= input.len(),
                reader@ == exporter::after(input, start + i * size),
                buckets@.len() == i,
                forall|j: int| 0 <= j < i ==> #[trigger] buckets@[j].wf(configuration),
                forall|j: int|
                    0 <= j < i ==> (#[trigger] buckets@[j])@ == input.subrange(
                        start + j * size,
                        start + j * size + size,
                    ),
            decreases configuration.bucket_count - i,
        {
            proof {
                assert((i + 1) * size == i * size + size) by (nonlinear_arith);
                assert((i + 1) * size <= total * size) by (nonlinear_arith)
                    requires
                        i + 1 <= total,
                        0 <= size,
                ;
            }
            let ghost before = reader@;
            match Bucket::import(reader, &configuration) {
                Some(bucket) => {
                    proof {
                        assert(bucket@ =~= input.subrange(
                            start + i * size,
                            start + i * size + size,
                        ));
                        assert(reader@ =~= exporter::after(input, start + i * size + size));
                    }
                    buckets.push(bucket);
                },
                None => {
                    return Err(end_of_input());
                },
            }
            i = i + 1;
        }
        Ok(Self { configuration, buckets, build_hasher })
    }
}

impl CuckooFilter<ExportableRandomState> {
    /// Creates a new instance of [`CuckooFilter`], using a random [`ExportableRandomState`] as its
    /// [`BuildHasher`].
    ///
    /// # Panics
    ///
    /// Panics if allocation of buckets fails (if too much memory was requested).
    #[must_use]
    pub fn new_random_exportable(configuration: CuckooConfiguration) -> (filter: Self)
        ensures
            filter.wf(),
            filter.config() == configuration,
            filter.is_blank(),
            filter.is_zero(),
            exporter::is_random_key(filter.hasher()@.0),
            exporter::is_random_key(filter.hasher()@.1),
    {
        Self::new(configuration, ExportableRandomState::new_random())
    }

    /// Reads a filter with an [`ExportableRandomState`]. See [`CuckooFilter::import`].
    pub fn import_random_exportable(reader: &mut ByteReader) -> (result: Result<Self, ImportError>)
        ensures
            match (exporter::parsed_filter::<ExportableRandomState>(old(reader)@), result) {
                (Ok((hasher, builder, start)), Ok(filter)) => {
                    &&& filter.is_read_from(old(reader)@, hasher, builder, start)
                    &&& final(reader)@ == exporter::after(
                        old(reader)@,
                        start + builder.bucket_total() * builder.bucket_len(),
                    )
                },
                (Err(fault), Err(error)) => error.fault() == fault,
                _ => false,
            },
    {
        Self::import(reader)
    }
}

impl Fingerprint {
    /// Compares this fingerprint to a key. This will only produce correct results if the same
    /// filter that produced this fingerprint is passed into this method.
    ///
    /// Returns true if this fingerprint matches the key.
    pub fn matches_key<K: Hash + ?Sized, H: BuildHasher>(
        &self,
        key: &K,
        filter: &CuckooFilter<H>,
    ) -> (matches: bool)
        requires
            filter.wf(),
        ensures
            exists|fingerprint: u32| #[trigger]
                filter.has_fingerprint(key, fingerprint) && matches == (fingerprint == self@),
    {
        let fingerprint = filter.get_fingerprint(key);
        assert(filter.has_fingerprint(key, fingerprint@));
        fingerprint == *self
    }
}

/// Whether two filters have the same numbers of buckets and slots.
pub open spec fn same_shape(before: Seq<Seq<SlotView>>, after: Seq<Seq<SlotView>>) -> bool {
    &&& before.len() == after.len()
    &&& forall|i: int| 0 <= i < before.len() ==> (#[trigger] after[i]).len() == before[i].len()
}

/// The fingerprint of a hash fits its field.
pub(crate) proof fn lemma_own_fingerprint(cfg: CuckooConfiguration, hash: u64)
    requires
        cfg.inv(),
    ensures
        cfg.hash_fingerprint(hash) & cfg.fingerprint_max() == cfg.hash_fingerprint(hash),
{
    let f = cfg.fingerprint_field_config;
    let n = (f.end - f.start) as u64;
    bits::lemma_low_mask(n);
    bits::lemma_mask_value(1, n);
    lemma_masked_index((hash >> 32) as u32, cfg.fingerprint_max());
    vstd::arithmetic::power2::lemma_pow2_unfold(n as nat);
    vstd::arithmetic::power2::lemma_pow2_pos((n - 1) as nat);
}

/// What is masked fits the mask.
pub(crate) proof fn lemma_masked_index(x: u32, mask: u32)
    ensures
        x & mask <= mask,
        (x & mask) & mask == x & mask,
{
    assert(x & mask <= mask && (x & mask) & mask == x & mask) by (bit_vector);
}

} // verus!
