//! Buckets: the slots that an item can be stored in.
use crate::associated_data::AssociatedData;
use crate::bits;
use crate::bytes::{push_bytes, ByteReader};
use crate::config::{CuckooConfiguration, LruConfig, TtlConfig};
use crate::data_block;
use crate::data_block::{Bytes, DataBlock, DataBlockFieldConfiguration, Fingerprint};
use crate::random::random_index;
use crate::slot;
use crate::slot::SlotView;
use vstd::prelude::*;

verus! {

/// The bytes of slot `index` of a bucket with slots of `size` bytes.
pub open spec fn block_at(data: Seq<u8>, size: int, index: int) -> Seq<u8> {
    data.subrange(index * size, index * size + size)
}

/// The bytes of a bucket after slot `index` was replaced by `block`.
pub open spec fn with_block(data: Seq<u8>, size: int, index: int, block: Seq<u8>) -> Seq<u8> {
    data.subrange(0, index * size) + block + data.subrange(index * size + size, data.len() as int)
}

/// The first slot from `from` on that holds the fingerprint, or is empty if that is asked for. The
/// number of slots if there is none.
pub open spec fn first_match(
    slots: Seq<SlotView>,
    fingerprint: u32,
    or_empty: bool,
    from: int,
) -> int
    decreases slots.len() - from,
{
    if from >= slots.len() {
        slots.len() as int
    } else if slots[from].fingerprint == fingerprint || (or_empty && slots[from].fingerprint == 0) {
        from
    } else {
        first_match(slots, fingerprint, or_empty, from + 1)
    }
}

/// Whether a slot holds the fingerprint.
pub open spec fn holds(slots: Seq<SlotView>, fingerprint: u32) -> bool {
    first_match(slots, fingerprint, false, 0) < slots.len()
}

/// Whether an item can be stored without a kick: in an empty slot, or where its fingerprint is
/// already.
pub open spec fn has_room(slots: Seq<SlotView>, fingerprint: u32) -> bool {
    first_match(slots, fingerprint, true, 0) < slots.len()
}

/// The victim of a random kick: the first slot, counted from `start` and wrapping around, that does
/// not hold the fingerprint `keep`. If all slots hold it, the slot `start`.
pub open spec fn random_victim(slots: Seq<SlotView>, keep: u32, start: int, skipped: int) -> int
    decreases slots.len() - skipped,
{
    let index = (start + skipped) % (slots.len() as int);
    if skipped >= slots.len() {
        start
    } else if slots[index].fingerprint != keep {
        index
    } else {
        random_victim(slots, keep, start, skipped + 1)
    }
}

/// Whether the item in slot `index` was exchanged with the given one: `after` are the slots then,
/// and `out` is what was in the slot.
pub open spec fn exchanged(
    before: Seq<SlotView>,
    item: SlotView,
    index: int,
    after: Seq<SlotView>,
    out: SlotView,
) -> bool {
    &&& 0 <= index < before.len()
    &&& after == before.update(index, item)
    &&& out == before[index]
}

/// Whether the bytes of slot `index` were exchanged with the given ones, and nothing else changed:
/// `after` are the bytes of the bucket then, and `out` is what was in the slot.
pub open spec fn exchanged_bytes(
    before: Seq<u8>,
    block: Seq<u8>,
    size: int,
    index: int,
    after: Seq<u8>,
    out: Seq<u8>,
) -> bool {
    &&& after == with_block(before, size, index, block)
    &&& out == block_at(before, size, index)
}

/// Whether nothing changed but the bytes of slot `index`.
pub open spec fn changed_at(before: Seq<u8>, size: int, index: int, after: Seq<u8>) -> bool {
    after == with_block(before, size, index, block_at(after, size, index))
}

/// Whether an item was exchanged with the victim of a random kick that starts from slot `start`.
pub open spec fn kicked_from(
    before: Seq<SlotView>,
    item: SlotView,
    keep: u32,
    start: int,
    after: Seq<SlotView>,
    out: SlotView,
) -> bool {
    &&& 0 <= start < before.len()
    &&& exchanged(before, item, random_victim(before, keep, start, 0), after, out)
}

/// Whether a slot is the victim of an LRU kick for an item with the given LRU counter: the first
/// slot with the lowest LRU counter, which is also lower than that of the item unless the item is
/// completely new.
pub open spec fn is_lru_victim(slots: Seq<SlotView>, lru: u32, index: int) -> bool {
    &&& 0 <= index < slots.len()
    &&& lru == 0 || slots[index].lru < lru
    &&& forall|j: int| 0 <= j < slots.len() ==> slots[index].lru <= #[trigger] slots[j].lru
    &&& forall|j: int| 0 <= j < index ==> slots[index].lru < #[trigger] slots[j].lru
}

impl CuckooConfiguration {
    /// The slots of a bucket with the given bytes.
    pub open(crate) spec fn slots(self, data: Seq<u8>) -> Seq<SlotView> {
        Seq::new(
            self.bucket_size as nat,
            |i: int| self.slot(block_at(data, self.data_block_size as int, i)),
        )
    }

    /// The slots of a bucket after an item was stored in it.
    pub open(crate) spec fn placed(self, slots: Seq<SlotView>, item: SlotView) -> Seq<SlotView> {
        let index = first_match(slots, item.fingerprint, true, 0);
        slots.update(
            index,
            if slots[index].fingerprint == item.fingerprint {
                self.merged(slots[index], item)
            } else {
                item
            },
        )
    }

    /// The slots of a bucket after a lookup of a fingerprint.
    pub open(crate) spec fn found(
        self,
        slots: Seq<SlotView>,
        fingerprint: u32,
        update: LookupValues,
    ) -> Seq<SlotView> {
        let index = first_match(slots, fingerprint, false, 0);
        if index < slots.len() {
            slots.update(index, self.looked_up(slots[index], update))
        } else {
            slots
        }
    }

    /// The number of items among the first `n` slots that expire when the TTL counters age.
    pub open(crate) spec fn expired(self, slots: Seq<SlotView>, n: int) -> nat
        decreases n,
    {
        if n <= 0 {
            0
        } else {
            self.expired(slots, n - 1) + (if slots[n - 1].fingerprint != 0 && slots[n - 1].ttl
                <= 1 {
                1nat
            } else {
                0nat
            })
        }
    }
}

/// The slots of a bucket after a fingerprint was removed.
pub open spec fn removed(slots: Seq<SlotView>, fingerprint: u32) -> Seq<SlotView> {
    let index = first_match(slots, fingerprint, false, 0);
    if index < slots.len() {
        slots.update(index, slot::empty_slot())
    } else {
        slots
    }
}

/// Whether the bytes of a slot aged as its LRU counter does: only the bits of the counter change,
/// or all bytes are 0 if the item is removed.
pub open spec fn lru_aged_bytes(
    lru: (LruConfig, DataBlockFieldConfiguration),
    before: Seq<u8>,
    after: Seq<u8>,
) -> bool {
    let aged = lru.0.aging_strategy.aged(lru.1.value(before));
    if lru.0.remove_on_zero && aged == 0 {
        after == data_block::zero_block(before.len())
    } else {
        lru.1.stored(before, after, aged)
    }
}

/// Whether the bytes of a slot aged as its TTL counter does: an empty slot keeps its bytes, the
/// bytes of an item that expires are all 0, and of any other item only the bits of the counter
/// change.
pub open spec fn ttl_aged_bytes(
    ttl: (TtlConfig, DataBlockFieldConfiguration),
    stored: SlotView,
    before: Seq<u8>,
    after: Seq<u8>,
) -> bool {
    if stored.fingerprint == 0 {
        after == before
    } else if stored.ttl <= 1 {
        after == data_block::zero_block(before.len())
    } else {
        ttl.1.stored(before, after, (stored.ttl - 1) as u32)
    }
}

/// Slots with the same numbers have the same bytes.
pub(crate) proof fn lemma_slots_determine_bytes(cfg: CuckooConfiguration, a: Seq<u8>, b: Seq<u8>)
    requires
        cfg.inv(),
        a.len() == b.len() == cfg.bucket_byte_size,
        cfg.slots(a) == cfg.slots(b),
    ensures
        a == b,
{
    let size = cfg.data_block_size as int;
    assert forall|k: int| 0 <= k < a.len() implies a[k] == b[k] by {
        let i = k / size;
        vstd::arithmetic::div_mod::lemma_fundamental_div_mod(k, size);
        assert(0 <= i < cfg.bucket_size && i * size <= k < i * size + size) by (nonlinear_arith)
            requires
                0 < size,
                0 <= k < cfg.bucket_size * size,
                k == size * i + k % size,
                0 <= k % size < size,
        ;
        lemma_slot_offset(cfg, i);
        assert(cfg.slots(a)[i] == cfg.slots(b)[i]);
        slot::lemma_slot_determines_bytes(cfg, block_at(a, size, i), block_at(b, size, i));
        assert(block_at(a, size, i)[k - i * size] == a[k]);
        assert(block_at(b, size, i)[k - i * size] == b[k]);
    }
    assert(a =~= b);
}

pub(crate) proof fn lemma_slot_offset(cfg: CuckooConfiguration, index: int)
    requires
        cfg.inv(),
        0 <= index < cfg.bucket_size,
    ensures
        0 <= index * cfg.data_block_size,
        index * cfg.data_block_size + cfg.data_block_size <= cfg.bucket_byte_size,
{
    let size = cfg.data_block_size as int;
    let count = cfg.bucket_size as int;
    assert(0 <= index * size && index * size + size <= count * size) by (nonlinear_arith)
        requires
            0 <= index,
            index + 1 <= count,
            0 < size,
    ;
}

/// Replacing the bytes of one slot replaces that slot.
pub(crate) proof fn lemma_with_block(
    cfg: CuckooConfiguration,
    data: Seq<u8>,
    index: int,
    block: Seq<u8>,
)
    requires
        cfg.inv(),
        data.len() == cfg.bucket_byte_size,
        0 <= index < cfg.bucket_size,
        block.len() == cfg.data_block_size,
    ensures
        with_block(data, cfg.data_block_size as int, index, block).len() == data.len(),
        cfg.slots(with_block(data, cfg.data_block_size as int, index, block)) == cfg.slots(
            data,
        ).update(index, cfg.slot(block)),
        forall|j: int|
            0 <= j < cfg.bucket_size ==> #[trigger] block_at(
                with_block(data, cfg.data_block_size as int, index, block),
                cfg.data_block_size as int,
                j,
            ) == (if j == index {
                block
            } else {
                block_at(data, cfg.data_block_size as int, j)
            }),
{
    let size = cfg.data_block_size as int;
    let after = with_block(data, size, index, block);
    lemma_slot_offset(cfg, index);
    assert forall|j: int| 0 <= j < cfg.bucket_size implies #[trigger] block_at(after, size, j) == (
    if j == index {
        block
    } else {
        block_at(data, size, j)
    }) by {
        lemma_slot_offset(cfg, j);
        if j < index {
            assert(j * size + size <= index * size) by (nonlinear_arith)
                requires
                    j + 1 <= index,
                    0 < size,
            ;
            assert(block_at(after, size, j) =~= block_at(data, size, j));
        } else if j == index {
            assert(block_at(after, size, j) =~= block);
        } else {
            assert(index * size + size <= j * size) by (nonlinear_arith)
                requires
                    index + 1 <= j,
                    0 < size,
            ;
            assert(block_at(after, size, j) =~= block_at(data, size, j));
        }
    }
    assert(cfg.slots(after) =~= cfg.slots(data).update(index, cfg.slot(block)));
}

/// A single bucket in the filter, holding all the fingerprints and their associated data.
/// Everything is stored as a single [`Vec<u8>`], where each fingerprint together with its
/// associated data is aligned to [`u8`].
pub struct Bucket {
    pub(crate) data: Vec<u8>,
}

impl Bucket {
    /// The bytes of the bucket.
    pub open(crate) spec fn view(&self) -> Seq<u8> {
        self.data@
    }

    /// Whether the bucket has the size that its configuration says.
    pub open(crate) spec fn wf(&self, configuration: CuckooConfiguration) -> bool {
        configuration.inv() && self.data@.len() == configuration.bucket_byte_size
    }

    /// The slots of the bucket.
    pub open(crate) spec fn slots(&self, configuration: CuckooConfiguration) -> Seq<SlotView> {
        configuration.slots(self.data@)
    }

    /// Creates a new bucket based on [`CuckooConfiguration`].
    ///
    /// ## Panics
    ///
    /// Panics on OOM errors (if the requested bucket byte size is too high).
    pub fn new(configuration: &CuckooConfiguration) -> (bucket: Self)
        ensures
            bucket.wf(*configuration),
            bucket@ == data_block::zero_block(configuration.bucket_len() as nat),
            forall|i: int|
                0 <= i < bucket.slots(*configuration).len() ==> bucket.slots(*configuration)[i]
                    == slot::empty_slot(),
    {
        proof {
            use_type_invariant(configuration);
        }
        let bucket = Self { data: vec![0u8; configuration.bucket_byte_size] };
        proof {
            assert(bucket@ =~= data_block::zero_block(configuration.bucket_len() as nat));
            assert forall|i: int| 0 <= i < configuration.bucket_size implies bucket.slots(
                *configuration,
            )[i] == slot::empty_slot() by {
                lemma_slot_offset(*configuration, i);
                slot::lemma_zero_slot(
                    *configuration,
                    block_at(bucket.data@, configuration.data_block_size as int, i),
                );
            }
        }
        bucket
    }

    /// Writes the bytes of the bucket.
    pub fn export(&self, writer: &mut Vec<u8>)
        ensures
            final(writer)@ == old(writer)@ + self@,
    {
        push_bytes(writer, self.data.as_slice());
    }

    /// Reads the bytes of a bucket. Returns None if there are not enough.
    pub fn import(reader: &mut ByteReader, configuration: &CuckooConfiguration) -> (bucket: Option<
        Self,
    >)
        ensures
            bucket is Some == (configuration.bucket_len() <= old(reader)@.len()),
            bucket matches Some(bucket) ==> {
                &&& bucket.wf(*configuration)
                &&& bucket@ == old(reader)@.subrange(0, configuration.bucket_len())
                &&& final(reader)@ == old(reader)@.subrange(
                    configuration.bucket_len(),
                    old(reader)@.len() as int,
                )
            },
    {
        proof {
            use_type_invariant(configuration);
        }
        match reader.read(configuration.bucket_byte_size) {
            Some(bytes) => Some(Self { data: vstd::slice::slice_to_vec(bytes) }),
            None => None,
        }
    }

    /// Borrows a slot for reading.
    fn peek_data_block<'a>(
        &'a self,
        index: usize,
        configuration: &CuckooConfiguration,
    ) -> (block: DataBlock<&'a [u8]>)
        requires
            self.wf(*configuration),
            index < configuration.bucket_size,
        ensures
            block@ == block_at(self.data@, configuration.data_block_size as int, index as int),
            block@.len() == configuration.data_block_size,
            configuration.slot(block@) == self.slots(*configuration)[index as int],
    {
        proof {
            lemma_slot_offset(*configuration, index as int);
        }
        let size: usize = configuration.data_block_size;
        let start: usize = index * size;
        DataBlock(vstd::slice::slice_subrange(self.data.as_slice(), start, start + size))
    }

    /// Borrows a slot for changes.
    fn get_data_block<'a>(
        &'a mut self,
        index: usize,
        configuration: &CuckooConfiguration,
    ) -> (block: DataBlock<&'a mut [u8]>)
        requires
            old(self).wf(*configuration),
            index < configuration.bucket_size,
        ensures
            block@ == block_at(old(self).data@, configuration.data_block_size as int, index as int),
            block@.len() == configuration.data_block_size,
            configuration.slot(block@) == old(self).slots(*configuration)[index as int],
            final(self).data@ == with_block(
                old(self).data@,
                configuration.data_block_size as int,
                index as int,
                final(block.0)@,
            ),
    {
        proof {
            lemma_slot_offset(*configuration, index as int);
        }
        let size: usize = configuration.data_block_size;
        let start: usize = index * size;
        let (_, rest) = self.data.as_mut_slice().split_at_mut(start);
        let (block, _) = rest.split_at_mut(size);
        assert(block@ =~= block_at(old(self).data@, size as int, index as int));
        DataBlock(block)
    }

    /// Inserts a new fingerprint into this bucket.
    ///
    /// An empty slot takes over the data block. When the same fingerprint is inserted again, its
    /// TTL is restarted and its counters move on.
    ///
    /// Returns false if the insertion has failed (if the bucket is fully occupied). In that case,
    /// alternate bucket should be tried and if that fails too, kicking process should be started.
    pub fn insert<T: Bytes>(
        &mut self,
        data_block: &DataBlock<T>,
        configuration: &CuckooConfiguration,
    ) -> (inserted: bool)
        requires
            old(self).wf(*configuration),
            data_block@.len() == configuration.block_len(),
        ensures
            final(self).wf(*configuration),
            ({
                let before = old(self).slots(*configuration);
                let item = configuration.slot(data_block@);
                let index = first_match(before, item.fingerprint, true, 0);
                let size = configuration.block_len();
                &&& inserted == has_room(before, item.fingerprint)
                &&& inserted ==> final(self).slots(*configuration) == configuration.placed(
                    before,
                    item,
                )
                &&& inserted && before[index].fingerprint == item.fingerprint ==> changed_at(
                    old(self)@,
                    size,
                    index,
                    final(self)@,
                )
                &&& inserted && before[index].fingerprint != item.fingerprint ==> final(self)@
                    == with_block(old(self)@, size, index, data_block@)
                &&& !inserted ==> final(self)@ == old(self)@
                &&& inserted && before[index].fingerprint == item.fingerprint
                    && configuration.ttl_field() is Some ==> final(self).slots(
                    *configuration,
                )[index].ttl == item.ttl
            }),
    {
        proof {
            slot::lemma_slot_bounds(*configuration, data_block@);
            if let Some((_, field)) = configuration.ttl_field() {
                bits::lemma_mask_value(
                    configuration.slot(data_block@).ttl,
                    (field.spec_end() - field.spec_start()) as u64,
                );
            }
        }
        let ghost before = self.slots(*configuration);
        let fingerprint = data_block.get_fingerprint(configuration);
        let mut i: usize = 0;
        while i < configuration.bucket_size
            invariant
                i <= configuration.bucket_size,
                self.wf(*configuration),
                self.data@ == old(self).data@,
                before == self.slots(*configuration),
                data_block@.len() == configuration.data_block_size,
                fingerprint@ == configuration.slot(data_block@).fingerprint,
                configuration.ttl_field() matches Some((_, field)) ==> configuration.slot(
                    data_block@,
                ).ttl & field.max() == configuration.slot(data_block@).ttl,
                first_match(before, fingerprint@, true, 0) == first_match(
                    before,
                    fingerprint@,
                    true,
                    i as int,
                ),
            decreases configuration.bucket_size - i,
        {
            let stored = self.peek_data_block(i, configuration).get_fingerprint(configuration);
            if stored == fingerprint || stored.is_empty() {
                let mut data = self.get_data_block(i, configuration);
                if stored == fingerprint {
                    data.merge_associated_from(data_block, configuration);
                } else {
                    data.copy_from(data_block);
                }
                let ghost block = data@;
                proof {
                    lemma_with_block(*configuration, old(self).data@, i as int, block);
                }
                return true;
            }
            i = i + 1;
        }
        false
    }

    /// Exchanges the given data block with the item in a slot of this bucket.
    fn exchange(
        &mut self,
        index: usize,
        data_block: &mut DataBlock<Vec<u8>>,
        configuration: &CuckooConfiguration,
    )
        requires
            old(self).wf(*configuration),
            index < configuration.bucket_size,
            old(data_block)@.len() == configuration.block_len(),
        ensures
            final(self).wf(*configuration),
            final(data_block)@.len() == configuration.block_len(),
            exchanged(
                old(self).slots(*configuration),
                configuration.slot(old(data_block)@),
                index as int,
                final(self).slots(*configuration),
                configuration.slot(final(data_block)@),
            ),
            exchanged_bytes(
                old(self)@,
                old(data_block)@,
                configuration.block_len(),
                index as int,
                final(self)@,
                final(data_block)@,
            ),
    {
        let mut data = self.get_data_block(index, configuration);
        data.swap(data_block);
        proof {
            lemma_with_block(*configuration, old(self).data@, index as int, old(data_block)@);
        }
    }

    /// Kicks the item in the first slot, from `start` on and wrapping around, that does not hold
    /// the fingerprint `keep`, by exchanging that [`DataBlock`] with the one provided. If all slots
    /// hold `keep`, kicks the item in the slot `start`.
    pub fn kick_from(
        &mut self,
        start: usize,
        data_block: &mut DataBlock<Vec<u8>>,
        configuration: &CuckooConfiguration,
        keep: &Fingerprint,
    )
        requires
            old(self).wf(*configuration),
            start < configuration.slot_count(),
            old(data_block)@.len() == configuration.block_len(),
        ensures
            final(self).wf(*configuration),
            final(data_block)@.len() == configuration.block_len(),
            kicked_from(
                old(self).slots(*configuration),
                configuration.slot(old(data_block)@),
                keep@,
                start as int,
                final(self).slots(*configuration),
                configuration.slot(final(data_block)@),
            ),
            exchanged_bytes(
                old(self)@,
                old(data_block)@,
                configuration.block_len(),
                random_victim(old(self).slots(*configuration), keep@, start as int, 0),
                final(self)@,
                final(data_block)@,
            ),
    {
        let ghost before = self.slots(*configuration);
        let size: usize = configuration.bucket_size;
        let mut victim: usize = start;
        let mut skipped: usize = 0;
        let mut index: usize = start;
        proof {
            vstd::arithmetic::div_mod::lemma_small_mod(start as nat, size as nat);
        }
        while skipped < size
            invariant_except_break
                victim == start,
                random_victim(before, keep@, start as int, 0) == random_victim(
                    before,
                    keep@,
                    start as int,
                    skipped as int,
                ),
                index == (start + skipped) % (size as int),
            invariant
                start < size,
                skipped <= size,
                index < size,
                victim < size,
                size == configuration.bucket_size,
                self.wf(*configuration),
                self.data@ == old(self).data@,
                before == self.slots(*configuration),
            ensures
                victim == random_victim(before, keep@, start as int, 0),
            decreases size - skipped,
        {
            let stored = self.peek_data_block(index, configuration).get_fingerprint(configuration);
            if stored != *keep {
                victim = index;
                break;
            }
            skipped = skipped + 1;
            proof {
                lemma_next_index(start as int, skipped as int, size as int);
            }
            index = if index + 1 < size {
                index + 1
            } else {
                0
            };
        }
        self.exchange(victim, data_block, configuration);
    }

    /// Kicks a random item from this bucket, by exchanging that [`DataBlock`] with the one
    /// provided. An item with the fingerprint `keep` is not kicked if there is another one.
    ///
    /// This doesn't return. It always succeeds and the kicked item can be found in the provided
    /// [`DataBlock`].
    pub fn kick_random(
        &mut self,
        data_block: &mut DataBlock<Vec<u8>>,
        configuration: &CuckooConfiguration,
        keep: &Fingerprint,
    )
        requires
            old(self).wf(*configuration),
            old(data_block)@.len() == configuration.block_len(),
        ensures
            final(self).wf(*configuration),
            final(data_block)@.len() == configuration.block_len(),
            exists|start: int| #[trigger]
                kicked_from(
                    old(self).slots(*configuration),
                    configuration.slot(old(data_block)@),
                    keep@,
                    start,
                    final(self).slots(*configuration),
                    configuration.slot(final(data_block)@),
                ) && exchanged_bytes(
                    old(self)@,
                    old(data_block)@,
                    configuration.block_len(),
                    random_victim(old(self).slots(*configuration), keep@, start, 0),
                    final(self)@,
                    final(data_block)@,
                ),
    {
        let start: usize = random_index(configuration.bucket_size);
        self.kick_from(start, data_block, configuration, keep);
    }

    /// Kicks an item from this bucket, based on LRU - kicks out the lowest LRU counter item from
    /// this bucket, that has lower LRU counter than the new item. If the new item has the lowest
    /// LRU counter, kick fails and false is returned. For completely new items (LRU counter == 0),
    /// insertion is guaranteed.
    ///
    /// Returns true if any item was kicked. Returns false if no item was kicked and the new item
    /// was not moved out of [`DataBlock`].
    pub fn kick_lru(
        &mut self,
        data_block: &mut DataBlock<Vec<u8>>,
        configuration: &CuckooConfiguration,
        lru_config: &(LruConfig, DataBlockFieldConfiguration),
    ) -> (kicked: bool)
        requires
            old(self).wf(*configuration),
            configuration.lru_field() == Some(*lru_config),
            old(data_block)@.len() == configuration.block_len(),
        ensures
            final(self).wf(*configuration),
            final(data_block)@.len() == configuration.block_len(),
            ({
                let before = old(self).slots(*configuration);
                let item = configuration.slot(old(data_block)@);
                &&& kicked == (exists|victim: int| is_lru_victim(before, item.lru, victim))
                &&& kicked <==> item.lru == 0 || exists|s: int|
                    0 <= s < before.len() && #[trigger] before[s].lru < item.lru
                &&& kicked ==> forall|s: int|
                    0 <= s < before.len() ==> configuration.slot(final(data_block)@).lru
                        <= #[trigger] before[s].lru
                &&& forall|victim: int|
                    is_lru_victim(before, item.lru, victim) ==> exchanged(
                        before,
                        item,
                        victim,
                        final(self).slots(*configuration),
                        configuration.slot(final(data_block)@),
                    ) && exchanged_bytes(
                        old(self)@,
                        old(data_block)@,
                        configuration.block_len(),
                        victim,
                        final(self)@,
                        final(data_block)@,
                    )
                &&& !kicked ==> final(self)@ == old(self)@ && final(data_block)@ == old(
                    data_block,
                )@
            }),
    {
        let ghost before = self.slots(*configuration);
        let ghost item = configuration.slot(data_block@);
        let own: u32 = data_block.get_lru_counter(lru_config);
        let mut min: u32 = self.peek_data_block(0, configuration).get_lru_counter(lru_config);
        let mut pos: usize = 0;
        let mut i: usize = 1;
        while i < configuration.bucket_size
            invariant
                pos < i <= configuration.bucket_size,
                self.wf(*configuration),
                configuration.lru_field_config == Some(*lru_config),
                before == self.slots(*configuration),
                min == before[pos as int].lru,
                forall|j: int| 0 <= j < i ==> min <= #[trigger] before[j].lru,
                forall|j: int| 0 <= j < pos ==> min < #[trigger] before[j].lru,
            decreases configuration.bucket_size - i,
        {
            let counter: u32 = self.peek_data_block(i, configuration).get_lru_counter(lru_config);
            if counter < min {
                min = counter;
                pos = i;
            }
            i = i + 1;
        }
        if own == 0 || min < own {
            proof {
                assert(is_lru_victim(before, item.lru, pos as int));
                assert forall|victim: int| is_lru_victim(before, item.lru, victim) implies victim
                    == pos by {
                    if victim < pos {
                        assert(before[pos as int].lru < before[victim].lru);
                        assert(before[victim].lru <= before[pos as int].lru);
                    } else if victim > pos {
                        assert(before[victim].lru < before[pos as int].lru);
                        assert(before[pos as int].lru <= before[victim].lru);
                    }
                }
            }
            self.exchange(pos, data_block, configuration);
            true
        } else {
            false
        }
    }

    /// Looks for the fingerprint in this bucket.
    ///
    /// If fingerprint is found, its LRU and generic counters are also updated (if enabled), and its
    /// TTL if a value is given for it.
    ///
    /// Returns true if the fingerprint is stored in this bucket.
    pub fn contains(
        &mut self,
        fingerprint: &Fingerprint,
        configuration: &CuckooConfiguration,
        update: &LookupValues,
    ) -> (contains: bool)
        requires
            old(self).wf(*configuration),
        ensures
            final(self).wf(*configuration),
            contains == holds(old(self).slots(*configuration), fingerprint@),
            final(self).slots(*configuration) == configuration.found(
                old(self).slots(*configuration),
                fingerprint@,
                *update,
            ),
            contains ==> changed_at(
                old(self)@,
                configuration.block_len(),
                first_match(old(self).slots(*configuration), fingerprint@, false, 0),
                final(self)@,
            ),
            !contains ==> final(self)@ == old(self)@,
    {
        match self.find(fingerprint, configuration) {
            Some(index) => {
                let mut data = self.get_data_block(index, configuration);
                data.update_on_lookup(configuration, update);
                let ghost block = data@;
                proof {
                    lemma_with_block(*configuration, old(self).data@, index as int, block);
                }
                true
            },
            None => false,
        }
    }

    /// Looks for the first slot that holds the fingerprint.
    fn find(&self, fingerprint: &Fingerprint, configuration: &CuckooConfiguration) -> (index:
        Option<usize>)
        requires
            self.wf(*configuration),
        ensures
            ({
                let slots = self.slots(*configuration);
                let first = first_match(slots, fingerprint@, false, 0);
                match index {
                    Some(index) => index == first && index < slots.len(),
                    None => first == slots.len(),
                }
            }),
    {
        let mut i: usize = 0;
        while i < configuration.bucket_size
            invariant
                i <= configuration.bucket_size,
                self.wf(*configuration),
                first_match(self.slots(*configuration), fingerprint@, false, 0) == first_match(
                    self.slots(*configuration),
                    fingerprint@,
                    false,
                    i as int,
                ),
            decreases configuration.bucket_size - i,
        {
            let stored = self.peek_data_block(i, configuration).get_fingerprint(configuration);
            if stored == *fingerprint {
                return Some(i);
            }
            i = i + 1;
        }
        None
    }

    /// Looks for the fingerprint in this bucket and returns its associated data.
    ///
    /// If fingerprint is found, its LRU and generic counters are also incremented (if enabled). The
    /// returned data shows the LRU counter from before.
    ///
    /// Returns the data associated with the fingerprint, if found.
    pub fn get_associated_data(
        &mut self,
        fingerprint: &Fingerprint,
        configuration: &CuckooConfiguration,
        update: &LookupValues,
    ) -> (data: Option<AssociatedData>)
        requires
            old(self).wf(*configuration),
        ensures
            final(self).wf(*configuration),
            data is Some == holds(old(self).slots(*configuration), fingerprint@),
            final(self).slots(*configuration) == configuration.found(
                old(self).slots(*configuration),
                fingerprint@,
                *update,
            ),
            data matches Some(data) ==> {
                let index = first_match(old(self).slots(*configuration), fingerprint@, false, 0);
                &&& data.config() == *configuration
                &&& data.bytes().len() == configuration.block_len()
                &&& data.config().slot(data.bytes()) == configuration.accessed(
                    old(self).slots(*configuration)[index],
                    *update,
                )
            },
            data is Some ==> changed_at(
                old(self)@,
                configuration.block_len(),
                first_match(old(self).slots(*configuration), fingerprint@, false, 0),
                final(self)@,
            ),
            data is None ==> final(self)@ == old(self)@,
    {
        match self.find(fingerprint, configuration) {
            Some(index) => {
                let mut data = self.get_data_block(index, configuration);
                data.update_on_access(configuration, update);
                let found = AssociatedData::new(&data, *configuration);
                data.count_use(configuration);
                let ghost block = data@;
                proof {
                    lemma_with_block(*configuration, old(self).data@, index as int, block);
                }
                Some(found)
            },
            None => None,
        }
    }

    /// Removes the fingerprint from this bucket, by clearing out its slot.
    ///
    /// Returns true if fingerprint was found and removed, false if it was not found.
    pub fn remove(
        &mut self,
        fingerprint: &Fingerprint,
        configuration: &CuckooConfiguration,
    ) -> (found: bool)
        requires
            old(self).wf(*configuration),
        ensures
            final(self).wf(*configuration),
            found == holds(old(self).slots(*configuration), fingerprint@),
            final(self).slots(*configuration) == removed(
                old(self).slots(*configuration),
                fingerprint@,
            ),
            found ==> final(self)@ == with_block(
                old(self)@,
                configuration.block_len(),
                first_match(old(self).slots(*configuration), fingerprint@, false, 0),
                data_block::zero_block(configuration.block_len() as nat),
            ),
            !found ==> final(self)@ == old(self)@,
    {
        match self.find(fingerprint, configuration) {
            Some(index) => {
                let mut data = self.get_data_block(index, configuration);
                data.reset();
                let ghost block = data@;
                proof {
                    slot::lemma_zero_slot(*configuration, block);
                    lemma_with_block(*configuration, old(self).data@, index as int, block);
                }
                true
            },
            None => false,
        }
    }

    /// Ages all LRU counters in this bucket.
    pub fn age_lru_counters(
        &mut self,
        configuration: &CuckooConfiguration,
        lru_config: &(LruConfig, DataBlockFieldConfiguration),
    )
        requires
            old(self).wf(*configuration),
            configuration.lru_field() == Some(*lru_config),
        ensures
            final(self).wf(*configuration),
            final(self).slots(*configuration).len() == old(self).slots(*configuration).len(),
            forall|i: int|
                0 <= i < old(self).slots(*configuration).len() ==> #[trigger] final(self).slots(
                    *configuration,
                )[i] == configuration.lru_aged(old(self).slots(*configuration)[i]),
            forall|i: int|
                0 <= i < old(self).slots(*configuration).len() ==> lru_aged_bytes(
                    *lru_config,
                    block_at(old(self)@, configuration.block_len(), i),
                    #[trigger] block_at(final(self)@, configuration.block_len(), i),
                ),
    {
        let ghost before = self.slots(*configuration);
        let ghost start = self.data@;
        let ghost size = configuration.data_block_size as int;
        let mut i: usize = 0;
        while i < configuration.bucket_size
            invariant
                i <= configuration.bucket_size,
                self.wf(*configuration),
                configuration.lru_field_config == Some(*lru_config),
                before.len() == configuration.bucket_size,
                forall|j: int|
                    0 <= j < i ==> #[trigger] self.slots(*configuration)[j]
                        == configuration.lru_aged(before[j]),
                forall|j: int|
                    i <= j < before.len() ==> #[trigger] self.slots(*configuration)[j] == before[j],
                size == configuration.data_block_size,
                forall|j: int|
                    0 <= j < i ==> lru_aged_bytes(
                        *lru_config,
                        block_at(start, size, j),
                        #[trigger] block_at(self.data@, size, j),
                    ),
                forall|j: int|
                    i <= j < before.len() ==> #[trigger] block_at(self.data@, size, j) == block_at(
                        start,
                        size,
                        j,
                    ),
            decreases configuration.bucket_size - i,
        {
            let ghost data = self.data@;
            let mut block = self.get_data_block(i, configuration);
            let ghost old_block = block@;
            let removed: bool = block.age_lru_counter(lru_config);
            let ghost new_block = block@;
            proof {
                if removed {
                    slot::lemma_zero_slot(*configuration, new_block);
                } else {
                    slot::lemma_stored_lru(
                        *configuration,
                        *lru_config,
                        old_block,
                        new_block,
                        lru_config.1.value(new_block),
                    );
                }
                lemma_with_block(*configuration, data, i as int, new_block);
            }
            i = i + 1;
        }
    }

    /// Ages all TTL counters in this bucket.
    ///
    /// Returns the number of removed items after aging.
    pub fn age_ttl_counters(
        &mut self,
        configuration: &CuckooConfiguration,
        ttl_config: &(TtlConfig, DataBlockFieldConfiguration),
    ) -> (removed: usize)
        requires
            old(self).wf(*configuration),
            configuration.ttl_field() == Some(*ttl_config),
        ensures
            final(self).wf(*configuration),
            final(self).slots(*configuration).len() == old(self).slots(*configuration).len(),
            forall|i: int|
                0 <= i < old(self).slots(*configuration).len() ==> #[trigger] final(self).slots(
                    *configuration,
                )[i] == configuration.ttl_aged(old(self).slots(*configuration)[i]),
            forall|i: int|
                0 <= i < old(self).slots(*configuration).len() ==> ttl_aged_bytes(
                    *ttl_config,
                    old(self).slots(*configuration)[i],
                    block_at(old(self)@, configuration.block_len(), i),
                    #[trigger] block_at(final(self)@, configuration.block_len(), i),
                ),
            removed == configuration.expired(
                old(self).slots(*configuration),
                old(self).slots(*configuration).len() as int,
            ),
    {
        let ghost before = self.slots(*configuration);
        let ghost start = self.data@;
        let ghost size = configuration.data_block_size as int;
        let mut removed: usize = 0;
        let mut i: usize = 0;
        while i < configuration.bucket_size
            invariant
                i <= configuration.bucket_size,
                removed <= i,
                removed == configuration.expired(before, i as int),
                self.wf(*configuration),
                configuration.ttl_field_config == Some(*ttl_config),
                before.len() == configuration.bucket_size,
                forall|j: int|
                    0 <= j < i ==> #[trigger] self.slots(*configuration)[j]
                        == configuration.ttl_aged(before[j]),
                forall|j: int|
                    i <= j < before.len() ==> #[trigger] self.slots(*configuration)[j] == before[j],
                size == configuration.data_block_size,
                forall|j: int|
                    0 <= j < i ==> ttl_aged_bytes(
                        *ttl_config,
                        before[j],
                        block_at(start, size, j),
                        #[trigger] block_at(self.data@, size, j),
                    ),
                forall|j: int|
                    i <= j < before.len() ==> #[trigger] block_at(self.data@, size, j) == block_at(
                        start,
                        size,
                        j,
                    ),
            decreases configuration.bucket_size - i,
        {
            if self.peek_data_block(i, configuration).occupied(configuration) {
                let ghost data = self.data@;
                let mut block = self.get_data_block(i, configuration);
                let ghost old_block = block@;
                let expired: bool = block.age_ttl_counter(ttl_config);
                let ghost new_block = block@;
                proof {
                    if expired {
                        slot::lemma_zero_slot(*configuration, new_block);
                    } else {
                        slot::lemma_stored_ttl(
                            *configuration,
                            *ttl_config,
                            old_block,
                            new_block,
                            ttl_config.1.value(new_block),
                        );
                    }
                    lemma_with_block(*configuration, data, i as int, new_block);
                }
                if expired {
                    removed = removed + 1;
                }
            }
            i = i + 1;
        }
        removed
    }
}

proof fn lemma_next_index(start: int, skipped: int, size: int)
    requires
        0 <= start < size,
        0 < skipped <= size,
    ensures
        (start + skipped) % size == (if (start + skipped - 1) % size + 1 < size {
            (start + skipped - 1) % size + 1
        } else {
            0
        }),
{
    let n = start + skipped;
    if n < size {
        assert(n % size == n && (n - 1) % size == n - 1) by (nonlinear_arith)
            requires
                0 < n < size,
        ;
    } else if n == size {
        assert(n % size == 0 && (n - 1) % size == n - 1) by (nonlinear_arith)
            requires
                0 < n == size,
        ;
    } else {
        vstd::arithmetic::div_mod::lemma_fundamental_div_mod_converse(n, size, 1, n - size);
        vstd::arithmetic::div_mod::lemma_fundamental_div_mod_converse(
            n - 1,
            size,
            1,
            n - 1 - size,
        );
    }
}

/// Values to store with the fingerprint on insertion.
#[derive(Clone, Copy, Debug)]
pub struct InsertValues {
    /// TTL to set for the fingerprint on insertion.
    /// This is ignored if the TTL configuration is not enabled.
    pub ttl: Option<u32>,
    /// Counter to set to the fingerprint on insertion.
    /// This is ignored if the counter configuration is not enabled.
    pub counter: Option<i32>,
}

impl Default for InsertValues {
    fn default() -> (values: Self)
        ensures
            values.ttl is None,
            values.counter is None,
    {
        Self { ttl: None, counter: None }
    }
}

/// Values to store with the fingerprint on lookups.
#[derive(Clone, Copy, Debug)]
pub struct LookupValues {
    /// TTL to set for the fingerprint on lookup.
    /// This is ignored if the TTL configuration is not enabled.
    pub ttl: Option<u32>,
    /// Counter diff to apply (add/remove) to the fingerprint on lookups.
    /// This is ignored if the counter configuration is not enabled.
    pub counter_diff: Option<i32>,
}

impl Default for LookupValues {
    fn default() -> (values: Self)
        ensures
            values.ttl is None,
            values.counter_diff is None,
    {
        Self { ttl: None, counter_diff: None }
    }
}

} // verus!
