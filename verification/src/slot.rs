//! What a slot of a bucket holds, as numbers.
//!
//! A slot is a byte string. Its configuration says which bits of it are the fingerprint, the LRU
//! counter, the TTL counter and the generic counter. The bits that are left after these fields are
//! taken as one more number, so that the numbers say all there is to know of the bytes. The
//! operations of the filter are described here by what they do to these numbers.
use crate::bits;
use crate::bucket::{InsertValues, LookupValues};
use crate::config;
use crate::config::{CounterConfig, CuckooConfiguration, LruConfig, TtlConfig};
use crate::data_block::DataBlockFieldConfiguration;
use vstd::prelude::*;

verus! {

/// The numbers that a slot holds. A field that is not enabled is 0.
#[verifier::ext_equal]
pub struct SlotView {
    /// The fingerprint, 0 for an empty slot.
    pub fingerprint: u32,
    /// The LRU counter.
    pub lru: u32,
    /// The TTL counter.
    pub ttl: u32,
    /// The generic counter.
    pub counter: u32,
    /// What the bits after all fields spell. No operation uses them.
    pub rest: nat,
}

/// A slot with nothing in it.
pub open spec fn empty_slot() -> SlotView {
    SlotView { fingerprint: 0, lru: 0, ttl: 0, counter: 0, rest: 0 }
}

/// `value` raised by `by`, but not above `max`.
pub open spec fn raised(value: u32, by: u32, max: u32) -> u32 {
    if value + by > max {
        max
    } else {
        (value + by) as u32
    }
}

/// `value` lowered by `by`, but not below 0.
pub open spec fn lowered(value: u32, by: u32) -> u32 {
    if value <= by {
        0
    } else {
        (value - by) as u32
    }
}

/// `value` changed by `diff`, kept between 0 and `max`.
pub open spec fn changed(value: u32, diff: i32, max: u32) -> u32 {
    if value + diff < 0 {
        0
    } else if value + diff > max {
        max
    } else {
        (value + diff) as u32
    }
}

/// The value of a field that may not be enabled.
pub open spec fn optional_value<C>(
    field: Option<(C, DataBlockFieldConfiguration)>,
    block: Seq<u8>,
) -> u32 {
    match field {
        Some((_, f)) => f.value(block),
        None => 0,
    }
}

impl CuckooConfiguration {
    /// The bit after the last field of a slot.
    pub open(crate) spec fn fields_end(self) -> int {
        config::field_end(
            self.counter_field_config,
            config::field_end(
                self.ttl_field_config,
                config::field_end(self.lru_field_config, self.fingerprint_field_config.spec_end()),
            ),
        )
    }

    /// The numbers that a slot with the given bytes holds.
    pub open(crate) spec fn slot(self, block: Seq<u8>) -> SlotView {
        SlotView {
            fingerprint: self.fingerprint_field_config.value(block),
            lru: optional_value(self.lru_field_config, block),
            ttl: optional_value(self.ttl_field_config, block),
            counter: optional_value(self.counter_field_config, block),
            rest: bits::bits_value(block, self.fields_end(), 8 * block.len() as int),
        }
    }

    /// The largest fingerprint.
    pub open(crate) spec fn fingerprint_max(self) -> u32 {
        self.fingerprint_field_config.max()
    }

    /// The slot after its LRU counter was incremented.
    pub open(crate) spec fn lru_incremented(self, slot: SlotView) -> SlotView {
        match self.lru_field_config {
            Some((c, f)) => SlotView { lru: raised(slot.lru, c.increment, f.max()), ..slot },
            None => slot,
        }
    }

    /// The slot after its LRU counter was aged.
    pub open(crate) spec fn lru_aged(self, slot: SlotView) -> SlotView {
        match self.lru_field_config {
            Some((c, _)) => if c.remove_on_zero && c.aging_strategy.aged(slot.lru) == 0 {
                empty_slot()
            } else {
                SlotView { lru: c.aging_strategy.aged(slot.lru), ..slot }
            },
            None => slot,
        }
    }

    /// The slot after its TTL counter was aged. Only an occupied slot ages.
    pub open(crate) spec fn ttl_aged(self, slot: SlotView) -> SlotView {
        if self.ttl_field_config is None || slot.fingerprint == 0 {
            slot
        } else if slot.ttl <= 1 {
            empty_slot()
        } else {
            SlotView { ttl: (slot.ttl - 1) as u32, ..slot }
        }
    }

    /// The slot after its TTL counter was set. What does not fit the field is cut off.
    pub open(crate) spec fn ttl_set(self, slot: SlotView, ttl: u32) -> SlotView {
        match self.ttl_field_config {
            Some((_, f)) => SlotView { ttl: ttl & f.max(), ..slot },
            None => slot,
        }
    }

    /// The slot after its generic counter was changed.
    pub open(crate) spec fn counter_changed(self, slot: SlotView, diff: i32) -> SlotView {
        match self.counter_field_config {
            Some((_, f)) => SlotView { counter: changed(slot.counter, diff, f.max()), ..slot },
            None => slot,
        }
    }

    /// The change of the generic counter on an insertion.
    pub open(crate) spec fn insert_diff(self) -> i32 {
        match self.counter_field_config {
            Some((c, _)) => c.change_on_insert,
            None => 0,
        }
    }

    /// The change of the generic counter on a lookup.
    pub open(crate) spec fn lookup_diff(self, update: LookupValues) -> i32 {
        match (update.counter_diff, self.counter_field_config) {
            (Some(diff), _) => diff,
            (None, Some((c, _))) => c.change_on_lookup,
            (None, None) => 0,
        }
    }

    /// The slot that a new item comes with.
    pub open(crate) spec fn new_slot(self, fingerprint: u32, values: InsertValues) -> SlotView {
        SlotView {
            fingerprint: fingerprint & self.fingerprint_max(),
            lru: match self.lru_field_config {
                Some((c, f)) => raised(0, c.starting_value, f.max()),
                None => 0,
            },
            ttl: match self.ttl_field_config {
                Some((c, f)) => (match values.ttl {
                    Some(ttl) => ttl,
                    None => c.ttl@,
                }) & f.max(),
                None => 0,
            },
            counter: match self.counter_field_config {
                Some((c, f)) => changed(
                    0,
                    match values.counter {
                        Some(counter) => counter,
                        None => c.change_on_insert,
                    },
                    f.max(),
                ),
                None => 0,
            },
            rest: 0,
        }
    }

    /// A stored slot after an item with the same fingerprint was inserted again: the TTL starts
    /// anew, the LRU counter and the generic counter move on.
    pub open(crate) spec fn merged(self, stored: SlotView, inserted: SlotView) -> SlotView {
        self.lru_incremented(
            self.counter_changed(self.ttl_set(stored, inserted.ttl), self.insert_diff()),
        )
    }

    /// A stored slot after it was found by a lookup, with the LRU counter from before the lookup.
    pub open(crate) spec fn accessed(self, stored: SlotView, update: LookupValues) -> SlotView {
        let counted = self.counter_changed(stored, self.lookup_diff(update));
        match update.ttl {
            Some(ttl) => self.ttl_set(counted, ttl),
            None => counted,
        }
    }

    /// A stored slot after it was found by a lookup.
    pub open(crate) spec fn looked_up(self, stored: SlotView, update: LookupValues) -> SlotView {
        self.lru_incremented(self.accessed(stored, update))
    }

    /// A slot after a full scan: first the LRU counter ages, then the TTL counter.
    pub open(crate) spec fn scanned(self, slot: SlotView) -> SlotView {
        self.ttl_aged(self.lru_aged(slot))
    }
}

/// Storing one field leaves the other fields as they were.
pub(crate) proof fn lemma_other_field(
    f: DataBlockFieldConfiguration,
    g: DataBlockFieldConfiguration,
    before: Seq<u8>,
    after: Seq<u8>,
    value: u32,
)
    requires
        f.stored(before, after, value),
        g.fits(before.len() as int),
        0 <= g.spec_start(),
        f.spec_end() <= g.spec_start() || g.spec_end() <= f.spec_start(),
    ensures
        g.value(after) == g.value(before),
{
    assert forall|i: int| g.spec_start() <= i < g.spec_end() implies bits::bit(after, i) == bits::bit(
        before,
        i + 0,
    ) by {
        assert(0 <= i < 8 * before.len());
    }
    bits::lemma_bits_value_frame(after, before, g.spec_start(), g.spec_end(), 0);
}

/// Storing one field leaves the bits after all fields as they were.
proof fn lemma_rest(
    cfg: CuckooConfiguration,
    f: DataBlockFieldConfiguration,
    before: Seq<u8>,
    after: Seq<u8>,
    value: u32,
)
    requires
        f.stored(before, after, value),
        0 <= f.spec_start(),
        f.spec_end() <= cfg.fields_end() <= 8 * before.len(),
        0 <= cfg.fields_end(),
    ensures
        cfg.slot(after).rest == cfg.slot(before).rest,
{
    assert forall|i: int| cfg.fields_end() <= i < 8 * after.len() implies bits::bit(after, i)
        == bits::bit(before, i + 0) by {
        assert(0 <= i < 8 * before.len());
    }
    bits::lemma_bits_value_frame(after, before, cfg.fields_end(), 8 * after.len() as int, 0);
}

/// The slot after its fingerprint was stored.
pub(crate) proof fn lemma_stored_fingerprint(
    cfg: CuckooConfiguration,
    before: Seq<u8>,
    after: Seq<u8>,
    value: u32,
)
    requires
        cfg.inv(),
        before.len() >= cfg.data_block_size,
        cfg.fingerprint_field_config.stored(before, after, value),
    ensures
        cfg.slot(after) == (SlotView { fingerprint: value, ..cfg.slot(before) }),
{
    let f = cfg.fingerprint_field_config;
    lemma_rest(cfg, f, before, after, value);
    if let Some((_, g)) = cfg.lru_field_config {
        lemma_other_field(f, g, before, after, value);
    }
    if let Some((_, g)) = cfg.ttl_field_config {
        lemma_other_field(f, g, before, after, value);
    }
    if let Some((_, g)) = cfg.counter_field_config {
        lemma_other_field(f, g, before, after, value);
    }
}

/// The slot after its LRU counter was stored.
pub(crate) proof fn lemma_stored_lru(
    cfg: CuckooConfiguration,
    lru: (LruConfig, DataBlockFieldConfiguration),
    before: Seq<u8>,
    after: Seq<u8>,
    value: u32,
)
    requires
        cfg.inv(),
        cfg.lru_field_config == Some(lru),
        before.len() >= cfg.data_block_size,
        lru.1.stored(before, after, value),
    ensures
        cfg.slot(after) == (SlotView { lru: value, ..cfg.slot(before) }),
{
    lemma_rest(cfg, lru.1, before, after, value);
    lemma_other_field(lru.1, cfg.fingerprint_field_config, before, after, value);
    if let Some((_, g)) = cfg.ttl_field_config {
        lemma_other_field(lru.1, g, before, after, value);
    }
    if let Some((_, g)) = cfg.counter_field_config {
        lemma_other_field(lru.1, g, before, after, value);
    }
}

/// The slot after its TTL counter was stored.
pub(crate) proof fn lemma_stored_ttl(
    cfg: CuckooConfiguration,
    ttl: (TtlConfig, DataBlockFieldConfiguration),
    before: Seq<u8>,
    after: Seq<u8>,
    value: u32,
)
    requires
        cfg.inv(),
        cfg.ttl_field_config == Some(ttl),
        before.len() >= cfg.data_block_size,
        ttl.1.stored(before, after, value),
    ensures
        cfg.slot(after) == (SlotView { ttl: value, ..cfg.slot(before) }),
{
    lemma_rest(cfg, ttl.1, before, after, value);
    lemma_other_field(ttl.1, cfg.fingerprint_field_config, before, after, value);
    if let Some((_, g)) = cfg.lru_field_config {
        lemma_other_field(ttl.1, g, before, after, value);
    }
    if let Some((_, g)) = cfg.counter_field_config {
        lemma_other_field(ttl.1, g, before, after, value);
    }
}

/// The slot after its generic counter was stored.
pub(crate) proof fn lemma_stored_counter(
    cfg: CuckooConfiguration,
    counter: (CounterConfig, DataBlockFieldConfiguration),
    before: Seq<u8>,
    after: Seq<u8>,
    value: u32,
)
    requires
        cfg.inv(),
        cfg.counter_field_config == Some(counter),
        before.len() >= cfg.data_block_size,
        counter.1.stored(before, after, value),
    ensures
        cfg.slot(after) == (SlotView { counter: value, ..cfg.slot(before) }),
{
    lemma_rest(cfg, counter.1, before, after, value);
    lemma_other_field(counter.1, cfg.fingerprint_field_config, before, after, value);
    if let Some((_, g)) = cfg.lru_field_config {
        lemma_other_field(counter.1, g, before, after, value);
    }
    if let Some((_, g)) = cfg.ttl_field_config {
        lemma_other_field(counter.1, g, before, after, value);
    }
}

/// Zero bytes are an empty slot.
pub(crate) proof fn lemma_zero_slot(cfg: CuckooConfiguration, block: Seq<u8>)
    requires
        cfg.inv(),
        block.len() >= cfg.data_block_size,
        forall|i: int| 0 <= i < block.len() ==> block[i] == 0u8,
    ensures
        cfg.slot(block) == empty_slot(),
{
    let f = cfg.fingerprint_field_config;
    bits::lemma_bits_value_zero(block, f.spec_start(), f.spec_end());
    bits::lemma_bits_value_zero(block, cfg.fields_end(), 8 * block.len() as int);
    if let Some((_, g)) = cfg.lru_field_config {
        bits::lemma_bits_value_zero(block, g.spec_start(), g.spec_end());
    }
    if let Some((_, g)) = cfg.ttl_field_config {
        bits::lemma_bits_value_zero(block, g.spec_start(), g.spec_end());
    }
    if let Some((_, g)) = cfg.counter_field_config {
        bits::lemma_bits_value_zero(block, g.spec_start(), g.spec_end());
    }
}

/// The fields of a slot do not exceed their largest values.
pub(crate) proof fn lemma_slot_bounds(cfg: CuckooConfiguration, block: Seq<u8>)
    requires
        cfg.inv(),
    ensures
        cfg.slot(block).fingerprint <= cfg.fingerprint_max(),
        cfg.lru_field_config matches Some((_, f)) ==> cfg.slot(block).lru <= f.max(),
        cfg.ttl_field_config matches Some((_, f)) ==> cfg.slot(block).ttl <= f.max(),
        cfg.counter_field_config matches Some((_, f)) ==> cfg.slot(block).counter <= f.max(),
{
    lemma_field_bound(cfg.fingerprint_field_config, block);
    if let Some((_, g)) = cfg.lru_field_config {
        lemma_field_bound(g, block);
    }
    if let Some((_, g)) = cfg.ttl_field_config {
        lemma_field_bound(g, block);
    }
    if let Some((_, g)) = cfg.counter_field_config {
        lemma_field_bound(g, block);
    }
}

/// The value of a field does not exceed its largest value.
pub(crate) proof fn lemma_field_bound(f: DataBlockFieldConfiguration, block: Seq<u8>)
    requires
        f.inv(),
    ensures
        f.value(block) <= f.max(),
{
    bits::lemma_bits_value_bound(block, f.spec_start(), f.spec_end());
    bits::lemma_low_mask((f.spec_end() - f.spec_start()) as u64);
}

/// A field with the same value has the same bits.
proof fn lemma_same_value(
    f: DataBlockFieldConfiguration,
    a: Seq<u8>,
    b: Seq<u8>,
    i: int,
)
    requires
        f.inv(),
        f.value(a) == f.value(b),
        f.spec_start() <= i < f.spec_end(),
    ensures
        bits::bit(a, i) == bits::bit(b, i),
{
    bits::lemma_bits_value_bound(a, f.spec_start(), f.spec_end());
    bits::lemma_bits_value_bound(b, f.spec_start(), f.spec_end());
    bits::lemma_low_mask((f.spec_end() - f.spec_start()) as u64);
    bits::lemma_bits_value_injective(a, b, f.spec_start(), f.spec_end(), i);
}

/// The numbers of a slot say all there is to know of its bytes.
pub(crate) proof fn lemma_slot_determines_bytes(cfg: CuckooConfiguration, a: Seq<u8>, b: Seq<u8>)
    requires
        cfg.inv(),
        a.len() == b.len(),
        a.len() >= cfg.data_block_size,
        cfg.slot(a) == cfg.slot(b),
    ensures
        a == b,
{
    assert forall|i: int| 0 <= i < 8 * a.len() implies #[trigger] bits::bit(a, i) == bits::bit(
        b,
        i,
    ) by {
        let fp_end = cfg.fingerprint_field_config.spec_end();
        let lru_end = config::field_end(cfg.lru_field_config, fp_end);
        let ttl_end = config::field_end(cfg.ttl_field_config, lru_end);
        if i < fp_end {
            lemma_same_value(cfg.fingerprint_field_config, a, b, i);
        } else if i < lru_end {
            lemma_same_value(cfg.lru_field_config->Some_0.1, a, b, i);
        } else if i < ttl_end {
            lemma_same_value(cfg.ttl_field_config->Some_0.1, a, b, i);
        } else if i < cfg.fields_end() {
            lemma_same_value(cfg.counter_field_config->Some_0.1, a, b, i);
        } else {
            bits::lemma_bits_value_injective(a, b, cfg.fields_end(), 8 * a.len() as int, i);
        }
    }
    bits::lemma_equal_bits(a, b);
}

} // verus!
