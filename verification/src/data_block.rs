//! A slot of a bucket: a byte string that holds a fingerprint and its associated fields.
use crate::bits;
use crate::bits::{read_word, write_word};
use crate::bucket::LookupValues;
use crate::config::{CounterConfig, CuckooConfiguration, LruAgingStrategy, LruConfig, TtlConfig};
use crate::slot;
use std::ops::Range;
use vstd::prelude::*;

verus! {

/// Represents a fingerprint of an item, stored in the [`crate::CuckooFilter`].
///
/// Generally, fingerprint access should not be needed for regular filter usage, but it can be
/// useful to confirm if the evicted fingerprint matches a known item.
#[derive(Debug, Hash, Clone, Copy, PartialEq, Eq, Structural)]
pub struct Fingerprint {
    pub(crate) data: u32,
}

impl Fingerprint {
    /// The number that identifies the fingerprint.
    pub open(crate) spec fn view(self) -> u32 {
        self.data
    }

    /// The fingerprint that a hash has under a mask: its masked bits, except that 0 stands for an
    /// empty slot and 1 takes its place.
    pub open spec fn of_hash(hash: u32, mask: u32) -> u32 {
        if hash & mask == 0 {
            1
        } else {
            hash & mask
        }
    }

    /// Creates the fingerprint of a hash.
    pub fn new(hash: u32, mask: u32) -> (fingerprint: Self)
        ensures
            fingerprint@ == Self::of_hash(hash, mask),
            fingerprint@ != 0,
    {
        let mut data: u32 = hash & mask;
        // Since fingerprint 0 represents an empty slot, we just shift it up by 1
        // This will result in slightly higher collision rate
        if data == 0 {
            data = 1;
        }
        Self { data }
    }

    /// Returns true if this represents an empty fingerprint (an empty slot).
    pub fn is_empty(&self) -> (empty: bool)
        ensures
            empty == (self@ == 0),
    {
        self.data == 0
    }

    /// Returns the underlying data.
    pub fn data(&self) -> (data: u32)
        ensures
            data == self@,
    {
        self.data
    }
}

impl From<u32> for Fingerprint {
    fn from(value: u32) -> (fingerprint: Self) {
        Self { data: value }
    }
}

impl vstd::std_specs::convert::FromSpecImpl<u32> for Fingerprint {
    open spec fn obeys_from_spec() -> bool {
        true
    }

    open(crate) spec fn from_spec(value: u32) -> Self {
        Fingerprint { data: value }
    }
}

/// Configuration for a field in a [`DataBlock`] (a single slot in a bucket).
#[derive(Clone, Copy, Debug, PartialEq, Eq)]
pub struct DataBlockFieldConfiguration {
    /// First bit of the field.
    pub(crate) start: usize,
    /// The bit after the last bit of the field.
    pub(crate) end: usize,
    /// First byte that holds a bit of this field.
    pub(crate) first_byte: usize,
    /// Number of bytes that hold bits of this field. Not all of their bits belong to the field:
    /// `mask` says which do.
    pub(crate) byte_count: usize,
    /// Mask for this field. When applied to the number that the bytes of the field spell, the
    /// stored field is retrieved. A field has at most 32 bits, but can spread over 5 bytes.
    pub(crate) mask: u64,
    /// Since the field doesn't have to end with a byte, shift is used to correct the value after
    /// masking.
    pub(crate) shift: u64,
    /// Mask for incoming values, so that they don't overflow into other fields.
    pub(crate) in_value_mask: u32,
}

impl DataBlockFieldConfiguration {
    #[verifier::type_invariant]
    pub open(crate) spec fn inv(self) -> bool {
        &&& self.start < self.end
        &&& self.end - self.start <= 32
        &&& self.first_byte == self.start / 8
        &&& self.first_byte + self.byte_count == (self.end - 1) / 8 + 1
        &&& self.byte_count <= 5
        &&& self.shift == 8 * (self.first_byte + self.byte_count) - self.end
        &&& self.mask == (((1u64 << ((self.end - self.start) as u64)) - 1) as u64) << self.shift
        &&& self.in_value_mask == bits::low_mask(self.end - self.start)
    }

    /// First bit of the field.
    pub open(crate) spec fn spec_start(self) -> int {
        self.start as int
    }

    /// The bit after the last bit of the field.
    pub open(crate) spec fn spec_end(self) -> int {
        self.end as int
    }

    /// The largest value of the field, which is also the mask for incoming values.
    pub open spec fn max(self) -> u32 {
        bits::low_mask(self.spec_end() - self.spec_start())
    }

    /// The value of the field in a block with the given bytes.
    pub open spec fn value(self, block: Seq<u8>) -> u32 {
        bits::bits_value(block, self.spec_start(), self.spec_end()) as u32
    }

    /// Whether a block of `len` bytes holds the field.
    pub open spec fn fits(self, len: int) -> bool {
        self.spec_end() <= 8 * len
    }

    /// Whether `after` differs from `before` only in that the field holds `value`.
    pub open spec fn stored(self, before: Seq<u8>, after: Seq<u8>, value: u32) -> bool {
        &&& after.len() == before.len()
        &&& self.value(after) == value
        &&& forall|i: int|
            0 <= i < 8 * before.len() && !(self.spec_start() <= i < self.spec_end())
                ==> #[trigger] bits::bit(after, i) == bits::bit(before, i)
    }

    /// Creates a new [`DataBlockFieldConfiguration`] from the range of bits that it takes up. Bit
    /// indexes start from the beginning of the [`DataBlock`], meaning from the start of the first
    /// field (which will always be the [`Fingerprint`]).
    pub fn new(bits: Range<usize>) -> (field: Self)
        requires
            bits.start < bits.end,
            bits.end - bits.start <= 32,
            bits.end <= usize::MAX - 7,
        ensures
            field.inv(),
            field.spec_start() == bits.start,
            field.spec_end() == bits.end,
    {
        let first_byte: usize = bits.start / 8;
        let last_byte: usize = (bits.end - 1) / 8;
        let shift: u64 = ((last_byte + 1) * 8 - bits.end) as u64;
        let len: u64 = (bits.end - bits.start) as u64;
        proof {
            bits::lemma_low_mask(len);
        }
        let in_value_mask: u32 = ((1u64 << len) - 1) as u32;
        Self {
            start: bits.start,
            end: bits.end,
            first_byte,
            byte_count: last_byte + 1 - first_byte,
            mask: ((1u64 << len) - 1) << shift,
            shift,
            in_value_mask,
        }
    }

    /// Mask for incoming values, which is also the largest value of the field.
    pub fn value_mask(&self) -> (mask: u32)
        ensures
            mask == self.max(),
    {
        proof {
            use_type_invariant(&*self);
        }
        self.in_value_mask
    }
}

/// Bytes that a [`DataBlock`] can read: owned, borrowed or mutably borrowed ones.
pub trait Bytes {
    /// The bytes.
    spec fn bytes(&self) -> Seq<u8>;

    /// Borrows the bytes.
    fn as_bytes(&self) -> (bytes: &[u8])
        ensures
            bytes@ == self.bytes(),
    ;
}

impl Bytes for Vec<u8> {
    open spec fn bytes(&self) -> Seq<u8> {
        self@
    }

    fn as_bytes(&self) -> (bytes: &[u8]) {
        self.as_slice()
    }
}

impl<'a> Bytes for &'a [u8] {
    open spec fn bytes(&self) -> Seq<u8> {
        self@
    }

    fn as_bytes(&self) -> (bytes: &[u8]) {
        *self
    }
}

impl<'a> Bytes for &'a mut [u8] {
    open spec fn bytes(&self) -> Seq<u8> {
        self@
    }

    fn as_bytes(&self) -> (bytes: &[u8]) {
        &**self
    }
}

/// Simple wrapper for a slot in a bucket. Enables access to the fields stored in the slot.
pub struct DataBlock<T>(pub T);

impl<'a> From<&'a [u8]> for DataBlock<&'a [u8]> {
    fn from(value: &'a [u8]) -> (block: Self) {
        Self(value)
    }
}

impl<'a> vstd::std_specs::convert::FromSpecImpl<&'a [u8]> for DataBlock<&'a [u8]> {
    open spec fn obeys_from_spec() -> bool {
        true
    }

    open spec fn from_spec(value: &'a [u8]) -> Self {
        DataBlock(value)
    }
}

impl<'a> From<&'a mut [u8]> for DataBlock<&'a mut [u8]> {
    fn from(value: &'a mut [u8]) -> (block: Self)
        ensures
            block@ == old(value)@,
            final(value)@ == final(block.0)@,
    {
        Self(value)
    }
}

impl<'a> vstd::std_specs::convert::FromSpecImpl<&'a mut [u8]> for DataBlock<&'a mut [u8]> {
    open spec fn obeys_from_spec() -> bool {
        false
    }

    open spec fn from_spec(value: &'a mut [u8]) -> Self {
        DataBlock(value)
    }
}

impl<T: Bytes> DataBlock<T> {
    /// The bytes of the block.
    pub open spec fn view(&self) -> Seq<u8> {
        self.0.bytes()
    }

    /// Provides read-only access to underlying bytes.
    pub fn inner(&self) -> (bytes: &[u8])
        ensures
            bytes@ == self@,
    {
        self.0.as_bytes()
    }

    /// Loads bits defined by the [`DataBlockFieldConfiguration`] and converts them to [`u32`].
    pub fn load_bits(&self, config: &DataBlockFieldConfiguration) -> (value: u32)
        requires
            config.fits(self@.len() as int),
        ensures
            value == config.value(self@),
            value == bits::bits_value(self@, config.spec_start(), config.spec_end()),
            value <= config.max(),
    {
        proof {
            use_type_invariant(config);
        }
        let data = self.0.as_bytes();
        let word: u64 = read_word(data, config.first_byte, config.byte_count);
        proof {
            bits::lemma_word_value(
                word,
                self@,
                config.first_byte as int,
                config.byte_count as int,
                config.start as int,
                config.end as int,
                config.mask,
                config.shift,
            );
            bits::lemma_bits_value_bound(self@, config.start as int, config.end as int);
            bits::lemma_low_mask((config.end - config.start) as u64);
        }
        ((word & config.mask) >> config.shift) as u32
    }

    /// Loads fingerprint based on fingerprint configuration in the [`CuckooConfiguration`].
    pub fn get_fingerprint(&self, configuration: &CuckooConfiguration) -> (fingerprint: Fingerprint)
        requires
            configuration.fingerprint_field().fits(self@.len() as int),
        ensures
            fingerprint@ == configuration.slot(self@).fingerprint,
    {
        Fingerprint { data: self.load_bits(&configuration.fingerprint_field_config) }
    }

    /// Whether the block holds an item.
    pub fn occupied(&self, configuration: &CuckooConfiguration) -> (occupied: bool)
        requires
            configuration.fingerprint_field().fits(self@.len() as int),
        ensures
            occupied == (configuration.slot(self@).fingerprint != 0),
    {
        !self.get_fingerprint(configuration).is_empty()
    }

    /// Loads LRU based on the provided [`DataBlockFieldConfiguration`].
    pub fn get_lru_counter(
        &self,
        configuration: &(LruConfig, DataBlockFieldConfiguration),
    ) -> (counter: u32)
        requires
            configuration.1.fits(self@.len() as int),
        ensures
            counter == configuration.1.value(self@),
    {
        self.load_bits(&configuration.1)
    }

    /// Loads generic counter based on the provided [`DataBlockFieldConfiguration`].
    pub fn get_counter(
        &self,
        configuration: &(CounterConfig, DataBlockFieldConfiguration),
    ) -> (counter: u32)
        requires
            configuration.1.fits(self@.len() as int),
        ensures
            counter == configuration.1.value(self@),
    {
        self.load_bits(&configuration.1)
    }

    /// Loads TTL based on the provided [`DataBlockFieldConfiguration`].
    pub fn get_ttl(
        &self,
        configuration: &(TtlConfig, DataBlockFieldConfiguration),
    ) -> (ttl: u32)
        requires
            configuration.1.fits(self@.len() as int),
        ensures
            ttl == configuration.1.value(self@),
    {
        self.load_bits(&configuration.1)
    }
}

/// A block of zero bytes.
pub open spec fn zero_block(len: nat) -> Seq<u8> {
    Seq::new(len, |i: int| 0u8)
}

impl DataBlock<Vec<u8>> {
    /// Borrows an owned block for changes.
    pub fn as_mut_block<'a>(&'a mut self) -> (block: DataBlock<&'a mut [u8]>)
        ensures
            block@ == old(self)@,
            final(self)@ == final(block.0)@,
    {
        DataBlock(self.0.as_mut_slice())
    }
}

impl<'a> DataBlock<&'a mut [u8]> {
    /// Stores the value as bits defined by the [`DataBlockFieldConfiguration`].
    pub fn store_bits(&mut self, config: &DataBlockFieldConfiguration, value: u32)
        requires
            config.fits(old(self)@.len() as int),
        ensures
            config.stored(old(self)@, final(self)@, value & config.max()),
            final(final(self).0)@ == final(old(self).0)@,
    {
        proof {
            use_type_invariant(config);
        }
        let ghost before = self@;
        let n: Ghost<u64> = Ghost((config.end - config.start) as u64);
        let masked_new_value: u64 = (value & config.in_value_mask) as u64;
        let loaded: u64 = read_word(&*self.0, config.first_byte, config.byte_count);
        let final_value: u64 = (loaded & !config.mask) | (masked_new_value << config.shift);
        write_word(self.0, config.first_byte, config.byte_count, final_value);
        proof {
            let after = self@;
            let first = config.first_byte as int;
            let count = config.byte_count as int;
            bits::lemma_low_mask(n@);
            bits::lemma_mask_value(value, n@);
            bits::lemma_replaced_bit(loaded, masked_new_value, config.mask, config.shift, n@, 0);
            bits::lemma_word_value(
                final_value,
                after,
                first,
                count,
                config.start as int,
                config.end as int,
                config.mask,
                config.shift,
            );
            assert forall|i: int|
                0 <= i < 8 * before.len() && !(config.start <= i
                    < config.end) implies #[trigger] bits::bit(after, i) == bits::bit(before, i) by {
                if 8 * first <= i < 8 * (first + count) {
                    let k = 8 * (first + count) - 1 - i;
                    bits::lemma_replaced_bit(loaded, masked_new_value, config.mask, config.shift, n@, k);
                    assert(bits::word_bit(final_value, k) == bits::bit(after, 8 * (first + count) - 1 - k));
                    assert(bits::word_bit(loaded, k) == bits::bit(before, 8 * (first + count) - 1 - k));
                } else {
                    assert(!(first <= i / 8 < first + count));
                }
            }
        }
    }

    /// Stores the fingerprint based on fingerprint configuration in the [`CuckooConfiguration`].
    pub fn store_fingerprint(
        &mut self,
        fingerprint: &Fingerprint,
        configuration: &CuckooConfiguration,
    )
        requires
            configuration.fingerprint_field().fits(old(self)@.len() as int),
        ensures
            configuration.fingerprint_field().stored(
                old(self)@,
                final(self)@,
                fingerprint@ & configuration.fingerprint_max(),
            ),
            final(final(self).0)@ == final(old(self).0)@,
    {
        self.store_bits(&configuration.fingerprint_field_config, fingerprint.data);
    }

    /// Resets this data block by setting all bits to 0.
    pub fn reset(&mut self)
        ensures
            final(self)@ == zero_block(old(self)@.len()),
            final(final(self).0)@ == final(old(self).0)@,
    {
        let len: usize = self.0.len();
        let mut i: usize = 0;
        while i < len
            invariant
                i <= len,
                self@.len() == len == old(self)@.len(),
                forall|j: int| 0 <= j < i ==> self@[j] == 0u8,
                final(self.0)@ == final(old(self).0)@,
            decreases len - i,
        {
            self.0[i] = 0;
            i = i + 1;
        }
        assert(self@ =~= zero_block(len as nat));
    }

    /// Copies another data block over this one.
    pub fn copy_from<T: Bytes>(&mut self, other: &DataBlock<T>)
        requires
            old(self)@.len() == other@.len(),
        ensures
            final(self)@ == other@,
            final(final(self).0)@ == final(old(self).0)@,
    {
        let bytes = other.inner();
        let len: usize = self.0.len();
        let mut i: usize = 0;
        while i < len
            invariant
                i <= len,
                self@.len() == len == bytes@.len(),
                forall|j: int| 0 <= j < i ==> self@[j] == bytes@[j],
                final(self.0)@ == final(old(self).0)@,
            decreases len - i,
        {
            self.0[i] = bytes[i];
            i = i + 1;
        }
        assert(self@ =~= other@);
    }

    /// Swaps this data block with another data block. Both data blocks should come from the same
    /// filter, so that they have the same length.
    pub fn swap(&mut self, other: &mut DataBlock<Vec<u8>>)
        requires
            old(self)@.len() == old(other)@.len(),
        ensures
            final(self)@ == old(other)@,
            final(other)@ == old(self)@,
            final(final(self).0)@ == final(old(self).0)@,
    {
        let len: usize = self.0.len();
        let mut i: usize = 0;
        while i < len
            invariant
                i <= len,
                self@.len() == len == old(self)@.len(),
                other@.len() == len == old(other)@.len(),
                forall|j: int| 0 <= j < i ==> self@[j] == old(other)@[j],
                forall|j: int| 0 <= j < i ==> other@[j] == old(self)@[j],
                forall|j: int| i <= j < len ==> self@[j] == old(self)@[j],
                forall|j: int| i <= j < len ==> other@[j] == old(other)@[j],
                final(self.0)@ == final(old(self).0)@,
            decreases len - i,
        {
            let b: u8 = self.0[i];
            self.0[i] = other.0[i];
            other.0[i] = b;
            i = i + 1;
        }
        assert(self@ =~= old(other)@);
        assert(other@ =~= old(self)@);
    }

    /// Increments the LRU counter, based on the provided configuration. The counter stops at the
    /// largest value of the field.
    pub fn inc_lru_counter(&mut self, configuration: &(LruConfig, DataBlockFieldConfiguration))
        requires
            configuration.1.fits(old(self)@.len() as int),
        ensures
            configuration.1.stored(
                old(self)@,
                final(self)@,
                slot::raised(
                    configuration.1.value(old(self)@),
                    configuration.0.increment,
                    configuration.1.max(),
                ),
            ),
            final(final(self).0)@ == final(old(self).0)@,
    {
        self.raise_bits(&configuration.1, configuration.0.increment);
    }

    /// Gives the LRU counter of a new item its starting value, based on the provided configuration.
    /// The counter stops at the largest value of the field.
    pub fn start_lru_counter(&mut self, configuration: &(LruConfig, DataBlockFieldConfiguration))
        requires
            configuration.1.fits(old(self)@.len() as int),
        ensures
            configuration.1.stored(
                old(self)@,
                final(self)@,
                slot::raised(
                    configuration.1.value(old(self)@),
                    configuration.0.starting_value,
                    configuration.1.max(),
                ),
            ),
            final(final(self).0)@ == final(old(self).0)@,
    {
        self.raise_bits(&configuration.1, configuration.0.starting_value);
    }

    /// Adds to a field. The sum stops at the largest value of the field.
    fn raise_bits(&mut self, config: &DataBlockFieldConfiguration, by: u32)
        requires
            config.fits(old(self)@.len() as int),
        ensures
            config.stored(
                old(self)@,
                final(self)@,
                slot::raised(config.value(old(self)@), by, config.max()),
            ),
            final(final(self).0)@ == final(old(self).0)@,
    {
        proof {
            use_type_invariant(config);
            bits::lemma_mask_value(config.max(), (config.end - config.start) as u64);
        }
        let value: u32 = self.load_bits(config);
        let mut new_value: u32 = value.saturating_add(by);
        // Value mask is also the max possible value
        if new_value > config.value_mask() {
            new_value = config.value_mask();
        }
        proof {
            bits::lemma_mask_value(new_value, (config.end - config.start) as u64);
        }
        self.store_bits(config, new_value);
    }

    /// Ages the LRU counter, based on the provided configuration, and clears out the data if the
    /// counter reaches 0 and the configuration asks for that.
    ///
    /// Returns true if the data was cleared out.
    pub fn age_lru_counter(
        &mut self,
        configuration: &(LruConfig, DataBlockFieldConfiguration),
    ) -> (removed: bool)
        requires
            configuration.1.fits(old(self)@.len() as int),
        ensures
            ({
                let aged = configuration.0.aging_strategy.aged(
                    configuration.1.value(old(self)@),
                );
                &&& removed == (configuration.0.remove_on_zero && aged == 0)
                &&& !removed ==> configuration.1.stored(old(self)@, final(self)@, aged)
                &&& removed ==> final(self)@ == zero_block(old(self)@.len())
            }),
            final(final(self).0)@ == final(old(self).0)@,
    {
        let counter: u32 = self.load_bits(&configuration.1);
        let aged: u32 = match configuration.0.aging_strategy {
            LruAgingStrategy::Halving => counter / 2,
            LruAgingStrategy::Decrement(by) => counter.saturating_sub(by),
        };
        proof {
            use_type_invariant(&configuration.1);
            bits::lemma_mask_value(aged, (configuration.1.end - configuration.1.start) as u64);
        }
        self.store_bits(&configuration.1, aged);
        if configuration.0.remove_on_zero && aged == 0 {
            self.reset();
            true
        } else {
            false
        }
    }

    /// Ages the TTL counter, based on the provided [`DataBlockFieldConfiguration`] and clears out
    /// the data if it reaches 0.
    ///
    /// Aging is done by reducing the TTL counter by 1.
    ///
    /// Returns true if the data was cleared out.
    pub fn age_ttl_counter(
        &mut self,
        configuration: &(TtlConfig, DataBlockFieldConfiguration),
    ) -> (removed: bool)
        requires
            configuration.1.fits(old(self)@.len() as int),
        ensures
            ({
                let aged = slot::lowered(configuration.1.value(old(self)@), 1);
                &&& removed == (aged == 0)
                &&& !removed ==> configuration.1.stored(old(self)@, final(self)@, aged)
                &&& removed ==> final(self)@ == zero_block(old(self)@.len())
            }),
            final(final(self).0)@ == final(old(self).0)@,
    {
        let counter: u32 = self.load_bits(&configuration.1).saturating_sub(1);
        proof {
            use_type_invariant(&configuration.1);
            bits::lemma_mask_value(counter, (configuration.1.end - configuration.1.start) as u64);
        }
        self.store_bits(&configuration.1, counter);
        if counter == 0 {
            self.reset();
            true
        } else {
            false
        }
    }

    /// Increments the generic counter, based on the provided [`DataBlockFieldConfiguration`], by
    /// the provided value.
    pub fn inc_counter(
        &mut self,
        configuration: &(CounterConfig, DataBlockFieldConfiguration),
        by: u32,
    )
        requires
            configuration.1.fits(old(self)@.len() as int),
        ensures
            configuration.1.stored(
                old(self)@,
                final(self)@,
                slot::raised(configuration.1.value(old(self)@), by, configuration.1.max()),
            ),
            final(final(self).0)@ == final(old(self).0)@,
    {
        self.raise_bits(&configuration.1, by);
    }

    /// Decrements the generic counter, based on the provided [`DataBlockFieldConfiguration`], by
    /// the provided value.
    pub fn dec_counter(
        &mut self,
        configuration: &(CounterConfig, DataBlockFieldConfiguration),
        by: u32,
    )
        requires
            configuration.1.fits(old(self)@.len() as int),
        ensures
            configuration.1.stored(
                old(self)@,
                final(self)@,
                slot::lowered(configuration.1.value(old(self)@), by),
            ),
            final(final(self).0)@ == final(old(self).0)@,
    {
        let counter: u32 = self.load_bits(&configuration.1).saturating_sub(by);
        proof {
            use_type_invariant(&configuration.1);
            bits::lemma_mask_value(counter, (configuration.1.end - configuration.1.start) as u64);
        }
        self.store_bits(&configuration.1, counter);
    }

    /// Changes the generic counter, based on the provided [`DataBlockFieldConfiguration`], by the
    /// provided difference.
    pub fn update_counter(
        &mut self,
        configuration: &(CounterConfig, DataBlockFieldConfiguration),
        diff: i32,
    )
        requires
            configuration.1.fits(old(self)@.len() as int),
        ensures
            configuration.1.stored(
                old(self)@,
                final(self)@,
                slot::changed(configuration.1.value(old(self)@), diff, configuration.1.max()),
            ),
            final(final(self).0)@ == final(old(self).0)@,
    {
        proof {
            use_type_invariant(&configuration.1);
            slot::lemma_field_bound(configuration.1, self@);
        }
        if diff >= 0 {
            self.inc_counter(configuration, diff as u32);
        } else {
            let by: i64 = -(diff as i64);
            self.dec_counter(configuration, by as u32);
        }
    }

    /// Sets the TTL counter, based on the provided [`DataBlockFieldConfiguration`].
    pub fn set_ttl(&mut self, configuration: &(TtlConfig, DataBlockFieldConfiguration), ttl: u32)
        requires
            configuration.1.fits(old(self)@.len() as int),
        ensures
            configuration.1.stored(old(self)@, final(self)@, ttl & configuration.1.max()),
            final(final(self).0)@ == final(old(self).0)@,
    {
        self.store_bits(&configuration.1, ttl);
    }

    /// Merges the associated data of an item that is inserted again into this data block: takes
    /// over its TTL, applies the counter change of an insertion and increments the LRU counter.
    pub fn merge_associated_from<T: Bytes>(
        &mut self,
        other: &DataBlock<T>,
        configuration: &CuckooConfiguration,
    )
        requires
            configuration.block_len() <= old(self)@.len(),
            configuration.block_len() <= other@.len(),
        ensures
            final(self)@.len() == old(self)@.len(),
            configuration.slot(final(self)@) == configuration.merged(
                configuration.slot(old(self)@),
                configuration.slot(other@),
            ),
            final(final(self).0)@ == final(old(self).0)@,
    {
        proof {
            use_type_invariant(configuration);
        }
        if let Some(ttl_config) = configuration.ttl_field_config() {
            let ghost before = self@;
            self.set_ttl(ttl_config, other.get_ttl(ttl_config));
            proof {
                slot::lemma_stored_ttl(
                    *configuration,
                    *ttl_config,
                    before,
                    self@,
                    configuration.slot(other@).ttl & ttl_config.1.max(),
                );
            }
        }
        if let Some(counter_config) = configuration.counter_field_config() {
            let ghost before = self@;
            self.update_counter(counter_config, counter_config.0.change_on_insert);
            proof {
                slot::lemma_stored_counter(
                    *configuration,
                    *counter_config,
                    before,
                    self@,
                    configuration.slot(self@).counter,
                );
            }
        }
        if let Some(lru_config) = configuration.lru_field_config() {
            let ghost before = self@;
            self.inc_lru_counter(lru_config);
            proof {
                slot::lemma_stored_lru(
                    *configuration,
                    *lru_config,
                    before,
                    self@,
                    configuration.slot(self@).lru,
                );
            }
        }
    }

    /// Updates the associated data of an item that a lookup has found.
    pub fn update_on_lookup(
        &mut self,
        configuration: &CuckooConfiguration,
        update: &LookupValues,
    )
        requires
            configuration.block_len() <= old(self)@.len(),
        ensures
            final(self)@.len() == old(self)@.len(),
            configuration.slot(final(self)@) == configuration.looked_up(
                configuration.slot(old(self)@),
                *update,
            ),
            final(final(self).0)@ == final(old(self).0)@,
    {
        self.update_on_access(configuration, update);
        self.count_use(configuration);
    }

    /// Increments the LRU counter, if enabled.
    pub fn count_use(&mut self, configuration: &CuckooConfiguration)
        requires
            configuration.block_len() <= old(self)@.len(),
        ensures
            final(self)@.len() == old(self)@.len(),
            configuration.slot(final(self)@) == configuration.lru_incremented(
                configuration.slot(old(self)@),
            ),
            final(final(self).0)@ == final(old(self).0)@,
    {
        proof {
            use_type_invariant(configuration);
        }
        if let Some(lru_config) = configuration.lru_field_config() {
            let ghost before = self@;
            self.inc_lru_counter(lru_config);
            proof {
                slot::lemma_stored_lru(
                    *configuration,
                    *lru_config,
                    before,
                    self@,
                    configuration.slot(self@).lru,
                );
            }
        }
    }

    /// Updates the generic counter and the TTL of an item that a lookup has found.
    pub fn update_on_access(
        &mut self,
        configuration: &CuckooConfiguration,
        update: &LookupValues,
    )
        requires
            configuration.block_len() <= old(self)@.len(),
        ensures
            final(self)@.len() == old(self)@.len(),
            configuration.slot(final(self)@) == configuration.accessed(
                configuration.slot(old(self)@),
                *update,
            ),
            final(final(self).0)@ == final(old(self).0)@,
    {
        proof {
            use_type_invariant(configuration);
        }
        if let Some(counter_config) = configuration.counter_field_config() {
            let ghost before = self@;
            let diff: i32 = match update.counter_diff {
                Some(diff) => diff,
                None => counter_config.0.change_on_lookup,
            };
            self.update_counter(counter_config, diff);
            proof {
                slot::lemma_stored_counter(
                    *configuration,
                    *counter_config,
                    before,
                    self@,
                    configuration.slot(self@).counter,
                );
            }
        }
        if let Some(ttl_config) = configuration.ttl_field_config() {
            if let Some(ttl) = update.ttl {
                let ghost before = self@;
                self.set_ttl(ttl_config, ttl);
                proof {
                    slot::lemma_stored_ttl(
                        *configuration,
                        *ttl_config,
                        before,
                        self@,
                        ttl & ttl_config.1.max(),
                    );
                }
            }
        }
    }
}

} // verus!
