//! This module provides configuration types for [`crate::CuckooFilter`].
use crate::data_block::DataBlockFieldConfiguration;
use crate::numbers;
use crate::numbers::{div_ceil, next_power_of_two, NonZeroU32, NonZeroUsize};
use std::ops::{Add, Deref};
use vstd::prelude::*;

verus! {

/// Error type for all configuration options.
#[derive(Debug)]
pub enum ConfigError {
    /// Error due to requesting buckets that are too big to represent (requiring over
    /// [`usize::MAX`] bytes).
    BucketTooBig,
    /// Error due to requesting more than 32 bits for any of the fields (fingerprint or associated
    /// field).
    BitCountTooHigh,
    /// Error due to requesting 0 bits for a field. If a field is enabled, it should take up at
    /// least 1 bit.
    BitCountTooLow,
}

impl ConfigError {
    /// The text of the error.
    pub open spec fn text(&self) -> Seq<char> {
        match self {
            ConfigError::BucketTooBig =>
                "Filter configuration requires buckets that are too big!"@,
            ConfigError::BitCountTooHigh => "Bit count is too high! Max is 32."@,
            ConfigError::BitCountTooLow => "Bit count too low! Min is 1."@,
        }
    }

    /// Describes the error.
    pub fn message(&self) -> (text: String)
        ensures
            text@ == self.text(),
    {
        match self {
            ConfigError::BucketTooBig =>
                "Filter configuration requires buckets that are too big!".to_owned(),
            ConfigError::BitCountTooHigh => "Bit count is too high! Max is 32.".to_owned(),
            ConfigError::BitCountTooLow => "Bit count too low! Min is 1.".to_owned(),
        }
    }
}

/// Number of bits. Used to define sizes of the fields.
///
/// This value is limited by [`BitCount::MIN`] and [`BitCount::MAX`] and can only be created using
/// the [`TryFrom`] trait, to ensure the bit count is validated.
#[derive(Clone, Copy, Debug, PartialEq, Eq)]
pub struct BitCount(usize);

impl BitCount {
    /// Maximum allowed value for [`BitCount`]
    pub const MAX: usize = 32;

    /// Minimum allowed value for [`BitCount`]
    pub const MIN: usize = 1;

    #[verifier::type_invariant]
    spec fn inv(self) -> bool {
        Self::MIN <= self.0 <= Self::MAX
    }

    /// The number of bits.
    pub closed spec fn view(self) -> usize {
        self.0
    }

    /// Returns the number of bits.
    pub fn get(self) -> (bits: usize)
        ensures
            bits == self@,
            Self::MIN <= bits <= Self::MAX,
    {
        proof {
            use_type_invariant(&self);
        }
        self.0
    }

    /// A number in range, as a bit count.
    pub closed spec fn of(value: usize) -> Self {
        BitCount(value)
    }

    /// A bit count is known by its number.
    pub proof fn lemma_of(value: usize)
        ensures
            Self::of(value)@ == value,
    {
    }

    /// Every bit count is that of its number.
    pub proof fn lemma_of_view(bits: Self)
        ensures
            Self::of(bits@) == bits,
    {
    }
}

impl Deref for BitCount {
    type Target = usize;

    fn deref(&self) -> (bits: &usize)
        ensures
            *bits == self@,
    {
        &self.0
    }
}

impl TryFrom<usize> for BitCount {
    type Error = ConfigError;

    fn try_from(value: usize) -> (result: Result<Self, ConfigError>) {
        if value > Self::MAX {
            return Err(ConfigError::BitCountTooHigh);
        }
        if value < Self::MIN {
            return Err(ConfigError::BitCountTooLow);
        }
        Ok(Self(value))
    }
}

impl vstd::std_specs::convert::TryFromSpecImpl<usize> for BitCount {
    open spec fn obeys_try_from_spec() -> bool {
        true
    }

    open spec fn try_from_spec(value: usize) -> Result<Self, ConfigError> {
        if value > 32 {
            Err(ConfigError::BitCountTooHigh)
        } else if value < 1 {
            Err(ConfigError::BitCountTooLow)
        } else {
            Ok(BitCount::of(value))
        }
    }
}

impl From<BitCount> for usize {
    fn from(value: BitCount) -> (bits: usize) {
        value.get()
    }
}

impl vstd::std_specs::convert::FromSpecImpl<BitCount> for usize {
    open spec fn obeys_from_spec() -> bool {
        true
    }

    open spec fn from_spec(value: BitCount) -> usize {
        value@
    }
}

// Since bit count can't be higher than 32
// Conversion into any integer is fine
impl From<BitCount> for u64 {
    fn from(value: BitCount) -> (bits: u64) {
        value.get() as u64
    }
}

impl vstd::std_specs::convert::FromSpecImpl<BitCount> for u64 {
    open spec fn obeys_from_spec() -> bool {
        true
    }

    open spec fn from_spec(value: BitCount) -> u64 {
        value@ as u64
    }
}

impl From<BitCount> for u32 {
    fn from(value: BitCount) -> (bits: u32) {
        value.get() as u32
    }
}

impl vstd::std_specs::convert::FromSpecImpl<BitCount> for u32 {
    open spec fn obeys_from_spec() -> bool {
        true
    }

    open spec fn from_spec(value: BitCount) -> u32 {
        value@ as u32
    }
}

impl From<BitCount> for u16 {
    fn from(value: BitCount) -> (bits: u16) {
        value.get() as u16
    }
}

impl vstd::std_specs::convert::FromSpecImpl<BitCount> for u16 {
    open spec fn obeys_from_spec() -> bool {
        true
    }

    open spec fn from_spec(value: BitCount) -> u16 {
        value@ as u16
    }
}

impl From<BitCount> for u8 {
    fn from(value: BitCount) -> (bits: u8) {
        value.get() as u8
    }
}

impl vstd::std_specs::convert::FromSpecImpl<BitCount> for u8 {
    open spec fn obeys_from_spec() -> bool {
        true
    }

    open spec fn from_spec(value: BitCount) -> u8 {
        value@ as u8
    }
}

impl Add<usize> for BitCount {
    type Output = usize;

    fn add(self, rhs: usize) -> (sum: usize) {
        self.get() + rhs
    }
}

impl vstd::std_specs::ops::AddSpecImpl<usize> for BitCount {
    open spec fn obeys_add_spec() -> bool {
        true
    }

    open spec fn add_req(self, rhs: usize) -> bool {
        self@ + rhs <= usize::MAX
    }

    open spec fn add_spec(self, rhs: usize) -> usize {
        (self@ + rhs) as usize
    }
}

impl Add<BitCount> for usize {
    type Output = usize;

    fn add(self, rhs: BitCount) -> (sum: usize) {
        self + rhs.get()
    }
}

impl vstd::std_specs::ops::AddSpecImpl<BitCount> for usize {
    open spec fn obeys_add_spec() -> bool {
        true
    }

    open spec fn add_req(self, rhs: BitCount) -> bool {
        self + rhs@ <= usize::MAX
    }

    open spec fn add_spec(self, rhs: BitCount) -> usize {
        (self + rhs@) as usize
    }
}

/// How LRU counters age when a filter is scanned.
#[derive(Clone, Copy, Debug, PartialEq, Eq)]
pub enum LruAgingStrategy {
    /// The counter is halved.
    Halving,
    /// The counter is reduced by a fixed value, down to 0.
    Decrement(u32),
}

impl LruAgingStrategy {
    /// The counter after aging once.
    pub open spec fn aged(self, counter: u32) -> u32 {
        match self {
            LruAgingStrategy::Halving => counter / 2,
            LruAgingStrategy::Decrement(by) => if counter <= by {
                0
            } else {
                (counter - by) as u32
            },
        }
    }
}

impl Default for LruAgingStrategy {
    fn default() -> (strategy: Self)
        ensures
            strategy == LruAgingStrategy::Halving,
    {
        LruAgingStrategy::Halving
    }
}

/// Configuration for the LRU field.
///
/// Used to define memory used by the LRU field, also affecting its maximum value, and how the
/// counter starts, grows and ages.
#[derive(Clone, Copy, Debug, PartialEq, Eq)]
pub struct LruConfig {
    /// Number of bits used to represent the LRU counter.
    /// Larger bit counts allow more values to be represented, allowing items to "accumulate"
    /// higher use counts, which will take longer to age.
    pub counter_bits: BitCount,
    /// Whether an item is removed when aging brings its LRU counter to 0.
    pub remove_on_zero: bool,
    /// How the LRU counter ages.
    pub aging_strategy: LruAgingStrategy,
    /// LRU counter of a newly inserted item.
    pub starting_value: u32,
    /// Increment of the LRU counter on each access.
    pub increment: u32,
}

impl Default for LruConfig {
    fn default() -> (config: Self)
        ensures
            config.counter_bits@ == 8,
            !config.remove_on_zero,
            config.aging_strategy == LruAgingStrategy::Halving,
            config.starting_value == 1,
            config.increment == 1,
    {
        Self {
            counter_bits: BitCount(8),
            remove_on_zero: false,
            aging_strategy: LruAgingStrategy::Halving,
            starting_value: 1,
            increment: 1,
        }
    }
}

/// Configuration for the TTL field.
///
/// Used to define memory used by the TTL field and the default value.
#[derive(Clone, Copy, Debug, PartialEq, Eq)]
pub struct TtlConfig {
    /// The default TTL counter value for newly inserted items. The actual lifetime duration will
    /// be defined by this value combined with the frequency of calls to
    /// [`crate::CuckooFilter::scan_and_update_full`]. Each call to
    /// [`crate::CuckooFilter::scan_and_update_full`] will reduce the counter by 1, until it
    /// reaches 0, when the item is removed.
    pub ttl: NonZeroU32,
    /// Number of bits used to represent the TTL counter.
    /// Larger bit counts allow higher TTL to be represented.
    pub ttl_bits: BitCount,
}

/// Configuration for the generic counter field.
///
/// Used to define memory used by the generic counter field, also affecting its maximum value.
#[derive(Clone, Copy, Debug, PartialEq, Eq)]
pub struct CounterConfig {
    /// How many bits are used to represent the generic counter.
    /// Larger bit counts allow higher counter values to be represented.
    pub counter_bits: BitCount,
    /// Diff to apply to counter on each insert.
    pub change_on_insert: i32,
    /// Diff to apply to counter on each lookup.
    pub change_on_lookup: i32,
}

impl Default for CounterConfig {
    fn default() -> (config: Self)
        ensures
            config.counter_bits@ == 4,
            config.change_on_insert == 1,
            config.change_on_lookup == 1,
    {
        Self { counter_bits: BitCount(4), change_on_insert: 1, change_on_lookup: 1 }
    }
}

/// Builder for [`CuckooConfiguration`].
///
/// New instance can be created using [`CuckooConfiguration::builder`].
#[derive(Clone, Copy, Debug)]
pub struct CuckooConfigurationBuilder {
    /// Number of bits of a fingerprint.
    pub fingerprint_bits: BitCount,
    /// Number of slots in a bucket.
    pub bucket_size: NonZeroUsize,
    /// Number of entries that the filter has slots for.
    pub max_entries: usize,
    /// Maximum number of kicks of an insertion.
    pub max_kicks: usize,
    /// The LRU feature, if enabled.
    pub lru: Option<LruConfig>,
    /// The TTL feature, if enabled.
    pub ttl: Option<TtlConfig>,
    /// The counter feature, if enabled.
    pub counter: Option<CounterConfig>,
}

impl CuckooConfigurationBuilder {
    /// Bits of the LRU field, 0 if it is not enabled.
    pub open spec fn lru_bits(self) -> int {
        match self.lru {
            Some(lru) => lru.counter_bits@ as int,
            None => 0,
        }
    }

    /// Bits of the TTL field, 0 if it is not enabled.
    pub open spec fn ttl_bits(self) -> int {
        match self.ttl {
            Some(ttl) => ttl.ttl_bits@ as int,
            None => 0,
        }
    }

    /// Bits of the counter field, 0 if it is not enabled.
    pub open spec fn counter_bits(self) -> int {
        match self.counter {
            Some(counter) => counter.counter_bits@ as int,
            None => 0,
        }
    }

    /// Bytes of a slot: the sum of all field bits, rounded up to bytes.
    pub open spec fn block_bytes(self) -> nat {
        numbers::ceil_div(
            (self.fingerprint_bits@ + self.lru_bits() + self.ttl_bits() + self.counter_bits())
                as nat,
            8,
        )
    }

    /// The number of buckets that hold the requested number of entries.
    pub open spec fn required_buckets(self) -> nat {
        numbers::ceil_div(self.max_entries as nat, self.bucket_size@ as nat)
    }

    /// Whether `configuration` is what the builder asks for.
    pub open(crate) spec fn builds(self, configuration: CuckooConfiguration) -> bool {
        let fp_end = self.fingerprint_bits@ as int;
        let lru_end = fp_end + self.lru_bits();
        let ttl_end = lru_end + self.ttl_bits();
        let counter_end = ttl_end + self.counter_bits();
        &&& configuration.inv()
        &&& configuration.bucket_size == self.bucket_size@
        &&& configuration.max_kicks == self.max_kicks
        &&& configuration.fingerprint_field_config.spec_start() == 0
        &&& configuration.fingerprint_field_config.spec_end() == fp_end
        &&& field_at(configuration.lru_field_config, self.lru, fp_end, lru_end)
        &&& field_at(configuration.ttl_field_config, self.ttl, lru_end, ttl_end)
        &&& field_at(configuration.counter_field_config, self.counter, ttl_end, counter_end)
        &&& configuration.data_block_size == self.block_bytes()
        &&& configuration.bucket_byte_size == self.bucket_size@ * self.block_bytes()
        &&& numbers::is_next_power_of_two(self.required_buckets(), configuration.bucket_count as nat)
    }

    /// Sets the number of bits used for fingerprint. Higher number of bits should result in less
    /// collisions, which should result in a lower false positive rate, at the cost of increased
    /// memory usage.
    #[must_use]
    pub fn fingerprint_bits(self, bits: BitCount) -> (builder: Self)
        ensures
            builder == (Self { fingerprint_bits: bits, ..self }),
    {
        Self { fingerprint_bits: bits, ..self }
    }

    /// Sets the number of slots to hold in a bucket. Larger buckets improve filter occupancy
    /// (space utilization), but they also require larger fingerprints to retain the same false
    /// positive rate.
    ///
    /// 5.1. Optimal bucket size in [the original paper] describes this relation.
    ///
    /// [the original paper]: https://www.cs.cmu.edu/~dga/papers/cuckoo-conext2014.pdf
    #[must_use]
    pub fn bucket_size(self, size: NonZeroUsize) -> (builder: Self)
        ensures
            builder == (Self { bucket_size: size, ..self }),
    {
        Self { bucket_size: size, ..self }
    }

    /// Maximum number of kicks to perform if all requested slots are occupied when inserting new
    /// items. Items will be evicted and moved to their alternate slots until no more evictions are
    /// required or maximum number of kicks is reached.
    ///
    /// If the maximum number of kicks is reached, one item will be lost from the filter.
    ///
    /// Increasing this number will increase filter occupancy at the cost of insertion speed.
    #[must_use]
    pub fn max_kicks(self, kicks: usize) -> (builder: Self)
        ensures
            builder == (Self { max_kicks: kicks, ..self }),
    {
        Self { max_kicks: kicks, ..self }
    }

    /// Enables LRU eviction for the filter. Kicks will no longer be performed randomly and will
    /// always target least recently used items, until either no more evictions are required, max
    /// number of kicks was reached or the kicked item is to be moved in a bucket with all slots
    /// occupied by more used items.
    ///
    /// When LRU is used, [`crate::CuckooFilter::scan_and_update_full`] should be called
    /// periodically, to age LRU for all items. It is up to the caller to schedule this process.
    /// More frequent scans will result in faster aging LRU for all items, requiring item to be
    /// used more frequently to outlive other items.
    #[must_use]
    pub fn with_lru(self, lru: LruConfig) -> (builder: Self)
        ensures
            builder == (Self { lru: Some(lru), ..self }),
    {
        Self { lru: Some(lru), ..self }
    }

    /// Enables TTL for items in the filter. TTL will be used to expire items from the filter when
    /// [`crate::CuckooFilter::scan_and_update_full`] is called.
    ///
    /// When TTL is used, [`crate::CuckooFilter::scan_and_update_full`] should be called
    /// periodically, to age TTL for all items. It is up to the caller to schedule this process.
    /// More frequent scans will result in lower TTL for all items.
    #[must_use]
    pub fn with_ttl(self, ttl: TtlConfig) -> (builder: Self)
        ensures
            builder == (Self { ttl: Some(ttl), ..self }),
    {
        Self { ttl: Some(ttl), ..self }
    }

    /// Enables counter for items in the filter. Counter is just provided as a value that can be
    /// read when accessing items. It is increased on every access (and can be controlled
    /// directly).
    #[must_use]
    pub fn with_counter(self, counter: CounterConfig) -> (builder: Self)
        ensures
            builder == (Self { counter: Some(counter), ..self }),
    {
        Self { counter: Some(counter), ..self }
    }

    /// Validates and builds the configuration.
    ///
    /// # Errors
    ///
    /// [`ConfigError::BucketTooBig`] if requested buckets are too big to represent with
    /// [`usize::MAX`]. Bucket size is defined as [`Self::bucket_size`] * item bits (sum of all
    /// fields bits, rounded to byte).
    pub fn build(&self) -> (result: Result<CuckooConfiguration, ConfigError>)
        requires
            numbers::has_next_power_of_two(self.required_buckets()),
        ensures
            result is Ok <==> self.bucket_size@ * self.block_bytes() <= usize::MAX,
            result matches Ok(configuration) ==> self.builds(configuration),
            result matches Err(error) ==> error is BucketTooBig,
    {
        let bucket_size: usize = self.bucket_size.get();
        let required_bucket_count: usize = div_ceil(self.max_entries, bucket_size);
        let bucket_count: usize = next_power_of_two(required_bucket_count);
        let fp_end: usize = self.fingerprint_bits.get();
        let lru_end: usize = match &self.lru {
            Some(lru) => fp_end + lru.counter_bits.get(),
            None => fp_end,
        };
        let ttl_end: usize = match &self.ttl {
            Some(ttl) => lru_end + ttl.ttl_bits.get(),
            None => lru_end,
        };
        let counter_end: usize = match &self.counter {
            Some(counter) => ttl_end + counter.counter_bits.get(),
            None => ttl_end,
        };
        let data_block_size: usize = div_ceil(counter_end, 8);
        let bucket_byte_size: usize = match bucket_size.checked_mul(data_block_size) {
            Some(size) => size,
            None => {
                return Err(ConfigError::BucketTooBig);
            },
        };
        let lru_field_config = match self.lru {
            Some(lru) => {
                proof {
                    use_type_invariant(&lru.counter_bits);
                }
                Some((lru, DataBlockFieldConfiguration::new(fp_end..lru_end)))
            },
            None => None,
        };
        let ttl_field_config = match self.ttl {
            Some(ttl) => {
                proof {
                    use_type_invariant(&ttl.ttl_bits);
                    use_type_invariant(&ttl.ttl);
                }
                Some((ttl, DataBlockFieldConfiguration::new(lru_end..ttl_end)))
            },
            None => None,
        };
        let counter_field_config = match self.counter {
            Some(counter) => {
                proof {
                    use_type_invariant(&counter.counter_bits);
                }
                Some((counter, DataBlockFieldConfiguration::new(ttl_end..counter_end)))
            },
            None => None,
        };
        proof {
            lemma_low_half(bucket_count);
        }
        Ok(
            CuckooConfiguration {
                bucket_size,
                max_kicks: self.max_kicks,
                fingerprint_field_config: DataBlockFieldConfiguration::new(0..fp_end),
                lru_field_config,
                ttl_field_config,
                counter_field_config,
                data_block_size,
                bucket_byte_size,
                bucket_count,
                buckets_mask: #[verifier::truncate] ((bucket_count - 1) as u32),
            },
        )
    }
}

proof fn lemma_low_half(bucket_count: usize)
    requires
        bucket_count > 0,
    ensures
        ((bucket_count - 1) as u32) < bucket_count,
{
    let n = (bucket_count - 1) as u64;
    assert(n as u32 <= n) by (bit_vector);
}

/// Whether a feature is enabled as asked for, with its field at the given bits.
pub open spec fn field_at<C>(
    field: Option<(C, DataBlockFieldConfiguration)>,
    config: Option<C>,
    start: int,
    end: int,
) -> bool {
    match field {
        Some((c, f)) => config == Some(c) && f.spec_start() == start && f.spec_end() == end,
        None => config is None,
    }
}

/// The end of a field, or of the field before it if the feature is not enabled.
pub open spec fn field_end<C>(field: Option<(C, DataBlockFieldConfiguration)>, start: int) -> int {
    match field {
        Some((_, f)) => f.spec_end(),
        None => start,
    }
}

/// Configuration for the [`crate::CuckooFilter`].
///
/// Used to define main cuckoo filter parameters (capacity, bucket size, fingerprint size,
/// max kicks), as well as additional features (TTL, LRU, generic counter).
///
/// Create a new instance using [`CuckooConfiguration::builder`].
#[derive(Clone, Copy, Debug, PartialEq, Eq)]
pub struct CuckooConfiguration {
    pub(crate) bucket_size: usize,
    pub(crate) max_kicks: usize,
    pub(crate) fingerprint_field_config: DataBlockFieldConfiguration,
    pub(crate) lru_field_config: Option<(LruConfig, DataBlockFieldConfiguration)>,
    pub(crate) counter_field_config: Option<(CounterConfig, DataBlockFieldConfiguration)>,
    pub(crate) ttl_field_config: Option<(TtlConfig, DataBlockFieldConfiguration)>,
    pub(crate) data_block_size: usize,
    pub(crate) bucket_byte_size: usize,
    pub(crate) bucket_count: usize,
    pub(crate) buckets_mask: u32,
}

impl CuckooConfiguration {
    /// The fields of a slot follow each other, the slot holds them, and an index that fits the
    /// mask is the index of a bucket.
    #[verifier::type_invariant]
    pub open(crate) spec fn inv(self) -> bool {
        let fp_end = self.fingerprint_field_config.spec_end();
        let lru_end = field_end(self.lru_field_config, fp_end);
        let ttl_end = field_end(self.ttl_field_config, lru_end);
        let counter_end = field_end(self.counter_field_config, ttl_end);
        &&& self.bucket_size > 0
        &&& self.fingerprint_field_config.inv()
        &&& self.fingerprint_field_config.spec_start() == 0
        &&& self.lru_field_config matches Some((c, f)) ==> f.inv() && f.spec_start() == fp_end
            && f.spec_end() == fp_end + c.counter_bits@
        &&& self.ttl_field_config matches Some((c, f)) ==> f.inv() && f.spec_start() == lru_end
            && f.spec_end() == lru_end + c.ttl_bits@ && c.ttl@ != 0
        &&& self.counter_field_config matches Some((c, f)) ==> f.inv() && f.spec_start() == ttl_end
            && f.spec_end() == ttl_end + c.counter_bits@
        &&& counter_end <= 8 * self.data_block_size
        &&& self.data_block_size == numbers::ceil_div(counter_end as nat, 8)
        &&& 0 < self.data_block_size <= 16
        &&& self.bucket_byte_size == self.bucket_size * self.data_block_size
        &&& (exists|k: nat| self.bucket_count == vstd::arithmetic::power2::pow2(k))
        &&& self.buckets_mask == (self.bucket_count - 1) as u32
        &&& self.buckets_mask < self.bucket_count
    }

    /// Where the fingerprint is in a slot.
    pub open(crate) spec fn fingerprint_field(self) -> DataBlockFieldConfiguration {
        self.fingerprint_field_config
    }

    /// The LRU feature and where its counter is in a slot.
    pub open(crate) spec fn lru_field(self) -> Option<(LruConfig, DataBlockFieldConfiguration)> {
        self.lru_field_config
    }

    /// The TTL feature and where its counter is in a slot.
    pub open(crate) spec fn ttl_field(self) -> Option<(TtlConfig, DataBlockFieldConfiguration)> {
        self.ttl_field_config
    }

    /// The counter feature and where its counter is in a slot.
    pub open(crate) spec fn counter_field(self) -> Option<
        (CounterConfig, DataBlockFieldConfiguration),
    > {
        self.counter_field_config
    }

    /// The number of bytes of a slot.
    pub open(crate) spec fn block_len(self) -> int {
        self.data_block_size as int
    }

    /// The number of bytes of a bucket.
    pub open(crate) spec fn bucket_len(self) -> int {
        self.bucket_byte_size as int
    }

    /// The number of slots of a bucket.
    pub open(crate) spec fn slot_count(self) -> int {
        self.bucket_size as int
    }

    /// The number of buckets.
    pub open(crate) spec fn bucket_total(self) -> int {
        self.bucket_count as int
    }

    /// The largest number of kicks of an insertion.
    pub open(crate) spec fn kick_limit(self) -> int {
        self.max_kicks as int
    }

    /// Returns the LRU feature and where its counter is in a slot, if enabled.
    pub fn lru_field_config(&self) -> (field: Option<&(LruConfig, DataBlockFieldConfiguration)>)
        ensures
            field matches Some(f) ==> self.lru_field() == Some(*f) && f.1.fits(self.block_len()),
            field is None ==> self.lru_field() is None,
    {
        proof {
            use_type_invariant(&*self);
        }
        self.lru_field_config.as_ref()
    }

    /// Returns the TTL feature and where its counter is in a slot, if enabled.
    pub fn ttl_field_config(&self) -> (field: Option<&(TtlConfig, DataBlockFieldConfiguration)>)
        ensures
            field matches Some(f) ==> self.ttl_field() == Some(*f) && f.1.fits(self.block_len()),
            field is None ==> self.ttl_field() is None,
    {
        proof {
            use_type_invariant(&*self);
        }
        self.ttl_field_config.as_ref()
    }

    /// Returns the counter feature and where its counter is in a slot, if enabled.
    pub fn counter_field_config(&self) -> (field: Option<
        &(CounterConfig, DataBlockFieldConfiguration),
    >)
        ensures
            field matches Some(f) ==> self.counter_field() == Some(*f) && f.1.fits(
                self.block_len(),
            ),
            field is None ==> self.counter_field() is None,
    {
        proof {
            use_type_invariant(&*self);
        }
        self.counter_field_config.as_ref()
    }

    /// Creates a new instance of [`CuckooConfigurationBuilder`] with provided maximum number of
    /// entries.
    #[must_use]
    pub fn builder(max_entries: usize) -> (builder: CuckooConfigurationBuilder)
        ensures
            builder.fingerprint_bits@ == 8,
            builder.bucket_size@ == 4,
            builder.max_entries == max_entries,
            builder.max_kicks == 500,
            builder.lru is None,
            builder.ttl is None,
            builder.counter is None,
    {
        CuckooConfigurationBuilder {
            fingerprint_bits: BitCount(8),
            bucket_size: NonZeroUsize::new(4),
            max_entries,
            max_kicks: 500,
            lru: None,
            ttl: None,
            counter: None,
        }
    }
}

} // verus!
