//! Filter configurations and keys made up from arbitrary values, to exercise a filter with.
use crate::config::{
    BitCount, CuckooConfiguration, CuckooConfigurationBuilder, LruAgingStrategy, LruConfig,
    TtlConfig,
};
use crate::numbers;
use crate::numbers::{div_ceil, next_power_of_two, NonZeroU32, NonZeroUsize};
use vstd::prelude::*;

verus! {

/// An arbitrary aging strategy.
#[derive(Debug)]
pub enum AgingStrategy {
    /// Halve the counters.
    Halving,
    /// Reduce the counters by a value.
    Decrement(u32),
}

impl From<&AgingStrategy> for LruAgingStrategy {
    fn from(value: &AgingStrategy) -> (strategy: Self) {
        match value {
            AgingStrategy::Halving => LruAgingStrategy::Halving,
            AgingStrategy::Decrement(val) => LruAgingStrategy::Decrement(*val),
        }
    }
}

impl vstd::std_specs::convert::FromSpecImpl<&AgingStrategy> for LruAgingStrategy {
    open spec fn obeys_from_spec() -> bool {
        true
    }

    open spec fn from_spec(value: &AgingStrategy) -> Self {
        value.strategy()
    }
}

impl AgingStrategy {
    /// The strategy that this stands for.
    pub open spec fn strategy(&self) -> LruAgingStrategy {
        match self {
            AgingStrategy::Halving => LruAgingStrategy::Halving,
            AgingStrategy::Decrement(value) => LruAgingStrategy::Decrement(*value),
        }
    }
}

/// An arbitrary LRU configuration, which may be invalid.
#[derive(Debug)]
pub struct LruConf {
    /// Bits of the counter.
    pub bits: usize,
    /// Whether items are removed when their counter reaches 0.
    pub remove_on_zero: bool,
    /// How counters age.
    pub aging_strategy: AgingStrategy,
    /// Counter of a new item.
    pub starting_value: u32,
    /// Increment of the counter on each access.
    pub increment: u32,
}

/// An arbitrary TTL configuration, which may be invalid.
#[derive(Debug)]
pub struct TtlConf {
    /// Bits of the TTL.
    pub bits: usize,
    /// TTL of a new item.
    pub ttl: NonZeroU32,
}

/// An arbitrary filter configuration, which may be invalid, and keys to use the filter with.
#[derive(Debug)]
pub struct CuckooConf {
    /// Number of entries to make room for.
    pub max_entries: usize,
    /// Bits of a fingerprint.
    pub fingerprint_bits: usize,
    /// Slots of a bucket.
    pub bucket_size: NonZeroUsize,
    /// LRU configuration, if enabled.
    pub lru: Option<LruConf>,
    /// TTL configuration, if enabled.
    pub ttl: Option<TtlConf>,
    /// Keys to insert.
    pub inserts: Vec<String>,
    /// Keys to look up.
    pub lookups: Vec<String>,
    /// Keys to remove.
    pub deletes: Vec<String>,
}

/// Whether a number can be a bit count.
pub open spec fn is_bit_count(bits: usize) -> bool {
    BitCount::MIN <= bits <= BitCount::MAX
}

impl CuckooConf {
    /// Whether all fields have sizes that a field can have.
    pub open spec fn has_valid_bits(&self) -> bool {
        &&& is_bit_count(self.fingerprint_bits)
        &&& self.lru matches Some(lru) ==> is_bit_count(lru.bits)
        &&& self.ttl matches Some(ttl) ==> is_bit_count(ttl.bits)
    }

    /// The builder of the filter configuration, if all fields have sizes that a field can have.
    pub open spec fn builder(&self) -> CuckooConfigurationBuilder {
        CuckooConfigurationBuilder {
            fingerprint_bits: BitCount::of(self.fingerprint_bits),
            bucket_size: self.bucket_size,
            max_entries: self.max_entries,
            max_kicks: 500,
            lru: match self.lru {
                Some(lru) => Some(
                    LruConfig {
                        counter_bits: BitCount::of(lru.bits),
                        remove_on_zero: lru.remove_on_zero,
                        aging_strategy: lru.aging_strategy.strategy(),
                        starting_value: lru.starting_value,
                        increment: lru.increment,
                    },
                ),
                None => None,
            },
            ttl: match self.ttl {
                Some(ttl) => Some(TtlConfig { ttl: ttl.ttl, ttl_bits: BitCount::of(ttl.bits) }),
                None => None,
            },
            counter: None,
        }
    }

    /// Whether the filter is small enough to be used.
    pub open spec fn is_small(&self) -> bool {
        self.builder().bucket_total() * self.bucket_size@ <= 2_000_000_000int / 8
    }
}

/// Builds the filter configuration. Returns None if it is invalid, or if the filter gets too big.
pub fn prep_config(conf: &CuckooConf) -> (configuration: Option<CuckooConfiguration>)
    requires
        numbers::has_next_power_of_two(conf.builder().required_buckets()),
    ensures
        configuration is Some == (conf.is_small() && conf.has_valid_bits()
            && conf.builder().bucket_len() <= usize::MAX),
        configuration matches Some(configuration) ==> conf.builder().builds(configuration),
{
    let bucket_size: usize = conf.bucket_size.get();
    let required_bucket_count: usize = div_ceil(conf.max_entries, bucket_size);
    let bucket_count: usize = next_power_of_two(required_bucket_count);
    proof {
        numbers::lemma_next_power_is_unique(
            required_bucket_count as nat,
            bucket_count as nat,
            conf.builder().bucket_total(),
        );
    }
    let too_big: bool = match bucket_count.checked_mul(bucket_size) {
        Some(slots) => slots > 2_000_000_000 / 8,
        None => true,
    };
    if too_big {
        return None;
    }
    let fingerprint_bits = match BitCount::try_from(conf.fingerprint_bits) {
        Ok(bits) => bits,
        Err(_) => {
            return None;
        },
    };
    let mut config = CuckooConfiguration::builder(conf.max_entries).fingerprint_bits(
        fingerprint_bits,
    ).bucket_size(conf.bucket_size);
    if let Some(lru) = &conf.lru {
        let counter_bits = match BitCount::try_from(lru.bits) {
            Ok(bits) => bits,
            Err(_) => {
                return None;
            },
        };
        config = config.with_lru(
            LruConfig {
                counter_bits,
                remove_on_zero: lru.remove_on_zero,
                aging_strategy: LruAgingStrategy::from(&lru.aging_strategy),
                starting_value: lru.starting_value,
                increment: lru.increment,
            },
        );
    }
    if let Some(ttl) = &conf.ttl {
        let ttl_bits = match BitCount::try_from(ttl.bits) {
            Ok(bits) => bits,
            Err(_) => {
                return None;
            },
        };
        config = config.with_ttl(TtlConfig { ttl: ttl.ttl, ttl_bits });
    }
    assert(config == conf.builder());
    match config.build() {
        Ok(config) => Some(config),
        Err(_) => None,
    }
}

} // verus!
