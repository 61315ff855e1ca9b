use cuckoo_clock::associated_data::AccessError;
use cuckoo_clock::config::{
    BitCount, ConfigError, CounterConfig, CuckooConfiguration, LruAgingStrategy, LruConfig,
    TtlConfig,
};
use cuckoo_clock::error::Error;
use cuckoo_clock::numbers::{
    div_ceil, fits_next_power_of_two, next_power_of_two, NonZeroU32, NonZeroUsize,
};
use cuckoo_clock::CuckooFilter;

#[test]
fn bit_counts_are_limited() {
    assert!(matches!(BitCount::try_from(0), Err(ConfigError::BitCountTooLow)));
    assert!(matches!(BitCount::try_from(33), Err(ConfigError::BitCountTooHigh)));
    for bits in 1..=32usize {
        let count = BitCount::try_from(bits).unwrap();
        assert_eq!(*count, bits);
        assert_eq!(usize::from(count), bits);
        assert_eq!(u64::from(count), bits as u64);
        assert_eq!(u32::from(count), bits as u32);
        assert_eq!(u16::from(count), bits as u16);
        assert_eq!(u8::from(count), bits as u8);
        assert_eq!(count + 5, bits + 5);
        assert_eq!(7 + count, bits + 7);
    }
    assert_eq!(BitCount::MIN, 1);
    assert_eq!(BitCount::MAX, 32);
}

#[test]
fn default_values() {
    let lru = LruConfig::default();
    assert_eq!(*lru.counter_bits, 8);
    assert!(!lru.remove_on_zero);
    assert_eq!(lru.aging_strategy, LruAgingStrategy::Halving);
    assert_eq!(lru.starting_value, 1);
    assert_eq!(lru.increment, 1);
    let counter = CounterConfig::default();
    assert_eq!(*counter.counter_bits, 4);
    assert_eq!(counter.change_on_insert, 1);
    assert_eq!(counter.change_on_lookup, 1);
    let builder = CuckooConfiguration::builder(77);
    assert_eq!(*builder.fingerprint_bits, 8);
    assert_eq!(builder.bucket_size.get(), 4);
    assert_eq!(builder.max_entries, 77);
    assert_eq!(builder.max_kicks, 500);
}

#[test]
fn buckets_can_be_too_big() {
    let result = CuckooConfiguration::builder(1)
        .bucket_size(usize::MAX.try_into().unwrap())
        .fingerprint_bits(9.try_into().unwrap())
        .build();
    assert!(matches!(result, Err(ConfigError::BucketTooBig)));
    // With slots of one byte they are not
    assert!(CuckooConfiguration::builder(1)
        .bucket_size(usize::MAX.try_into().unwrap())
        .build()
        .is_ok());
}

#[test]
fn fields_follow_each_other() {
    let config = CuckooConfiguration::builder(1000)
        .fingerprint_bits(13.try_into().unwrap())
        .with_lru(LruConfig {
            counter_bits: 5.try_into().unwrap(),
            ..Default::default()
        })
        .with_ttl(TtlConfig {
            ttl: 10.try_into().unwrap(),
            ttl_bits: 9.try_into().unwrap(),
        })
        .with_counter(CounterConfig::default())
        .build()
        .unwrap();
    assert_eq!(config.lru_field_config().unwrap().1.value_mask(), 0b1_1111);
    assert_eq!(config.ttl_field_config().unwrap().1.value_mask(), 0b1_1111_1111);
    assert_eq!(config.counter_field_config().unwrap().1.value_mask(), 0b1111);
    let plain = CuckooConfiguration::builder(1000).build().unwrap();
    assert!(plain.lru_field_config().is_none());
    assert!(plain.ttl_field_config().is_none());
    assert!(plain.counter_field_config().is_none());
    assert_eq!(
        CuckooFilter::new_random(config).get_configuration(),
        &config
    );
    assert_ne!(config, plain);
}

#[test]
fn error_messages() {
    assert_eq!(
        ConfigError::BucketTooBig.message(),
        "Filter configuration requires buckets that are too big!"
    );
    assert_eq!(
        ConfigError::BitCountTooHigh.message(),
        "Bit count is too high! Max is 32."
    );
    assert_eq!(
        ConfigError::BitCountTooLow.message(),
        "Bit count too low! Min is 1."
    );
    assert_eq!(
        AccessError::FeatureNotEnabled("TTL".to_string()).message(),
        "Feature (TTL) not enabled."
    );
    assert_eq!(
        Error::BucketTooBig.message(),
        "Filter configuration requires buckets that are too big!"
    );
    assert_eq!(
        Error::BitCountTooHigh.message(),
        "Bit count is too high! Max is 32."
    );
    assert_eq!(
        Error::FeatureNotEnabled("LRU".to_string()).message(),
        "Feature (LRU) not enabled."
    );
}

#[test]
fn numbers_that_are_not_zero() {
    assert!(NonZeroU32::try_from(0u32).is_err());
    assert!(NonZeroUsize::try_from(0usize).is_err());
    assert_eq!(NonZeroU32::try_from(7u32).unwrap().get(), 7);
    assert_eq!(NonZeroUsize::try_from(usize::MAX).unwrap().get(), usize::MAX);
}

#[test]
fn powers_of_two() {
    for (n, power) in [(0, 1), (1, 1), (2, 2), (3, 4), (4, 4), (5, 8), (1 << 20, 1 << 20)] {
        assert_eq!(next_power_of_two(n), power);
    }
    let highest = usize::MAX / 2 + 1;
    assert_eq!(next_power_of_two(highest), highest);
    assert!(fits_next_power_of_two(highest));
    assert!(!fits_next_power_of_two(highest + 1));
    assert_eq!(div_ceil(0, 4), 0);
    assert_eq!(div_ceil(8, 4), 2);
    assert_eq!(div_ceil(9, 4), 3);
    assert_eq!(div_ceil(usize::MAX, 1), usize::MAX);
}
