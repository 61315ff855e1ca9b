use cuckoo_clock::config::{
    CounterConfig, CuckooConfiguration, LruAgingStrategy, LruConfig, TtlConfig,
};
use cuckoo_clock::data_block::{DataBlock, DataBlockFieldConfiguration};
use cuckoo_clock::{Fingerprint, LookupValues};

#[test]
fn test_load_store_for_each_bit_count() {
    let mut data = [0u8; 4];
    let mut data_block = DataBlock::from(&mut data[..]);
    for i in 1usize..=32usize {
        let field_config = DataBlockFieldConfiguration::new(0..i);
        // Ensure we are using the max value possible for set bit count
        let value: u32 = ((1u64 << i) - 1).try_into().unwrap();
        data_block.reset();
        data_block.store_bits(&field_config, value);
        assert_eq!(
            data_block.load_bits(&field_config),
            value,
            "Loaded value was different for bit count {i}"
        );
    }
}

#[test]
fn test_load_store_at_non_byte_boundary() {
    // Let's assume we have 13 bit fingerprint and additional data after it
    let data_start = 13;
    let fp_config = DataBlockFieldConfiguration::new(0..data_start);
    let fp_value = 0b1010101010101u32;
    let mut data = [0u8; 7];
    let mut data_block = DataBlock::from(&mut data[..]);
    data_block.store_bits(&fp_config, fp_value);
    for i in 1usize..=32usize {
        let field_config = DataBlockFieldConfiguration::new(data_start..data_start + i);
        // Ensure we are using the max value possible for set bit count
        let value: u32 = ((1u64 << i) - 1).try_into().unwrap();
        data_block.store_bits(&field_config, 0);
        data_block.store_bits(&field_config, value);
        assert_eq!(
            data_block.load_bits(&field_config),
            value,
            "Loaded value was different for bit count {i}"
        );
    }
    assert_eq!(
        data_block.load_bits(&fp_config),
        fp_value,
        "Loads/stores wrote outside of their bits"
    );
}

#[test]
fn test_load_store_full_config() {
    let config = CuckooConfiguration::builder(100_000)
        .fingerprint_bits(32.try_into().unwrap())
        .with_lru(LruConfig::default())
        .with_ttl(TtlConfig {
            ttl: 10.try_into().unwrap(),
            ttl_bits: 4.try_into().unwrap(),
        })
        .build()
        .unwrap();
    let mut data = [0u8; 6];
    let mut data_block = DataBlock::from(&mut data[..]);
    let fp_value = 0b1010101010101u32;

    data_block.store_fingerprint(&Fingerprint::from(fp_value), &config);
    data_block.inc_lru_counter(config.lru_field_config().unwrap());
    data_block.set_ttl(config.ttl_field_config().unwrap(), 10);

    data_block.age_lru_counter(config.lru_field_config().unwrap());
    data_block.age_ttl_counter(config.ttl_field_config().unwrap());

    assert_eq!(data_block.get_fingerprint(&config).data(), fp_value);
    assert_eq!(data_block.get_ttl(config.ttl_field_config().unwrap()), 9);
    assert_eq!(
        data_block.get_lru_counter(config.lru_field_config().unwrap()),
        0
    );
}

#[test]
fn test_inc_counter_saturation() {
    let config = CuckooConfiguration::builder(100_000)
        .fingerprint_bits(8.try_into().unwrap())
        .with_lru(LruConfig {
            counter_bits: 2.try_into().unwrap(),
            ..Default::default()
        })
        .build()
        .unwrap();

    let mut data = [0u8; 2];
    let mut data_block = DataBlock::from(&mut data[..]);

    let lru_config = config.lru_field_config().unwrap();

    data_block.inc_lru_counter(lru_config);
    data_block.inc_lru_counter(lru_config);
    data_block.inc_lru_counter(lru_config);

    assert_eq!(data_block.get_lru_counter(lru_config), 3);

    // Since counter is limited at 2 bits, it shouldn't be able to go over 3
    data_block.inc_lru_counter(lru_config);
    assert_eq!(data_block.get_lru_counter(lru_config), 3);

    data_block.age_lru_counter(lru_config);
    assert_eq!(data_block.get_lru_counter(lru_config), 1);
}

#[test]
fn fields_are_packed_from_the_first_bit_on() {
    let mut data = [0u8; 3];
    let mut data_block = DataBlock::from(&mut data[..]);
    data_block.store_bits(&DataBlockFieldConfiguration::new(0..4), 0b1010);
    data_block.store_bits(&DataBlockFieldConfiguration::new(4..14), 0b1100110011);
    data_block.store_bits(&DataBlockFieldConfiguration::new(14..24), 1);
    assert_eq!(data, [0b1010_1100, 0b1100_1100, 0b0000_0001]);
}

#[test]
fn stored_bits_outside_of_the_field_are_cut_off() {
    let mut data = [0u8; 2];
    let mut data_block = DataBlock::from(&mut data[..]);
    let field = DataBlockFieldConfiguration::new(4..8);
    data_block.store_bits(&field, 0b11_0101);
    assert_eq!(data_block.load_bits(&field), 0b0101);
    assert_eq!(field.value_mask(), 0b1111);
    assert_eq!(data, [0b0000_0101, 0]);
}

#[test]
fn fingerprint_of_zero_bits_is_one() {
    assert_eq!(Fingerprint::new(0x1200, 0xff).data(), 1);
    assert_eq!(Fingerprint::new(0x1234, 0xff).data(), 0x34);
    assert!(!Fingerprint::new(0, 0xff).is_empty());
    assert!(Fingerprint::from(0).is_empty());
}

#[test]
fn counters_stay_in_range() {
    let config = CuckooConfiguration::builder(1000)
        .with_counter(CounterConfig {
            counter_bits: 4.try_into().unwrap(),
            ..Default::default()
        })
        .build()
        .unwrap();
    let counter_config = config.counter_field_config().unwrap();
    let mut data = [0u8; 2];
    let mut data_block = DataBlock::from(&mut data[..]);
    data_block.update_counter(counter_config, 9);
    assert_eq!(data_block.get_counter(counter_config), 9);
    data_block.update_counter(counter_config, i32::MAX);
    assert_eq!(data_block.get_counter(counter_config), 15);
    data_block.update_counter(counter_config, -4);
    assert_eq!(data_block.get_counter(counter_config), 11);
    data_block.update_counter(counter_config, i32::MIN);
    assert_eq!(data_block.get_counter(counter_config), 0);
    data_block.inc_counter(counter_config, 6);
    data_block.dec_counter(counter_config, 2);
    assert_eq!(data_block.get_counter(counter_config), 4);
    data_block.dec_counter(counter_config, u32::MAX);
    assert_eq!(data_block.get_counter(counter_config), 0);
}

#[test]
fn aging_removes_what_it_should() {
    let config = CuckooConfiguration::builder(1000)
        .with_lru(LruConfig {
            remove_on_zero: true,
            aging_strategy: LruAgingStrategy::Decrement(3),
            starting_value: 5,
            increment: 2,
            ..Default::default()
        })
        .with_ttl(TtlConfig {
            ttl: 2.try_into().unwrap(),
            ttl_bits: 8.try_into().unwrap(),
        })
        .build()
        .unwrap();
    let lru_config = config.lru_field_config().unwrap();
    let ttl_config = config.ttl_field_config().unwrap();
    let mut data = [0u8; 3];
    let mut data_block = DataBlock::from(&mut data[..]);
    data_block.store_fingerprint(&Fingerprint::from(7), &config);
    data_block.start_lru_counter(lru_config);
    data_block.set_ttl(ttl_config, 2);
    assert_eq!(data_block.get_lru_counter(lru_config), 5);
    data_block.inc_lru_counter(lru_config);
    assert_eq!(data_block.get_lru_counter(lru_config), 7);
    assert!(!data_block.age_lru_counter(lru_config));
    assert_eq!(data_block.get_lru_counter(lru_config), 4);
    assert!(!data_block.age_ttl_counter(ttl_config));
    assert_eq!(data_block.get_ttl(ttl_config), 1);
    assert!(data_block.occupied(&config));
    assert!(!data_block.age_lru_counter(lru_config));
    assert_eq!(data_block.get_lru_counter(lru_config), 1);
    assert!(data_block.age_lru_counter(lru_config));
    assert!(!data_block.occupied(&config));
    assert_eq!(data, [0u8; 3]);

    let mut data_block = DataBlock::from(&mut data[..]);
    data_block.store_fingerprint(&Fingerprint::from(7), &config);
    data_block.set_ttl(ttl_config, 1);
    assert!(data_block.age_ttl_counter(ttl_config));
    assert!(!data_block.occupied(&config));
}

#[test]
fn lookup_values_take_the_place_of_the_configured_ones() {
    let config = CuckooConfiguration::builder(1000)
        .with_ttl(TtlConfig {
            ttl: 20.try_into().unwrap(),
            ttl_bits: 8.try_into().unwrap(),
        })
        .with_counter(CounterConfig {
            counter_bits: 8.try_into().unwrap(),
            change_on_insert: 1,
            change_on_lookup: 3,
        })
        .build()
        .unwrap();
    let ttl_config = config.ttl_field_config().unwrap();
    let counter_config = config.counter_field_config().unwrap();
    let mut data = [0u8; 3];
    let mut data_block = DataBlock::from(&mut data[..]);
    data_block.set_ttl(ttl_config, 20);
    data_block.update_on_lookup(&config, &LookupValues::default());
    assert_eq!(data_block.get_counter(counter_config), 3);
    assert_eq!(data_block.get_ttl(ttl_config), 20);
    data_block.update_on_lookup(
        &config,
        &LookupValues {
            ttl: Some(9),
            counter_diff: Some(-2),
        },
    );
    assert_eq!(data_block.get_counter(counter_config), 1);
    assert_eq!(data_block.get_ttl(ttl_config), 9);
}
