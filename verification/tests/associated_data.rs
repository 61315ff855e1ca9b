use cuckoo_clock::associated_data::{AccessError, AssociatedData, AssociatedDataMut};
use cuckoo_clock::config::{CounterConfig, CuckooConfiguration, LruConfig, TtlConfig};
use cuckoo_clock::data_block::DataBlock;
use cuckoo_clock::Fingerprint;

#[test]
fn basic_fingerprint_access() {
    for bit_count in 1..=32 {
        let config = CuckooConfiguration::builder(1000)
            .fingerprint_bits(bit_count.try_into().unwrap())
            .build()
            .unwrap();

        let mut data = [0u8; 4];
        let mut data_block = DataBlock::from(&mut data[..]);
        data_block.store_fingerprint(&Fingerprint::new(1, 1), &config);

        let associated_data = AssociatedData::new(&data_block, config);
        assert_eq!(associated_data.get_fingerprint(), 1);

        // Associated data should be a snapshot
        // Further modifications should not change it
        data[0] = 100;
        assert_eq!(associated_data.get_fingerprint(), 1);
    }
}

#[test]
fn disabled_features() {
    // No additional features
    let config = CuckooConfiguration::builder(1000)
        .fingerprint_bits(8.try_into().unwrap())
        .build()
        .unwrap();

    let data = [0u8; 4];
    let data_block = DataBlock::from(&data[..]);
    let associated_data = AssociatedData::new(&data_block, config);

    let Err(AccessError::FeatureNotEnabled(feature_name)) = associated_data.get_stored_ttl_value()
    else {
        panic!("TTL not enabled error should be returned!");
    };
    assert_eq!(feature_name, "TTL");

    let Err(AccessError::FeatureNotEnabled(feature_name)) = associated_data.get_lru_counter()
    else {
        panic!("LRU not enabled error should be returned!");
    };
    assert_eq!(feature_name, "LRU");

    let Err(AccessError::FeatureNotEnabled(feature_name)) = associated_data.get_custom() else {
        panic!("Custom not enabled error should be returned!");
    };
    assert_eq!(feature_name, "Custom");
}

#[test]
fn ttl_access() {
    for bit_count in 1..=32 {
        // No additional features
        let config = CuckooConfiguration::builder(1000)
            .fingerprint_bits(5.try_into().unwrap())
            .with_ttl(TtlConfig {
                ttl: 10.try_into().unwrap(),
                ttl_bits: bit_count.try_into().unwrap(),
            })
            .build()
            .unwrap();

        let mut data = [0u8; 5];
        let mut data_block = DataBlock::from(&mut data[..]);
        data_block.set_ttl(config.ttl_field_config().unwrap(), 1);
        let associated_data = AssociatedData::new(&data_block, config);

        assert_eq!(associated_data.get_stored_ttl_value().unwrap(), 1);

        // Associated data should be a snapshot
        // Further modifications should not change it
        data[0] = 7;
        assert_eq!(associated_data.get_stored_ttl_value().unwrap(), 1);
    }
}

#[test]
fn lru_counter_access() {
    for bit_count in 1..=32 {
        // No additional features
        let config = CuckooConfiguration::builder(1000)
            .fingerprint_bits(5.try_into().unwrap())
            .with_lru(LruConfig {
                counter_bits: bit_count.try_into().unwrap(),
                ..Default::default()
            })
            .build()
            .unwrap();

        let mut data = [0u8; 5];
        let mut data_block = DataBlock::from(&mut data[..]);
        data_block.inc_lru_counter(config.lru_field_config().unwrap());
        let associated_data = AssociatedData::new(&data_block, config);

        assert_eq!(associated_data.get_lru_counter().unwrap(), 1);

        // Associated data should be a snapshot
        // Further modifications should not change it
        data[0] = 7;
        assert_eq!(associated_data.get_lru_counter().unwrap(), 1);
    }
}

#[test]
fn mutable_access_changes_the_block() {
    let config = CuckooConfiguration::builder(1000)
        .fingerprint_bits(8.try_into().unwrap())
        .with_lru(LruConfig::default())
        .with_ttl(TtlConfig {
            ttl: 10.try_into().unwrap(),
            ttl_bits: 4.try_into().unwrap(),
        })
        .build()
        .unwrap();
    let mut data = [0u8; 3];
    let mut access = AssociatedDataMut::new(DataBlock::from(&mut data[..]), config);
    assert!(access.inc_lru_counter().is_ok());
    assert!(access.inc_lru_counter().is_ok());
    assert!(access.set_ttl_value(5).is_ok());
    let read = access.read();
    assert_eq!(read.get_lru_counter().unwrap(), 2);
    assert_eq!(read.get_stored_ttl_value().unwrap(), 5);

    // What does not fit the field is cut off
    assert!(access.set_ttl_value(18).is_ok());
    assert_eq!(access.read().get_stored_ttl_value().unwrap(), 2);
    assert_eq!(read.get_stored_ttl_value().unwrap(), 5);
    assert_eq!(data[1], 2);
}

#[test]
fn mutable_access_without_features() {
    let config = CuckooConfiguration::builder(1000).build().unwrap();
    let mut data = [0u8; 1];
    let mut access = AssociatedDataMut::new(DataBlock::from(&mut data[..]), config);
    let Err(error) = access.inc_lru_counter() else {
        panic!("LRU is not enabled");
    };
    assert_eq!(error.message(), "Feature (LRU) not enabled.");
    let Err(error) = access.set_ttl_value(1) else {
        panic!("TTL is not enabled");
    };
    assert_eq!(error.message(), "Feature (TTL) not enabled.");
    let Err(error) = access.read().get_counter() else {
        panic!("Counter is not enabled");
    };
    assert_eq!(error.message(), "Feature (Counter) not enabled.");
    assert_eq!(data, [0u8; 1]);
}

#[test]
fn counter_access() {
    let config = CuckooConfiguration::builder(1000)
        .with_counter(CounterConfig {
            counter_bits: 4.try_into().unwrap(),
            ..Default::default()
        })
        .build()
        .unwrap();
    let mut data = [0u8; 2];
    let mut data_block = DataBlock::from(&mut data[..]);
    data_block.update_counter(config.counter_field_config().unwrap(), 7);
    let associated_data = AssociatedData::new(&data_block, config);
    assert_eq!(associated_data.get_counter().unwrap(), 7);
    assert_eq!(associated_data.get_custom().unwrap(), 7);
}
