use cuckoo_clock::bytes::ByteReader;
use cuckoo_clock::config::LruAgingStrategy;
use cuckoo_clock::fuzz::{prep_config, AgingStrategy, CuckooConf, LruConf, TtlConf};
use cuckoo_clock::CuckooFilter;

fn keys(prefix: &str, n: usize) -> Vec<String> {
    (0..n).map(|i| format!("{prefix}-{i}")).collect()
}

fn plain_conf() -> CuckooConf {
    CuckooConf {
        max_entries: 1000,
        fingerprint_bits: 16,
        bucket_size: 4.try_into().unwrap(),
        lru: None,
        ttl: None,
        inserts: keys("insert", 300),
        lookups: keys("lookup", 300),
        deletes: keys("insert", 100),
    }
}

fn lru_conf(bits: usize) -> LruConf {
    LruConf {
        bits,
        remove_on_zero: true,
        aging_strategy: AgingStrategy::Decrement(3),
        starting_value: 5,
        increment: 2,
    }
}

#[test]
fn strategies_are_converted() {
    assert_eq!(
        LruAgingStrategy::from(&AgingStrategy::Halving),
        LruAgingStrategy::Halving
    );
    assert_eq!(
        LruAgingStrategy::from(&AgingStrategy::Decrement(9)),
        LruAgingStrategy::Decrement(9)
    );
}

#[test]
fn valid_configurations_are_built() {
    let mut conf = plain_conf();
    let config = prep_config(&conf).unwrap();
    assert!(config.lru_field_config().is_none());
    assert!(config.ttl_field_config().is_none());
    conf.lru = Some(lru_conf(7));
    conf.ttl = Some(TtlConf {
        bits: 3,
        ttl: 6.try_into().unwrap(),
    });
    let config = prep_config(&conf).unwrap();
    let (lru, field) = config.lru_field_config().unwrap();
    assert_eq!(lru.aging_strategy, LruAgingStrategy::Decrement(3));
    assert_eq!(lru.starting_value, 5);
    assert_eq!(lru.increment, 2);
    assert!(lru.remove_on_zero);
    assert_eq!(field.value_mask(), 127);
    let (ttl, field) = config.ttl_field_config().unwrap();
    assert_eq!(ttl.ttl.get(), 6);
    assert_eq!(field.value_mask(), 7);
    assert!(config.counter_field_config().is_none());
}

#[test]
fn invalid_configurations_are_not_built() {
    for bits in [0, 33, usize::MAX] {
        let mut conf = plain_conf();
        conf.fingerprint_bits = bits;
        assert!(prep_config(&conf).is_none());
        let mut conf = plain_conf();
        conf.lru = Some(lru_conf(bits));
        assert!(prep_config(&conf).is_none());
        let mut conf = plain_conf();
        conf.ttl = Some(TtlConf {
            bits,
            ttl: 1.try_into().unwrap(),
        });
        assert!(prep_config(&conf).is_none());
    }
}

#[test]
fn big_filters_are_not_built() {
    let mut conf = plain_conf();
    // 2 ^ 26 buckets of 4 slots are more than the limit of 250 million slots
    conf.max_entries = (1 << 27) + 1;
    assert!(prep_config(&conf).is_none());
    conf.max_entries = 1 << 27;
    assert!(prep_config(&conf).is_some());
    conf.max_entries = 1;
    conf.bucket_size = 250_000_001.try_into().unwrap();
    assert!(prep_config(&conf).is_none());
    conf.bucket_size = 250_000_000.try_into().unwrap();
    assert!(prep_config(&conf).is_some());
    conf.bucket_size = usize::MAX.try_into().unwrap();
    conf.max_entries = usize::MAX;
    assert!(prep_config(&conf).is_none());
}

#[test]
fn filter_is_used() {
    let conf = plain_conf();
    let mut filter = CuckooFilter::new_random(prep_config(&conf).unwrap());
    for insert in &conf.inserts {
        filter.insert(insert);
        assert!(filter.contains(insert));
        let data = filter.get_associated_data(insert).unwrap();
        assert!(data.get_fingerprint() > 0);
        assert!(data.get_stored_ttl_value().is_err());
        assert!(data.get_lru_counter().is_err());
        assert!(data.get_counter().is_err());
    }
    for lookup in &conf.lookups {
        filter.contains(lookup);
    }
    for delete in &conf.deletes {
        filter.remove(delete);
    }
}

#[test]
fn filter_is_exported_and_used() {
    let mut conf = plain_conf();
    conf.lru = Some(lru_conf(7));
    let mut filter = CuckooFilter::new_random_exportable(prep_config(&conf).unwrap());
    for insert in &conf.inserts {
        filter.insert(insert);
        assert!(filter.contains(insert));
        assert!(filter.get_associated_data(insert).is_some());
    }
    let bytes = filter.exporter().snapshot().unwrap();
    let mut imported =
        CuckooFilter::import_random_exportable(&mut ByteReader::new(&bytes)).unwrap();
    assert_eq!(imported.get_configuration(), filter.get_configuration());
    for insert in &conf.inserts {
        assert!(imported.contains(insert));
        assert!(imported.get_associated_data(insert).is_some());
    }
}
