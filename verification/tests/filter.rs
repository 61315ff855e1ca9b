use std::collections::HashSet;
use std::hash::{BuildHasher, Hash, Hasher};
use std::ops::Range;

use cuckoo_clock::bucket::Bucket;
use cuckoo_clock::config::{
    CounterConfig, CuckooConfiguration, LruAgingStrategy, LruConfig, TtlConfig,
};
use cuckoo_clock::data_block::DataBlock;
use cuckoo_clock::{CuckooFilter, Fingerprint, InsertValues, LookupValues};

fn get_words(range: Range<usize>) -> Vec<String> {
    range.map(|i| format!("word-{i}")).collect()
}

#[test]
fn basic_insertion() {
    let mut filter = CuckooFilter::new_random(CuckooConfiguration::builder(1000).build().unwrap());

    filter.insert("basic");

    assert!(filter.contains("basic"));
}

#[test]
fn basic_removal() {
    let mut filter = CuckooFilter::new_random(CuckooConfiguration::builder(1000).build().unwrap());

    filter.insert("basic");

    assert!(filter.contains("basic"));

    filter.remove("basic");

    assert!(!filter.contains("basic"));
}

struct PredefinedBucketItem(u64);
struct TestHasher(u64);
impl BuildHasher for TestHasher {
    type Hasher = TestHasher;

    fn build_hasher(&self) -> Self::Hasher {
        TestHasher(0)
    }
}
impl Hasher for TestHasher {
    fn finish(&self) -> u64 {
        self.0
    }

    fn write(&mut self, bytes: &[u8]) {
        if bytes.len() == 8 {
            self.0 = u64::from_ne_bytes(bytes.try_into().unwrap());
        } else {
            // Shift fingeprint hashes a bit, to allow control
            self.0 = 1 - (u32::from_ne_bytes(bytes.try_into().unwrap()) as u64 % 2);
        }
    }
}
impl Hash for PredefinedBucketItem {
    fn hash<H: Hasher>(&self, state: &mut H) {
        state.write_u64(self.0);
    }
}

#[test]
fn lru_insertion() {
    let mut filter = CuckooFilter::new(
        CuckooConfiguration::builder(1000)
            .bucket_size(2.try_into().unwrap())
            .with_lru(LruConfig {
                counter_bits: 8.try_into().unwrap(),
                ..Default::default()
            })
            .build()
            .unwrap(),
        TestHasher(0),
    );

    let test_item = PredefinedBucketItem(2 << 32);
    filter.insert(&test_item);
    filter.contains(&test_item); // Make it more used than others

    let test_item_2 = PredefinedBucketItem(4 << 32);
    filter.insert(&test_item_2); // Sharing the same bucket as "test", but less used

    let test_item_3 = PredefinedBucketItem((3 << 32) + 2);
    filter.insert(&test_item_3); // Another bucket, but also valid for "test" bucket
    filter.contains(&test_item_3); // Make it more used

    let test_item_4 = PredefinedBucketItem((5 << 32) + 2);
    filter.insert(&test_item_4); // Takes bucket of "test_item_3", but less used

    // Everything fits now
    assert!(filter.contains(&test_item));
    assert!(filter.contains(&test_item_2));
    assert!(filter.contains(&test_item_3));
    assert!(filter.contains(&test_item_4));

    let test_item_5 = PredefinedBucketItem((1 << 32) + 2);
    // Insert a new item which has to take one of the 2 fully occupied buckets
    filter.insert(&test_item_5);

    assert!(filter.contains(&test_item_2));
    assert!(filter.contains(&test_item));
    assert!(filter.contains(&test_item_3));

    assert!(
        !filter.contains(&test_item_5) || !filter.contains(&test_item_4),
        "No inserted items are missing, but filter can't hold them all"
    );

    // Insert both of these items again and confirm the more used ones are still there
    filter.insert(&test_item_5);
    filter.insert(&test_item_4);
    assert!(filter.contains(&test_item));
    assert!(filter.contains(&test_item_3));
}

#[test]
fn alt_index() {
    let words = get_words(0..200_000);
    let filter = CuckooFilter::new_random(
        CuckooConfiguration::builder(200_000)
            .fingerprint_bits(32.try_into().unwrap())
            .build()
            .unwrap(),
    );

    for word in words {
        let (fp, index) = filter.get_fingerprint_and_index(&word);
        let alt_index = filter.alt_index(&fp, index);
        assert_eq!(index, filter.alt_index(&fp, alt_index));
    }
}

#[test]
fn random_kicks() {
    let mut filter = CuckooFilter::new(
        CuckooConfiguration::builder(1000)
            .bucket_size(2.try_into().unwrap())
            .build()
            .unwrap(),
        TestHasher(0),
    );

    let test_item = PredefinedBucketItem(2 << 32);
    filter.insert(&test_item);

    let test_item_2 = PredefinedBucketItem(4 << 32);
    filter.insert(&test_item_2); // Sharing the same bucket as "test"

    let test_item_3 = PredefinedBucketItem((3 << 32) + 2);
    filter.insert(&test_item_3); // Another bucket, but also valid for "test" bucket

    let test_item_4 = PredefinedBucketItem((5 << 32) + 2);
    filter.insert(&test_item_4); // Takes bucket of "test_item_3"

    // This one should not be kicked, because it takes an unrelated bucket
    let test_item_unrelated = PredefinedBucketItem((10 << 32) + 10);
    filter.insert(&test_item_unrelated);

    // Everything fits now
    assert!(filter.contains(&test_item));
    assert!(filter.contains(&test_item_2));
    assert!(filter.contains(&test_item_3));
    assert!(filter.contains(&test_item_4));

    let test_item_5 = PredefinedBucketItem((1 << 32) + 2);
    // Insert a new item which has to take one of the 2 fully occupied buckets
    let kicked = filter.insert(&test_item_5);
    assert!(kicked.is_some(), "An item had to be kicked");
    assert!(filter.contains(&test_item_5));
    assert!(filter.contains(&test_item_unrelated));

    for item in [&test_item, &test_item_2, &test_item_3, &test_item_4] {
        if !kicked.as_ref().unwrap().matches_key(item, &filter) {
            assert!(filter.contains(item), "Only one item should be kicked");
        }
    }
}

#[test]
fn scan_and_update_full() {
    let words = get_words(0..100_000);
    let mut filter = CuckooFilter::new_random(
        CuckooConfiguration::builder(100_000)
            .fingerprint_bits(32.try_into().unwrap())
            .with_lru(LruConfig::default())
            .with_ttl(TtlConfig {
                ttl: 3.try_into().unwrap(),
                ttl_bits: 2.try_into().unwrap(),
            })
            .build()
            .unwrap(),
    );

    let mut stored_words = HashSet::new();

    for (index, word) in words.iter().enumerate() {
        stored_words.insert(word);
        if let Some(evicted_fp) = filter.insert(word) {
            words[0..=index]
                .iter()
                .filter(|w| evicted_fp.matches_key(*w, &filter))
                .for_each(|evicted_word| {
                    stored_words.remove(evicted_word);
                });
        }
    }

    for _ in 0..2 {
        filter.scan_and_update_full();
    }
    for word in stored_words {
        assert!(
            filter.contains(word),
            "Word: {word} expected in the filter, but not found"
        );
    }

    // TTL should remove all entries now
    filter.scan_and_update_full();
    for word in &words {
        assert!(
            !filter.contains(word),
            "Filter contained {word}, but shouldn't have"
        );
    }
}

#[test]
fn plain_filter_example() {
    let mut filter =
        CuckooFilter::new_random(CuckooConfiguration::builder(100_000).build().unwrap());
    assert!(filter.insert("example_data").is_none());
    assert!(filter.contains("example_data"));
    assert!(filter.remove("example_data"));
    assert!(!filter.contains("example_data"));
    assert!(!filter.remove("example_data"));
}

#[test]
fn counter_example() {
    let mut filter = CuckooFilter::new_random(
        CuckooConfiguration::builder(1_000_000)
            .fingerprint_bits(18.try_into().unwrap())
            .bucket_size(8.try_into().unwrap())
            .with_counter(CounterConfig {
                counter_bits: 4.try_into().unwrap(),
                ..Default::default()
            })
            .with_ttl(TtlConfig {
                ttl: 600.try_into().unwrap(),
                ttl_bits: 10.try_into().unwrap(),
            })
            .build()
            .unwrap(),
    );
    assert!(filter.insert_if_not_present("example_data").is_none());
    assert!(filter.insert_if_not_present("example_data").is_none());
    assert!(filter.contains("example_data"));
    let data = filter.get_associated_data("example_data").unwrap();
    assert_eq!(data.get_counter().unwrap(), 4);
    assert_eq!(data.get_stored_ttl_value().unwrap(), 600);
}

#[test]
fn associated_data_example() {
    let mut filter = CuckooFilter::new_random(
        CuckooConfiguration::builder(100_000)
            .with_lru(LruConfig::default())
            .with_ttl(TtlConfig {
                ttl: 10.try_into().unwrap(),
                ttl_bits: 8.try_into().unwrap(),
            })
            .build()
            .unwrap(),
    );
    filter.insert("example_data");
    let data = filter.get_associated_data("example_data").unwrap();
    assert_eq!(data.get_stored_ttl_value().unwrap(), 10);
    assert_eq!(data.get_lru_counter().unwrap(), 1);
    // Loading the data has counted as an access
    let data = filter.get_associated_data("example_data").unwrap();
    assert_eq!(data.get_lru_counter().unwrap(), 2);
    assert!(filter.get_associated_data("another").is_none());
}

#[test]
fn scan_example() {
    let mut filter = CuckooFilter::new_random(
        CuckooConfiguration::builder(10_000)
            .with_ttl(TtlConfig {
                ttl: 3.try_into().unwrap(),
                ttl_bits: 2.try_into().unwrap(),
            })
            .build()
            .unwrap(),
    );
    filter.insert("example_data");
    assert!(filter.contains("example_data"));
    filter.scan_and_update_full();
    assert!(filter.contains("example_data"));
    filter.scan_and_update_full();
    assert!(filter.contains("example_data"));
    filter.scan_and_update_full();
    assert!(!filter.contains("example_data"));
}

#[test]
fn separate_scans_age_separately() {
    let mut filter = CuckooFilter::new_random(
        CuckooConfiguration::builder(100)
            .with_lru(LruConfig {
                aging_strategy: LruAgingStrategy::Decrement(4),
                starting_value: 10,
                increment: 3,
                ..Default::default()
            })
            .with_ttl(TtlConfig {
                ttl: 5.try_into().unwrap(),
                ttl_bits: 4.try_into().unwrap(),
            })
            .build()
            .unwrap(),
    );
    filter.insert("key");
    filter.scan_and_update_lru();
    let data = filter.get_associated_data("key").unwrap();
    assert_eq!(data.get_lru_counter().unwrap(), 6);
    assert_eq!(data.get_stored_ttl_value().unwrap(), 5);
    filter.scan_and_update_ttl();
    let data = filter.get_associated_data("key").unwrap();
    assert_eq!(data.get_lru_counter().unwrap(), 9);
    assert_eq!(data.get_stored_ttl_value().unwrap(), 4);
}

#[test]
fn scans_do_nothing_without_features() {
    let mut filter = CuckooFilter::new_random(CuckooConfiguration::builder(100).build().unwrap());
    filter.insert("key");
    for _ in 0..10 {
        filter.scan_and_update_full();
        filter.scan_and_update_ttl();
        filter.scan_and_update_lru();
    }
    assert!(filter.contains("key"));
}

#[test]
fn lru_scan_can_remove_items() {
    let mut filter = CuckooFilter::new_random(
        CuckooConfiguration::builder(100)
            .with_lru(LruConfig {
                remove_on_zero: true,
                ..Default::default()
            })
            .build()
            .unwrap(),
    );
    filter.insert("key");
    assert!(filter.contains("key")); // The counter is 2 now
    filter.scan_and_update_lru();
    assert_eq!(
        filter.get_associated_data("key").unwrap().get_lru_counter().unwrap(),
        1
    );
    filter.scan_and_update_lru();
    filter.scan_and_update_lru();
    assert!(!filter.contains("key"));
}

#[test]
fn bucket_count_is_the_next_power_of_two() {
    for (entries, size, expected) in [
        (1000, 4, 256),
        (1024, 4, 256),
        (1025, 4, 512),
        (0, 4, 1),
        (1, 1, 1),
        (3, 1, 4),
    ] {
        let filter = CuckooFilter::new_random(
            CuckooConfiguration::builder(entries)
                .bucket_size(size.try_into().unwrap())
                .build()
                .unwrap(),
        );
        assert_eq!(filter.get_bucket_count(), expected);
        assert!(entries <= filter.get_bucket_count() * size);
    }
}

#[test]
fn fingerprint_and_index_come_from_the_hash() {
    let filter = CuckooFilter::new(
        CuckooConfiguration::builder(1000).build().unwrap(),
        TestHasher(0),
    );
    let key = PredefinedBucketItem((0x1234_5678 << 32) + 0xabcd);
    let (fingerprint, index) = filter.get_fingerprint_and_index(&key);
    assert_eq!(fingerprint.data(), 0x78);
    assert_eq!(index, 0xcd);
    assert_eq!(filter.alt_index(&fingerprint, index), 0xcc);
    assert!(fingerprint.matches_key(&key, &filter));
    assert!(!Fingerprint::from(0x77).matches_key(&key, &filter));
    // A fingerprint of 0 stands for an empty slot, so 1 takes its place
    assert_eq!(filter.get_fingerprint(&PredefinedBucketItem(5)).data(), 1);
}

#[test]
fn inserted_values_are_stored() {
    let mut filter = CuckooFilter::new(
        CuckooConfiguration::builder(1000)
            .with_ttl(TtlConfig {
                ttl: 10.try_into().unwrap(),
                ttl_bits: 8.try_into().unwrap(),
            })
            .with_counter(CounterConfig::default())
            .build()
            .unwrap(),
        TestHasher(0),
    );
    let hash = (7u64 << 32) + 3;
    let values = InsertValues {
        ttl: Some(4),
        counter: Some(6),
    };
    assert!(filter.insert_hash(hash, &values).is_none());
    let update = LookupValues {
        ttl: None,
        counter_diff: Some(0),
    };
    let data = filter.get_associated_data_of_hash(hash, &update).unwrap();
    assert_eq!(data.get_fingerprint(), 7);
    assert_eq!(data.get_stored_ttl_value().unwrap(), 4);
    assert_eq!(data.get_counter().unwrap(), 6);
    let update = LookupValues {
        ttl: Some(9),
        counter_diff: Some(-5),
    };
    assert!(filter.contains_hash(hash, &update));
    let data = filter.get_associated_data(&PredefinedBucketItem(hash)).unwrap();
    assert_eq!(data.get_stored_ttl_value().unwrap(), 9);
    assert_eq!(data.get_counter().unwrap(), 2);
    assert!(filter.insert_hash_if_not_present(hash, &values).is_none());
    assert!(filter.remove_hash(hash));
    assert!(!filter.remove_hash(hash));
}

#[test]
fn repeated_insertion_refreshes_the_item() {
    let mut filter = CuckooFilter::new_random(
        CuckooConfiguration::builder(1000)
            .with_lru(LruConfig::default())
            .with_ttl(TtlConfig {
                ttl: 6.try_into().unwrap(),
                ttl_bits: 4.try_into().unwrap(),
            })
            .with_counter(CounterConfig {
                counter_bits: 8.try_into().unwrap(),
                change_on_insert: 5,
                change_on_lookup: 0,
            })
            .build()
            .unwrap(),
    );
    filter.insert("key");
    filter.scan_and_update_ttl();
    assert!(filter.insert("key").is_none());
    let data = filter.get_associated_data("key").unwrap();
    assert_eq!(data.get_stored_ttl_value().unwrap(), 6);
    assert_eq!(data.get_counter().unwrap(), 10);
    assert_eq!(data.get_lru_counter().unwrap(), 2);
    // The item is stored once
    assert!(filter.remove("key"));
    assert!(!filter.contains("key"));
}

#[test]
fn duplicates_need_as_many_removals() {
    // Bucket 0 holds 2 items that have bucket 1 as their other one
    let mut filter = CuckooFilter::new(
        CuckooConfiguration::builder(8)
            .bucket_size(2.try_into().unwrap())
            .build()
            .unwrap(),
        TestHasher(0),
    );
    let (a, b, c) = (
        PredefinedBucketItem(2 << 32),
        PredefinedBucketItem(4 << 32),
        PredefinedBucketItem(6 << 32),
    );
    filter.insert(&a);
    filter.insert(&b);
    filter.insert(&c); // Goes to bucket 1
    assert!(filter.remove(&a));
    filter.insert(&c); // Goes to bucket 0, so it is stored twice
    assert!(filter.remove(&c));
    assert!(filter.contains(&c));
    assert!(filter.remove(&c));
    assert!(!filter.contains(&c));

    // With `insert_if_not_present` it is stored once
    filter.insert_if_not_present(&a);
    filter.insert_if_not_present(&c);
    assert!(filter.remove(&a));
    filter.insert_if_not_present(&c);
    assert!(filter.remove(&c));
    assert!(!filter.contains(&c));
    assert!(filter.contains(&b));
}

#[test]
fn kicked_items_move_to_their_other_bucket() {
    let mut filter = CuckooFilter::new(
        CuckooConfiguration::builder(8)
            .bucket_size(2.try_into().unwrap())
            .build()
            .unwrap(),
        TestHasher(0),
    );
    // Items with an odd fingerprint have only one bucket
    let odd: Vec<_> = [3u64, 5]
        .iter()
        .map(|fp| PredefinedBucketItem(fp << 32))
        .collect();
    let even: Vec<_> = [2u64, 4]
        .iter()
        .map(|fp| PredefinedBucketItem(fp << 32))
        .collect();
    for item in &even {
        assert!(filter.insert(item).is_none());
    }
    for item in &odd {
        assert!(filter.insert(item).is_none());
    }
    for item in even.iter().chain(odd.iter()) {
        assert!(filter.contains(item));
    }
    // Now both odd items fill bucket 0, and nothing can move out of it
    let evicted = filter.insert(&PredefinedBucketItem(7 << 32)).unwrap();
    assert!(evicted.data() == 3 || evicted.data() == 5);
    assert!(filter.contains(&PredefinedBucketItem(7 << 32)));
}

#[test]
fn without_kicks_the_new_item_is_evicted() {
    let mut filter = CuckooFilter::new(
        CuckooConfiguration::builder(8)
            .bucket_size(1.try_into().unwrap())
            .max_kicks(0)
            .build()
            .unwrap(),
        TestHasher(0),
    );
    let (a, b) = (
        PredefinedBucketItem(3 << 32),
        PredefinedBucketItem(5 << 32),
    );
    assert!(filter.insert(&a).is_none());
    let evicted = filter.insert(&b).unwrap();
    assert!(evicted.matches_key(&b, &filter));
    assert!(filter.contains(&a));
    assert!(!filter.contains(&b));
}

#[test]
fn less_used_items_are_kicked_first() {
    let config = CuckooConfiguration::builder(8)
        .bucket_size(3.try_into().unwrap())
        .with_lru(LruConfig::default())
        .build()
        .unwrap();
    let lru_config = config.lru_field_config().unwrap();
    let mut bucket = Bucket::new(&config);
    let mut block = DataBlock(vec![0u8; 2]);
    for (fingerprint, uses) in [(10, 5), (11, 2), (12, 3)] {
        let mut stored = block.as_mut_block();
        stored.reset();
        stored.store_fingerprint(&Fingerprint::from(fingerprint), &config);
        for _ in 0..uses {
            stored.inc_lru_counter(lru_config);
        }
        assert!(bucket.insert(&block, &config));
    }
    let mut stored = block.as_mut_block();
    stored.reset();
    stored.store_fingerprint(&Fingerprint::from(13), &config);
    assert!(!bucket.insert(&block, &config));
    // A completely new item always gets in
    assert!(bucket.kick_lru(&mut block, &config, lru_config));
    assert_eq!(block.get_fingerprint(&config).data(), 11);
    assert_eq!(block.get_lru_counter(lru_config), 2);
    // The kicked item is used more than the new one
    assert!(bucket.kick_lru(&mut block, &config, lru_config));
    assert_eq!(block.get_fingerprint(&config).data(), 13);
    // An item that is used as little as the least used one does not get in
    let mut stored = block.as_mut_block();
    stored.inc_lru_counter(lru_config);
    stored.inc_lru_counter(lru_config);
    assert!(!bucket.kick_lru(&mut block, &config, lru_config));
    assert_eq!(block.get_fingerprint(&config).data(), 13);
}

#[test]
fn ttl_aging_counts_removed_items() {
    let config = CuckooConfiguration::builder(8)
        .with_ttl(TtlConfig {
            ttl: 2.try_into().unwrap(),
            ttl_bits: 8.try_into().unwrap(),
        })
        .build()
        .unwrap();
    let ttl_config = config.ttl_field_config().unwrap();
    let mut bucket = Bucket::new(&config);
    let mut block = DataBlock(vec![0u8; 2]);
    for (fingerprint, ttl) in [(10, 1), (11, 2), (12, 1)] {
        let mut stored = block.as_mut_block();
        stored.store_fingerprint(&Fingerprint::from(fingerprint), &config);
        stored.set_ttl(ttl_config, ttl);
        assert!(bucket.insert(&block, &config));
    }
    assert_eq!(bucket.age_ttl_counters(&config, ttl_config), 2);
    assert_eq!(bucket.age_ttl_counters(&config, ttl_config), 1);
    assert_eq!(bucket.age_ttl_counters(&config, ttl_config), 0);
}

#[test]
fn random_kicks_reach_every_slot() {
    let config = CuckooConfiguration::builder(8)
        .bucket_size(3.try_into().unwrap())
        .build()
        .unwrap();
    let mut seen = HashSet::new();
    for _ in 0..1000 {
        let mut bucket = Bucket::new(&config);
        for fingerprint in [10u8, 11, 12] {
            assert!(bucket.insert(&DataBlock(vec![fingerprint]), &config));
        }
        let mut block = DataBlock(vec![13]);
        bucket.kick_random(&mut block, &config, &Fingerprint::from(13));
        seen.insert(block.get_fingerprint(&config).data());
        assert!(bucket.contains(&Fingerprint::from(13), &config, &LookupValues::default()));
    }
    assert_eq!(seen, HashSet::from([10, 11, 12]));
}
