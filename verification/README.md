# cuckoo-clock

Cuckoo probabilistic filter with TTL, LRU, and counter features, verified with Verus.

The filter follows ["Cuckoo Filter: Better Than Bloom" by Bin Fan, Dave Andersen and Michael
Kaminsky](https://www.cs.cmu.edu/~dga/papers/cuckoo-conext2014.pdf), with the addition of TTL, LRU
and a generic counter associated with stored items.

## Example usage

```rust
use cuckoo_clock::{CuckooFilter, config::{CuckooConfiguration, CounterConfig, TtlConfig}};

let mut filter = CuckooFilter::new_random(
    CuckooConfiguration::builder(10_000_000)
        .fingerprint_bits(18.try_into().unwrap())
        .bucket_size(8.try_into().unwrap())
        .with_counter(CounterConfig {
            counter_bits: 4.try_into().unwrap(),
            ..Default::default()
        })
        .with_ttl(TtlConfig {
            ttl: 600.try_into().unwrap(),
            ttl_bits: 10.try_into().unwrap(),
        })
        .build()
        .unwrap()
);

// `insert_if_not_present` ensures that there are no duplicates, because we care about the counter
assert!(filter.insert_if_not_present("example_data").is_none());
assert!(filter.insert_if_not_present("example_data").is_none());
assert!(filter.contains("example_data"));

// The item was accessed 3 times, and `get_associated_data` also counts as an access
assert_eq!(filter.get_associated_data("example_data").unwrap().get_counter().unwrap(), 4);
```

## Layout

- `src/filter.rs` is the filter, `src/bucket.rs` its buckets, `src/data_block.rs` the slots of a
  bucket with their fields, `src/bits.rs` the bits of a field.
- `src/config.rs` is the configuration, `src/exporter.rs` export and import.
- `src/slot.rs` and `src/placement.rs` say what slots and buckets mean, and what the operations of
  the filter do to them.
- `src/laws.rs`, `src/key_laws.rs` and `src/export_laws.rs` state and prove what holds of the filter
  as a whole.
- `app/` shares a filter between threads, reads and writes it, and drives it with arbitrary values.
