use std::hash::{BuildHasher, Hash, Hasher};

use cuckoo_clock::bytes::ByteReader;
use cuckoo_clock::config::{
    ConfigError, CounterConfig, CuckooConfiguration, LruAgingStrategy, LruConfig, TtlConfig,
};
use cuckoo_clock::exporter::Exportable;
use cuckoo_clock::{CuckooFilter, ExportError, ExportableRandomState, ImportError};

const NAME: &str = "cuckoo_clock::exporter::ExportableRandomState";

fn full_configuration() -> CuckooConfiguration {
    CuckooConfiguration::builder(40)
        .fingerprint_bits(11.try_into().unwrap())
        .bucket_size(3.try_into().unwrap())
        .max_kicks(17)
        .with_lru(LruConfig {
            counter_bits: 6.try_into().unwrap(),
            remove_on_zero: true,
            aging_strategy: LruAgingStrategy::Decrement(0x0102_0304),
            starting_value: 2,
            increment: 3,
        })
        .with_ttl(TtlConfig {
            ttl: 600.try_into().unwrap(),
            ttl_bits: 10.try_into().unwrap(),
        })
        .with_counter(CounterConfig {
            counter_bits: 5.try_into().unwrap(),
            change_on_insert: 4,
            change_on_lookup: -2,
        })
        .build()
        .unwrap()
}

fn bytes_of(configuration: &CuckooConfiguration) -> Vec<u8> {
    let mut bytes = Vec::new();
    configuration.write_to(&mut bytes).unwrap();
    bytes
}

fn read(bytes: &[u8]) -> Result<CuckooConfiguration, ImportError> {
    CuckooConfiguration::read_from(&mut ByteReader::new(bytes))
}

#[test]
fn configuration_bytes() {
    let mut expected: Vec<u8> = vec![0, 0, 2, 4, 11];
    expected.extend(3u64.to_be_bytes());
    expected.extend(48u64.to_be_bytes());
    expected.extend(17u64.to_be_bytes());
    expected.extend([1, 6, 1, 2, 1, 2, 3, 4]);
    expected.extend(2u32.to_be_bytes());
    expected.extend(3u32.to_be_bytes());
    expected.push(2);
    expected.extend(600u32.to_be_bytes());
    expected.push(10);
    expected.extend([3, 5]);
    expected.extend(4i32.to_be_bytes());
    expected.extend((-2i32).to_be_bytes());
    assert_eq!(bytes_of(&full_configuration()), expected);
}

#[test]
fn configuration_is_read_back() {
    let plain = CuckooConfiguration::builder(1000).build().unwrap();
    for configuration in [plain, full_configuration()] {
        let mut bytes = bytes_of(&configuration);
        assert_eq!(read(&bytes).unwrap(), configuration);
        bytes.extend([10, 20, 30]);
        let mut reader = ByteReader::new(&bytes);
        assert_eq!(CuckooConfiguration::read_from(&mut reader).unwrap(), configuration);
        // The byte that ends the features is used up
        assert_eq!(reader.read_u8(), Some(20));
    }
}

#[test]
fn old_configurations_are_read() {
    // Without a version, LRU has its bits only
    let mut bytes: Vec<u8> = vec![9];
    bytes.extend(4u64.to_be_bytes());
    bytes.extend(64u64.to_be_bytes());
    bytes.extend(500u64.to_be_bytes());
    bytes.extend([1, 7]);
    let expected = CuckooConfiguration::builder(64)
        .fingerprint_bits(9.try_into().unwrap())
        .with_lru(LruConfig {
            counter_bits: 7.try_into().unwrap(),
            ..Default::default()
        })
        .build()
        .unwrap();
    assert_eq!(read(&bytes).unwrap(), expected);

    // From 0.2.0 on, it says if items are removed
    let mut bytes: Vec<u8> = vec![0, 0, 2, 1, 9];
    bytes.extend(4u64.to_be_bytes());
    bytes.extend(64u64.to_be_bytes());
    bytes.extend(500u64.to_be_bytes());
    bytes.extend([1, 7, 1]);
    let expected = CuckooConfiguration::builder(64)
        .fingerprint_bits(9.try_into().unwrap())
        .with_lru(LruConfig {
            counter_bits: 7.try_into().unwrap(),
            remove_on_zero: true,
            ..Default::default()
        })
        .build()
        .unwrap();
    assert_eq!(read(&bytes).unwrap(), expected);
}

#[test]
fn unknown_aging_strategy_is_read_as_halving() {
    for (bytes, strategy, rest) in [
        (vec![1u8, 9], LruAgingStrategy::Halving, 1),
        (vec![2, 0, 0, 1, 0], LruAgingStrategy::Decrement(256), 0),
        (vec![77, 9], LruAgingStrategy::Halving, 1),
    ] {
        let mut reader = ByteReader::new(&bytes);
        assert_eq!(LruAgingStrategy::read_from(&mut reader).unwrap(), strategy);
        assert_eq!(reader.read(rest).map(|bytes| bytes.len()), Some(rest));
        assert_eq!(reader.read_u8(), None);
    }
    let mut reader = ByteReader::new(&[2, 0, 0, 1]);
    assert!(matches!(
        LruAgingStrategy::read_from(&mut reader),
        Err(ImportError::Io(_))
    ));
}

#[test]
fn invalid_configurations_are_refused() {
    let valid = bytes_of(&full_configuration());
    assert!(matches!(read(&[]), Err(ImportError::Io(_))));
    assert!(matches!(read(&valid[..3]), Err(ImportError::Io(_))));
    assert!(matches!(read(&valid[..28]), Err(ImportError::Io(_))));
    // The features may end after any of them, but not within one
    assert!(read(&valid[..29]).is_ok());
    assert!(matches!(read(&valid[..30]), Err(ImportError::Io(_))));

    let mut bytes = valid.clone();
    bytes[4] = 33;
    assert!(matches!(
        read(&bytes),
        Err(ImportError::Config(ConfigError::BitCountTooHigh))
    ));
    bytes[4] = 0;
    assert!(matches!(
        read(&bytes),
        Err(ImportError::Config(ConfigError::BitCountTooLow))
    ));

    // A bucket size of 0
    let mut bytes = valid.clone();
    bytes[12] = 0;
    assert!(matches!(read(&bytes), Err(ImportError::NonZeroError(_))));

    // Buckets that are too big
    let mut bytes = valid.clone();
    bytes[5] = 0xff;
    assert!(matches!(
        read(&bytes),
        Err(ImportError::Config(ConfigError::BucketTooBig))
    ));

    // A TTL of 0
    let at = valid.len() - 15;
    let mut bytes = valid.clone();
    assert_eq!(bytes[at..at + 4], 600u32.to_be_bytes());
    bytes[at..at + 4].fill(0);
    assert!(matches!(read(&bytes), Err(ImportError::NonZeroError(_))));
}

#[test]
fn filter_bytes() {
    let configuration = CuckooConfiguration::builder(4).build().unwrap();
    let filter = CuckooFilter::new(configuration, ExportableRandomState::default());
    let mut expected = format!("cuckoo-clock::{NAME}:").into_bytes();
    expected.extend([0u8; 16]);
    expected.extend(b":header-end\n");
    expected.extend(bytes_of(&configuration));
    expected.push(b'\n');
    expected.extend([0u8; 4]);
    let bytes = filter.exporter().snapshot().unwrap();
    assert_eq!(bytes, expected);

    let mut written = vec![1, 2];
    filter.exporter().write_to(&mut written).unwrap();
    assert_eq!(written[..2], [1, 2]);
    assert_eq!(written[2..], expected);
}

#[test]
fn bucket_bytes_are_counted() {
    // 16 buckets of 3 slots with 4 bytes each
    assert_eq!(full_configuration().buckets_len(), Some(16 * 3 * 4));
    let big = CuckooConfiguration::builder(usize::MAX / 2)
        .bucket_size(1.try_into().unwrap())
        .fingerprint_bits(32.try_into().unwrap())
        .build()
        .unwrap();
    assert_eq!(big.buckets_len(), None);
}

#[test]
fn removal_restores_every_byte() {
    let mut filter = CuckooFilter::new(full_configuration(), ExportableRandomState::default());
    filter.insert("kept");
    let bytes = filter.exporter().snapshot().unwrap();
    assert!(filter.insert("removed").is_none());
    assert_ne!(filter.exporter().snapshot().unwrap(), bytes);
    assert!(filter.remove("removed"));
    assert_eq!(filter.exporter().snapshot().unwrap(), bytes);
    assert!(!filter.remove("removed"));
    assert!(!filter.contains("removed"));
    assert_eq!(filter.exporter().snapshot().unwrap(), bytes);
}

#[test]
fn full_scan_is_both_scans() {
    let mut filter = CuckooFilter::new_random_exportable(full_configuration());
    for i in 0..30 {
        filter.insert(&i);
    }
    let bytes = filter.exporter().snapshot().unwrap();
    let mut other =
        CuckooFilter::import_random_exportable(&mut ByteReader::new(&bytes)).unwrap();
    filter.scan_and_update_full();
    other.scan_and_update_lru();
    other.scan_and_update_ttl();
    assert_ne!(filter.exporter().snapshot().unwrap(), bytes);
    assert_eq!(
        filter.exporter().snapshot().unwrap(),
        other.exporter().snapshot().unwrap()
    );

    let plain = CuckooConfiguration::builder(40).build().unwrap();
    let mut filter = CuckooFilter::new_random_exportable(plain);
    filter.insert("key");
    let bytes = filter.exporter().snapshot().unwrap();
    filter.scan_and_update_full();
    assert_eq!(filter.exporter().snapshot().unwrap(), bytes);
}

#[test]
fn lookups_change_the_same() {
    let mut filter = CuckooFilter::new_random_exportable(full_configuration());
    filter.insert("key");
    let bytes = filter.exporter().snapshot().unwrap();
    let mut other =
        CuckooFilter::import_random_exportable(&mut ByteReader::new(&bytes)).unwrap();
    assert!(filter.contains("key"));
    assert!(other.get_associated_data("key").is_some());
    assert_ne!(filter.exporter().snapshot().unwrap(), bytes);
    assert_eq!(
        filter.exporter().snapshot().unwrap(),
        other.exporter().snapshot().unwrap()
    );
}

#[test]
fn filter_is_read_back() {
    let mut filter = CuckooFilter::new_random_exportable(full_configuration());
    let words: Vec<String> = (0..30).map(|i| format!("word-{i}")).collect();
    for word in &words {
        filter.insert(word);
    }
    let mut bytes = filter.exporter().snapshot().unwrap();
    let len = bytes.len();
    bytes.extend([7, 8]);
    let mut reader = ByteReader::new(&bytes);
    let mut imported = CuckooFilter::import_random_exportable(&mut reader).unwrap();
    assert_eq!(reader.read_u8(), Some(7));
    assert_eq!(imported.get_configuration(), filter.get_configuration());
    assert_eq!(imported.exporter().snapshot().unwrap(), bytes[..len]);
    for word in &words {
        let data = filter.get_associated_data(word);
        let copy = imported.get_associated_data(word);
        assert_eq!(data.is_some(), copy.is_some());
        if let (Some(data), Some(copy)) = (data, copy) {
            assert_eq!(data.get_fingerprint(), copy.get_fingerprint());
            assert_eq!(
                data.get_stored_ttl_value().unwrap(),
                copy.get_stored_ttl_value().unwrap()
            );
            assert_eq!(data.get_lru_counter().unwrap(), copy.get_lru_counter().unwrap());
            assert_eq!(data.get_counter().unwrap(), copy.get_counter().unwrap());
        }
    }
    for end in [0, 10, len - 1] {
        let mut reader = ByteReader::new(&bytes[..end]);
        assert!(matches!(
            CuckooFilter::import_random_exportable(&mut reader),
            Err(ImportError::Io(_))
        ));
    }
}

#[test]
fn hasher_keys_are_read_back() {
    let state = ExportableRandomState::new_random();
    let mut bytes = Vec::new();
    state.write_to(&mut bytes).unwrap();
    assert_eq!(bytes.len(), 16);
    let read = ExportableRandomState::read_from(&mut ByteReader::new(&bytes)).unwrap();
    assert_eq!(read.hash_one("key"), state.hash_one("key"));
    let fixed = ExportableRandomState::read_from(&mut ByteReader::new(&[0; 16])).unwrap();
    assert_eq!(
        fixed.hash_one("key"),
        ExportableRandomState::default().hash_one("key")
    );
    assert!(matches!(
        ExportableRandomState::read_from(&mut ByteReader::new(&bytes[..15])),
        Err(ImportError::Io(_))
    ));
}

#[test]
fn random_keys_differ() {
    let a = ExportableRandomState::new_random();
    let b = ExportableRandomState::new_random();
    assert_ne!(a.hash_one("key"), b.hash_one("key"));
    assert_ne!(
        a.hash_one("key"),
        ExportableRandomState::default().hash_one("key")
    );
}

#[test]
fn fixed_keys_hash_as_siphash_does() {
    // SipHash-2-4 with keys of 0, of no bytes at all
    let hasher = ExportableRandomState::default().build_hasher();
    assert_eq!(hasher.finish(), 0x1e92_4b9d_7377_00d7);
    // The same with the keys of the reference implementation
    let mut bytes = 0x0706_0504_0302_0100u64.to_be_bytes().to_vec();
    bytes.extend(0x0f0e_0d0c_0b0a_0908u64.to_be_bytes());
    let state = ExportableRandomState::read_from(&mut ByteReader::new(&bytes)).unwrap();
    assert_eq!(state.build_hasher().finish(), 0x726f_db47_dd0e_0e31);
}

#[test]
fn other_headers_are_refused() {
    let filter = CuckooFilter::new_random_exportable(full_configuration());
    let bytes = filter.exporter().snapshot().unwrap();

    let mut other = bytes.clone();
    other[14] = b'X';
    let Err(error) = CuckooFilter::import_random_exportable(&mut ByteReader::new(&other)) else {
        panic!("The name is another one");
    };
    let ImportError::InvalidHasherName { expected, found } = &error else {
        panic!("The name is what is wrong");
    };
    assert_eq!(expected, NAME);
    assert_eq!(found, "Xuckoo_clock::exporter::ExportableRandomState");
    assert_eq!(
        error.message(""),
        format!("Invalid hasher name found in header: \"{found}\". Expected: \"{NAME}\"")
    );

    let mut other = bytes.clone();
    other[14] = 0xff;
    let Err(ImportError::InvalidHasherName { found, .. }) =
        CuckooFilter::import_random_exportable(&mut ByteReader::new(&other))
    else {
        panic!("The name is no text");
    };
    assert_eq!(found, "<non UTF-8 data>");

    let at = 14 + NAME.len() + 1 + 16;
    let mut other = bytes.clone();
    other[at] = b'-';
    let Err(error) = CuckooFilter::import_random_exportable(&mut ByteReader::new(&other)) else {
        panic!("The header ends otherwise");
    };
    let ImportError::InvalidHasherHeader { found } = &error else {
        panic!("The end of the header is what is wrong");
    };
    assert_eq!(found, "-header-end\n");
    assert_eq!(
        error.message(""),
        "Invalid hasher header. Expected \":header-end\n\" at the end, but found \"-header-end\n\""
    );
    other[at] = 0x80;
    let Err(ImportError::InvalidHasherHeader { found }) =
        CuckooFilter::import_random_exportable(&mut ByteReader::new(&other))
    else {
        panic!("The end of the header is no text");
    };
    assert_eq!(found, "<non UTF-8 data>");
}

#[test]
fn found_name_has_its_surroundings_removed() {
    // As long as the header, which is what is read of it
    let mut text = "cuckoo-clock::cuckoo-clock::näme".to_string();
    while text.len() < 14 + NAME.len() + 1 {
        text.push(':');
    }
    let Err(ImportError::InvalidHasherName { found, .. }) =
        CuckooFilter::import_random_exportable(&mut ByteReader::new(text.as_bytes()))
    else {
        panic!("The name is another one");
    };
    assert_eq!(found, "näme");
}

#[test]
fn import_and_export_error_messages() {
    let Err(error) = read(&[]) else {
        panic!("There are no bytes");
    };
    assert_eq!(error.message("the end"), "IO error while importing: the end");
    let ImportError::Io(cause) = &error else {
        panic!("There are no bytes");
    };
    assert_eq!(cause.kind(), std::io::ErrorKind::UnexpectedEof);
    assert_eq!(
        ImportError::Config(ConfigError::BitCountTooLow).message(""),
        "config error on imported data: Bit count too low! Min is 1."
    );
    let cause = u8::try_from(256).unwrap_err();
    assert_eq!(
        ImportError::from(cause).message("too big"),
        "conversion error in imported data: too big"
    );
    let cause = std::io::Error::from(std::io::ErrorKind::WriteZero);
    assert_eq!(
        ExportError::from(cause).message("no room"),
        "IO error while exporting: no room"
    );
}

#[test]
fn reader_reads_in_order() {
    let bytes: Vec<u8> = (1..=15).collect();
    let mut reader = ByteReader::new(&bytes);
    assert_eq!(reader.read_u8(), Some(1));
    assert_eq!(reader.read_u32(), Some(0x0203_0405));
    assert_eq!(reader.read_u64(), Some(0x0607_0809_0a0b_0c0d));
    assert_eq!(reader.read_u32(), None);
    assert_eq!(reader.read(2), Some(&[14u8, 15][..]));
    assert_eq!(reader.read_u8(), None);
    assert_eq!(reader.read(0), Some(&[][..]));
}

#[test]
fn equal_keys_hash_alike() {
    let state = ExportableRandomState::new_random();
    let mut hasher = state.build_hasher();
    "key".hash(&mut hasher);
    assert_eq!(hasher.finish(), state.hash_one("key"));
}
