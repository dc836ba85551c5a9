use ptr_hash::persistence::{calculate_checksum, header_for, FileHeader, HeaderError, PersistenceStrategy};

#[test]
fn test_checksum_calculation() {
    let data1 = b"hello world";
    let data2 = b"hello world";
    let data3 = b"hello world!";

    assert_eq!(calculate_checksum(data1), calculate_checksum(data2));
    assert_ne!(calculate_checksum(data1), calculate_checksum(data3));
}

#[test]
fn checksum_is_crc32_ieee() {
    assert_eq!(calculate_checksum(b"123456789"), 0xCBF4_3926);
    assert_eq!(calculate_checksum(b""), 0);
}

#[test]
fn header_round_trip_validates() {
    let h = FileHeader::new(100, 7, 3, PersistenceStrategy::RebuildOnLoad);
    assert_eq!(&h.magic, b"LEARNKV1");
    assert_eq!(h.version, 1);
    assert_eq!(h.strategy, 1);
    assert_eq!(h.validate(), Ok(PersistenceStrategy::RebuildOnLoad));
}

#[test]
fn header_legacy_strategy_zero_accepted() {
    let mut h = FileHeader::new(1, 2, 3, PersistenceStrategy::RebuildOnLoad);
    h.strategy = 0;
    assert_eq!(h.validate(), Ok(PersistenceStrategy::RebuildOnLoad));
}

#[test]
fn header_bad_magic() {
    let mut h = FileHeader::new(1, 2, 3, PersistenceStrategy::RebuildOnLoad);
    h.magic = *b"INVALID1";
    assert_eq!(h.validate(), Err(HeaderError::BadMagic));
}

#[test]
fn header_bad_version() {
    let mut h = FileHeader::new(1, 2, 3, PersistenceStrategy::RebuildOnLoad);
    h.version = 2;
    assert_eq!(h.validate(), Err(HeaderError::BadVersion(2)));
}

#[test]
fn header_unknown_strategy() {
    let mut h = FileHeader::new(1, 2, 3, PersistenceStrategy::RebuildOnLoad);
    h.strategy = 9;
    assert_eq!(h.validate(), Err(HeaderError::UnknownStrategy(9)));
}

#[test]
fn payload_checksum_mismatch_detected() {
    let data = b"some payload".to_vec();
    let h = header_for(&data, 4);
    assert_eq!(h.file_size, 12);
    assert_eq!(h.key_count, 4);
    assert_eq!(h.check_payload(&data), Ok(PersistenceStrategy::RebuildOnLoad));
    let mut corrupted = data.clone();
    corrupted[0] ^= 1;
    assert!(matches!(h.check_payload(&corrupted), Err(HeaderError::ChecksumMismatch { .. })));
}

#[test]
fn key_count_checked() {
    let h = FileHeader::new(1, 2, 3, PersistenceStrategy::RebuildOnLoad);
    assert_eq!(h.check_key_count(3), Ok(()));
    assert_eq!(h.check_key_count(4), Err(HeaderError::KeyCountMismatch { recorded: 3, counted: 4 }));
}
