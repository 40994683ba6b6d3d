use timestamp_comparator::bridge::ComparatorError;
use timestamp_comparator::bridge::create_comparator;
use timestamp_comparator::bridge::is_valid_comparator_name;
use timestamp_comparator::bridge::new_timestamp_aware_comparator;
use timestamp_comparator::comparator::ComparatorWithU64;

fn byte_compare(a: &[u8], b: &[u8]) -> i32 {
    match a.cmp(b) {
        std::cmp::Ordering::Less => -1,
        std::cmp::Ordering::Equal => 0,
        std::cmp::Ordering::Greater => 1,
    }
}

#[test]
fn test_name_validation() {
    assert!(is_valid_comparator_name(b"plain-name"));
    assert!(!is_valid_comparator_name(b""));
    assert!(!is_valid_comparator_name(b"has\0nul"));
    assert!(!is_valid_comparator_name(b"\0"));
    assert!(!is_valid_comparator_name(b"trailing\0"));
}

#[test]
fn test_create_comparator_rejects_bad_names() {
    let r = create_comparator(b"bad\0name".to_vec(), byte_compare);
    assert!(matches!(r, Err(ComparatorError::InvalidName)));
    let r = create_comparator(Vec::new(), byte_compare);
    assert!(matches!(r, Err(ComparatorError::InvalidName)));
}

#[test]
fn test_plain_bridge_name_and_compare() {
    let cb = create_comparator(b"bytewise".to_vec(), byte_compare).unwrap();
    assert_eq!(cb.get_name().as_slice(), b"bytewise");
    assert_eq!(cb.compare(b"a", b"b"), -1);
    assert_eq!(cb.compare(b"b", b"a"), 1);
    assert_eq!(cb.compare(b"same", b"same"), 0);
    // The name stays the same bytes between and after compares.
    assert_eq!(cb.get_name().as_slice(), b"bytewise");
    cb.destroy();
}

#[test]
fn test_timestamp_aware_registration_rejects_bad_names() {
    let r = new_timestamp_aware_comparator(b"with\0nul".to_vec(), 8, ComparatorWithU64::new());
    assert!(matches!(r, Err(ComparatorError::InvalidName)));
    let r = new_timestamp_aware_comparator(Vec::new(), 8, ComparatorWithU64::new());
    assert!(matches!(r, Err(ComparatorError::InvalidName)));
}

#[test]
fn test_timestamp_aware_handle_entry_points() {
    let name = b"rust-rocksdb.bytewise-comparator-with-u64-ts".to_vec();
    let handle = new_timestamp_aware_comparator(name.clone(), 8, ComparatorWithU64::new()).unwrap();
    assert_eq!(handle.get_name().as_slice(), name.as_slice());
    assert_eq!(handle.timestamp_width(), 8);

    let mut k1_t1 = b"k1".to_vec();
    k1_t1.extend_from_slice(&1u64.to_be_bytes());
    let mut k1_t2 = b"k1".to_vec();
    k1_t2.extend_from_slice(&2u64.to_be_bytes());
    // The newest version of a raw key orders first.
    assert!(handle.compare(&k1_t2, &k1_t1) < 0);
    assert_eq!(handle.compare_timestamp(&1u64.to_be_bytes(), &2u64.to_be_bytes()), -1);
    assert_eq!(handle.compare_without_timestamp(&k1_t1, true, b"k1", false), 0);
    // The name is the same bytes while comparisons are in flight.
    assert_eq!(handle.get_name().as_slice(), name.as_slice());
    handle.destroy();
}

#[test]
fn test_single_destruction_over_many_cycles() {
    // Each cycle creates a handle that owns its capability and destroys it
    // exactly once; `destroy` consumes the handle, so no entry point can
    // be reached afterwards and nothing is left to leak across cycles.
    for round in 0..1000u64 {
        let cb = create_comparator(b"cycle-plain".to_vec(), byte_compare).unwrap();
        assert_eq!(cb.compare(b"x", b"y"), -1);
        cb.destroy();

        let handle = new_timestamp_aware_comparator(
            b"cycle-timestamp-aware".to_vec(),
            8,
            ComparatorWithU64::new(),
        )
        .unwrap();
        let mut k = round.to_be_bytes().to_vec();
        k.extend_from_slice(&round.to_be_bytes());
        assert_eq!(handle.compare(&k, &k), 0);
        handle.destroy();
    }
}
