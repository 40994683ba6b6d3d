use timestamp_comparator::comparator::ComparatorWithU64;
use timestamp_comparator::comparator::TimestampAwareComparator;
use timestamp_comparator::comparator::extract_timestamp_from_user_key;
use timestamp_comparator::comparator::strip_timestamp_from_user_key;
use timestamp_comparator::ordering::compare_bytes;

fn key(raw: &[u8], ts: u64) -> Vec<u8> {
    let mut k = raw.to_vec();
    k.extend_from_slice(&ts.to_be_bytes());
    k
}

#[test]
fn test_compare_bytes_exact_values() {
    assert_eq!(compare_bytes(b"", b""), 0);
    assert_eq!(compare_bytes(b"", b"a"), -1);
    assert_eq!(compare_bytes(b"a", b""), 1);
    assert_eq!(compare_bytes(b"abc", b"abc"), 0);
    assert_eq!(compare_bytes(b"abc", b"abd"), -1);
    assert_eq!(compare_bytes(b"abd", b"abc"), 1);
    assert_eq!(compare_bytes(b"ab", b"abc"), -1);
    assert_eq!(compare_bytes(b"abc", b"ab"), 1);
    assert_eq!(compare_bytes(&[0xff], &[0x00]), 1);
}

#[test]
fn test_compare_orders_raw_keys_first() {
    let c = ComparatorWithU64::new();
    assert!(c.compare(&key(b"k1", 1), &key(b"k2", 9)) < 0);
    assert!(c.compare(&key(b"k2", 9), &key(b"k1", 1)) > 0);
    assert_eq!(c.compare(&key(b"k1", 5), &key(b"k1", 5)), 0);
}

#[test]
fn test_compare_newer_timestamp_first() {
    // For equal raw keys the larger timestamp orders first.
    let c = ComparatorWithU64::new();
    assert!(c.compare(&key(b"k1", 2), &key(b"k1", 1)) < 0);
    assert!(c.compare(&key(b"k1", 1), &key(b"k1", 2)) > 0);
}

#[test]
fn test_compare_timestamp_matches_byte_order() {
    let c = ComparatorWithU64::new();
    assert_eq!(c.compare_timestamp(&1u64.to_be_bytes(), &2u64.to_be_bytes()), -1);
    assert_eq!(c.compare_timestamp(&2u64.to_be_bytes(), &1u64.to_be_bytes()), 1);
    assert_eq!(c.compare_timestamp(&7u64.to_be_bytes(), &7u64.to_be_bytes()), 0);
    // Big-endian encoding makes byte order the numeric order.
    assert_eq!(c.compare_timestamp(&255u64.to_be_bytes(), &256u64.to_be_bytes()), -1);
}

#[test]
fn test_compare_without_timestamp_bare_equivalence() {
    // A suffixed key with the timestamp excluded ties against its bare raw key.
    let c = ComparatorWithU64::new();
    for ts in [0u64, 1, 42, u64::MAX] {
        assert_eq!(c.compare_without_timestamp(&key(b"raw-key", ts), true, b"raw-key", false), 0);
    }
    assert_eq!(c.compare_without_timestamp(b"bare", false, &key(b"bare", 3), true), 0);
    assert_eq!(c.compare_without_timestamp(b"a", false, b"b", false), -1);
    assert_eq!(c.compare_without_timestamp(&key(b"b", 1), true, &key(b"a", 1), true), 1);
}

#[test]
fn test_comparisons_deterministic() {
    let c = ComparatorWithU64::new();
    let a = key(b"k1", 3);
    let b = key(b"k2", 1);
    let first = c.compare(&a, &b);
    for _ in 0..10 {
        assert_eq!(c.compare(&a, &b), first);
        assert_eq!(c.compare_timestamp(&3u64.to_be_bytes(), &1u64.to_be_bytes()), 1);
        assert_eq!(c.compare_without_timestamp(&a, true, &b, true), -1);
    }
}

#[test]
fn test_strict_weak_ordering_samples() {
    let c = ComparatorWithU64::new();
    let keys = [
        key(b"a", 2),
        key(b"a", 1),
        key(b"b", 9),
        key(b"b", 9),
        key(b"ba", 4),
        key(b"c", 7),
    ];
    for x in &keys {
        for y in &keys {
            // Antisymmetry of the sign.
            assert_eq!(c.compare(x, y), -c.compare(y, x));
            for z in &keys {
                // Transitivity of the strict order and of ties.
                if c.compare(x, y) < 0 && c.compare(y, z) < 0 {
                    assert!(c.compare(x, z) < 0);
                }
                if c.compare(x, y) == 0 && c.compare(y, z) == 0 {
                    assert_eq!(c.compare(x, z), 0);
                }
            }
        }
    }
}

#[test]
fn test_extract_and_strip_helpers() {
    let k = key(b"user-key", 0x0102030405060708);
    let width: usize = 8;
    assert_eq!(extract_timestamp_from_user_key(&k, &width), &[1, 2, 3, 4, 5, 6, 7, 8]);
    assert_eq!(strip_timestamp_from_user_key(&k, &width), b"user-key");
}
