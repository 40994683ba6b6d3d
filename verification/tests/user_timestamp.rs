use timestamp_comparator::comparator::ComparatorWithU64;
use timestamp_comparator::store::MultiVersionStore;
use timestamp_comparator::store::VersionedRecord;

const COMPARATOR_NAME: &[u8] = b"rust-rocksdb.bytewise-comparator-with-u64-ts";

fn open_store() -> MultiVersionStore {
    MultiVersionStore::open(COMPARATOR_NAME.to_vec(), 8, ComparatorWithU64::new()).unwrap()
}

fn ts(t: u64) -> [u8; 8] {
    t.to_be_bytes()
}

fn assert_version(rec: &VersionedRecord, raw: &[u8], t: u64, value: &[u8]) {
    assert_eq!(rec.raw_key.as_slice(), raw);
    assert_eq!(rec.timestamp.as_slice(), &ts(t));
    assert_eq!(rec.value.as_deref(), Some(value));
}

fn assert_tombstone(rec: &VersionedRecord, raw: &[u8], t: u64) {
    assert_eq!(rec.raw_key.as_slice(), raw);
    assert_eq!(rec.timestamp.as_slice(), &ts(t));
    assert!(rec.value.is_none());
}

#[test]
fn test_user_timestamp_read_write() {
    let mut db = open_store();

    db.put_with_ts(b"k1", &ts(1), b"v1");
    db.put_with_ts(b"k1", &ts(2), b"v12");
    db.put_with_ts(b"k2", &ts(1), b"v2");
    db.delete_with_ts(b"k2", &ts(2));
    db.put_with_ts(b"k3", &ts(1), b"v3");
    db.put_with_ts(b"k3", &ts(2), b"v32");

    assert_eq!(db.get_opt(b"k1", &ts(2)).unwrap(), b"v12");
    assert!(db.get_opt(b"k2", &ts(2)).is_none());
    assert_eq!(db.get_opt(b"k3", &ts(2)).unwrap(), b"v32");

    assert_eq!(db.get_opt(b"k1", &ts(1)).unwrap(), b"v1");
    assert_eq!(db.get_opt(b"k2", &ts(1)).unwrap(), b"v2");
    assert_eq!(db.get_opt(b"k3", &ts(1)).unwrap(), b"v3");

    db.put_with_ts(b"k1", &ts(1), b"v13");
    db.put_with_ts(b"k2", &ts(1), b"v23");
    db.put_with_ts(b"k3", &ts(1), b"v33");
    assert_eq!(db.get_opt(b"k1", &ts(1)).unwrap(), b"v13");
    assert_eq!(db.get_opt(b"k2", &ts(1)).unwrap(), b"v23");
    assert_eq!(db.get_opt(b"k3", &ts(1)).unwrap(), b"v33");
}

#[test]
fn test_user_timestamp_write_batch() {
    let mut db = open_store();

    // One batch of writes applied in order.
    let batch: Vec<(&[u8], u64, Option<&[u8]>)> = vec![
        (b"k1" as &[u8], 1, Some(b"v1" as &[u8])),
        (b"k2", 1, Some(b"v2" as &[u8])),
        (b"k3", 1, Some(b"v3" as &[u8])),
        (b"k1", 2, Some(b"v12" as &[u8])),
        (b"k2", 2, None),
        (b"k4", 2, Some(b"v4" as &[u8])),
        (b"k5", 2, Some(b"v5" as &[u8])),
    ];
    for (key, t, value) in batch {
        match value {
            Some(v) => db.put_with_ts(key, &ts(t), v),
            None => db.delete_with_ts(key, &ts(t)),
        }
    }

    assert_eq!(db.get_opt(b"k1", &ts(2)).unwrap(), b"v12");
    assert!(db.get_opt(b"k2", &ts(2)).is_none());
    assert_eq!(db.get_opt(b"k3", &ts(2)).unwrap(), b"v3");

    assert_eq!(db.get_opt(b"k1", &ts(1)).unwrap(), b"v1");
    assert_eq!(db.get_opt(b"k2", &ts(1)).unwrap(), b"v2");
    assert_eq!(db.get_opt(b"k3", &ts(1)).unwrap(), b"v3");
}

#[test]
fn test_user_timestamp_non_default_column_family() {
    // Two column families, each with its own registered comparator.
    let _default_cf = open_store();
    let mut write_cf = open_store();

    write_cf.put_with_ts(b"k1", &ts(1), b"v1");
    write_cf.put_with_ts(b"k1", &ts(2), b"v12");
    write_cf.put_with_ts(b"k2", &ts(1), b"v2");
    write_cf.delete_with_ts(b"k2", &ts(2));
    write_cf.put_with_ts(b"k3", &ts(1), b"v3");
    write_cf.put_with_ts(b"k3", &ts(2), b"v32");

    assert_eq!(write_cf.get_opt(b"k1", &ts(2)).unwrap(), b"v12");
    assert!(write_cf.get_opt(b"k2", &ts(2)).is_none());
    assert_eq!(write_cf.get_opt(b"k3", &ts(2)).unwrap(), b"v32");

    assert_eq!(write_cf.get_opt(b"k1", &ts(1)).unwrap(), b"v1");
    assert_eq!(write_cf.get_opt(b"k2", &ts(1)).unwrap(), b"v2");
    assert_eq!(write_cf.get_opt(b"k3", &ts(1)).unwrap(), b"v3");
}

fn store_with_three_keys() -> MultiVersionStore {
    let mut db = open_store();
    db.put_with_ts(b"k1", &ts(1), b"v11");
    db.put_with_ts(b"k1", &ts(2), b"v12");
    db.put_with_ts(b"k2", &ts(1), b"v21");
    db.delete_with_ts(b"k2", &ts(2));
    db.put_with_ts(b"k3", &ts(1), b"v31");
    db.put_with_ts(b"k3", &ts(2), b"v32");
    db
}

#[test]
fn test_user_timestamp_iterator() {
    let db = store_with_three_keys();

    let iter = db.scan(&ts(1));
    assert_eq!(iter.len(), 3);
    assert_version(&iter[0], b"k1", 1, b"v11");
    assert_version(&iter[1], b"k2", 1, b"v21");
    assert_version(&iter[2], b"k3", 1, b"v31");

    let iter = db.scan(&ts(2));
    assert_eq!(iter.len(), 2);
    assert_version(&iter[0], b"k1", 2, b"v12");
    assert_version(&iter[1], b"k3", 2, b"v32");
}

#[test]
fn test_user_timestamp_iterator_with_start_ts() {
    let db = store_with_three_keys();

    // Every version in the inclusive range [1, 2], per key newest first,
    // with the tombstone surfaced explicitly.
    let iter = db.scan_with_start_ts(&ts(2), &ts(1));
    assert_eq!(iter.len(), 6);
    assert_version(&iter[0], b"k1", 2, b"v12");
    assert_version(&iter[1], b"k1", 1, b"v11");
    assert_tombstone(&iter[2], b"k2", 2);
    assert_version(&iter[3], b"k2", 1, b"v21");
    assert_version(&iter[4], b"k3", 2, b"v32");
    assert_version(&iter[5], b"k3", 1, b"v31");
}

#[test]
fn test_user_timestamp_iterator_seek_prev() {
    let db = store_with_three_keys();

    // Walking the same range backwards from the last version of k3.
    let iter = db.scan_with_start_ts(&ts(2), &ts(1));
    assert_eq!(iter.len(), 6);
    let mut rev = iter.iter().rev();
    let rec = rev.next().unwrap();
    assert_version(rec, b"k3", 1, b"v31");
    let rec = rev.next().unwrap();
    assert_version(rec, b"k3", 2, b"v32");
    let rec = rev.next().unwrap();
    assert_version(rec, b"k2", 1, b"v21");
    let rec = rev.next().unwrap();
    assert_tombstone(rec, b"k2", 2);
    let rec = rev.next().unwrap();
    assert_version(rec, b"k1", 1, b"v11");
    let rec = rev.next().unwrap();
    assert_version(rec, b"k1", 2, b"v12");
}

#[test]
fn test_user_timestamp_sst() {
    // The same file of versions ingested into two column families.
    let sst: Vec<(&[u8], u64, Option<&[u8]>)> = vec![
        (b"k1" as &[u8], 2, Some(b"v12" as &[u8])),
        (b"k1", 1, Some(b"v11" as &[u8])),
        (b"k2", 2, None),
        (b"k2", 1, Some(b"v21" as &[u8])),
        (b"k3", 2, Some(b"v32" as &[u8])),
        (b"k3", 1, Some(b"v31" as &[u8])),
    ];
    let mut default_cf = open_store();
    let mut write_cf = open_store();
    for cf in [&mut default_cf, &mut write_cf] {
        for (key, t, value) in &sst {
            match value {
                Some(v) => cf.put_with_ts(key, &ts(*t), v),
                None => cf.delete_with_ts(key, &ts(*t)),
            }
        }
    }

    for cf in [&default_cf, &write_cf] {
        assert_eq!(cf.get_opt(b"k1", &ts(2)).unwrap(), b"v12");
        assert!(cf.get_opt(b"k2", &ts(2)).is_none());
        assert_eq!(cf.get_opt(b"k3", &ts(2)).unwrap(), b"v32");

        assert_eq!(cf.get_opt(b"k1", &ts(1)).unwrap(), b"v11");
        assert_eq!(cf.get_opt(b"k2", &ts(1)).unwrap(), b"v21");
        assert_eq!(cf.get_opt(b"k3", &ts(1)).unwrap(), b"v31");
    }
}

#[test]
fn test_user_timestamp_get_val_and_ts() {
    let mut db = open_store();

    db.put_with_ts(b"k1", &ts(1), b"v1");
    db.put_with_ts(b"k1", &ts(3), b"v12");
    db.put_with_ts(b"k2", &ts(1), b"v2");
    db.delete_with_ts(b"k2", &ts(2));
    db.put_with_ts(b"k3", &ts(1), b"v3");
    db.put_with_ts(b"k3", &ts(5), b"v32");

    let (val, t) = db.get_opt_ts(b"k1", &ts(10)).unwrap();
    assert_eq!(val, b"v12");
    assert_eq!(t, ts(3).to_vec());
    assert!(db.get_opt_ts(b"k2", &ts(10)).is_none());
    let (val, t) = db.get_opt_ts(b"k3", &ts(10)).unwrap();
    assert_eq!(val, b"v32");
    assert_eq!(t, ts(5).to_vec());

    let (val, t) = db.get_opt_ts(b"k1", &ts(1)).unwrap();
    assert_eq!(val, b"v1");
    assert_eq!(t, ts(1).to_vec());
    let (val, t) = db.get_opt_ts(b"k2", &ts(1)).unwrap();
    assert_eq!(val, b"v2");
    assert_eq!(t, ts(1).to_vec());
    let (val, t) = db.get_opt_ts(b"k3", &ts(1)).unwrap();
    assert_eq!(val, b"v3");
    assert_eq!(t, ts(1).to_vec());
}

#[test]
fn test_store_comparator_name_stability() {
    let db = open_store();
    assert_eq!(db.comparator_name().as_slice(), COMPARATOR_NAME);
    let mut db = db;
    db.put_with_ts(b"k1", &ts(1), b"v1");
    assert_eq!(db.comparator_name().as_slice(), COMPARATOR_NAME);
}
