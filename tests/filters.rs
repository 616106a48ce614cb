use qht::{
    get_hash, BasicQHT, ConfigError, DQuotientHashTable, Element, Filter, QQuotientHashTableD,
    QuotientHashTable,
};

#[test]
fn test_new_qht() {
    let _qht = QuotientHashTable::new(1025, 1, 3);
}

#[test]
fn qhtc_smoke() {
    let mut f = QuotientHashTable::new(1024, 1, 3);
    let e = Element { value: 1234 };
    assert!(!f.lookup(e));
    assert!(!f.insert(e));
    assert!(f.insert(e));
    assert!(f.lookup(e));
}

#[test]
fn dqhtc_always_writes() {
    let mut f = DQuotientHashTable::new(1024, 2, 4);
    let e = Element { value: 1234 };
    assert!(!f.insert(e));
    assert!(f.lookup(e));
    assert!(f.insert(e));
    assert!(f.lookup(e));
    assert!(f.insert(e));
    assert!(f.lookup(e));
    let a = f.get_fingerprint(e);
    let cell = (get_hash(e, 1, 0) % f.n_cells() as u64) as usize;
    assert_eq!(f.get_fingerprint_from_bucket(cell, 0), a);
    assert_eq!(f.get_fingerprint_from_bucket(cell, 1), a);
}

/// The first `count` elements, by value, whose fingerprint is `fp`.
fn with_fingerprint<F: BasicQHT>(f: &F, fp: u64, count: usize) -> Vec<Element> {
    let mut found = Vec::new();
    let mut value = 0u64;
    while found.len() < count {
        let e = Element { value };
        if f.get_fingerprint(e) == fp {
            found.push(e);
        }
        value += 1;
    }
    found
}

#[test]
fn dqqhtc_eviction() {
    let mut f = QQuotientHashTableD::new(2 * 4, 2, 4);
    assert_eq!(f.n_cells(), 1);
    let threes = with_fingerprint(&f, 3, 2);
    let fives = with_fingerprint(&f, 5, 1);
    let (a, a2, b) = (threes[0], threes[1], fives[0]);
    assert!(!f.insert(a));
    assert!(!f.insert(b));
    assert!(f.insert(a2));
    assert_eq!(f.get_fingerprint_from_bucket(0, 0), 5);
    assert_eq!(f.get_fingerprint_from_bucket(0, 1), 3);
}

#[test]
fn parameter_rejection() {
    assert_eq!(QuotientHashTable::try_new(16, 0, 3).err(), Some(ConfigError::NoBuckets));
    assert_eq!(QuotientHashTable::try_new(16, 1, 0).err(), Some(ConfigError::FingerprintZero));
    assert_eq!(QuotientHashTable::try_new(16, 1, 9).err(), Some(ConfigError::FingerprintTooLarge));
    assert_eq!(QuotientHashTable::try_new(0, 1, 3).err(), Some(ConfigError::MemoryTooSmall));
    assert_eq!(DQuotientHashTable::try_new(16, 0, 3).err(), Some(ConfigError::NoBuckets));
    assert_eq!(DQuotientHashTable::try_new(16, 1, 0).err(), Some(ConfigError::FingerprintZero));
    assert_eq!(DQuotientHashTable::try_new(16, 1, 9).err(), Some(ConfigError::FingerprintTooLarge));
    assert_eq!(DQuotientHashTable::try_new(0, 1, 3).err(), Some(ConfigError::MemoryTooSmall));
    assert_eq!(QQuotientHashTableD::try_new(16, 0, 3).err(), Some(ConfigError::NoBuckets));
    assert_eq!(QQuotientHashTableD::try_new(16, 1, 0).err(), Some(ConfigError::FingerprintZero));
    assert_eq!(QQuotientHashTableD::try_new(16, 1, 9).err(), Some(ConfigError::FingerprintTooLarge));
    assert_eq!(QQuotientHashTableD::try_new(0, 1, 3).err(), Some(ConfigError::MemoryTooSmall));
}

#[test]
fn parameter_checks_run_in_order() {
    assert_eq!(QuotientHashTable::try_new(0, 0, 9).err(), Some(ConfigError::FingerprintTooLarge));
    assert_eq!(QuotientHashTable::try_new(0, 0, 0).err(), Some(ConfigError::FingerprintZero));
    assert_eq!(QuotientHashTable::try_new(0, 0, 3).err(), Some(ConfigError::NoBuckets));
    assert_eq!(QuotientHashTable::try_new(11, 4, 3).err(), Some(ConfigError::MemoryTooSmall));
    assert_eq!(
        QuotientHashTable::try_new(usize::MAX, usize::MAX, 8).err(),
        Some(ConfigError::MemoryTooSmall)
    );
    assert!(QuotientHashTable::try_new(12, 4, 3).is_ok());
    assert!(QuotientHashTable::try_new(8, 1, 8).is_ok());
    assert!(QuotientHashTable::try_new(1, 1, 1).is_ok());
}

/// Bucket contents of every cell, in order.
fn snapshot<F: BasicQHT>(f: &F) -> Vec<u64> {
    let mut out = Vec::new();
    for a in 0..f.n_cells() {
        for b in 0..f.n_buckets() {
            out.push(f.get_fingerprint_from_bucket(a, b));
        }
    }
    out
}

#[test]
fn independence_of_fresh_filters() {
    let mut differing: u32 = 0;
    for _trial in 0..5 {
        let mut f = QuotientHashTable::new(16 * 4 * 8, 4, 8);
        let mut g = QuotientHashTable::new(16 * 4 * 8, 4, 8);
        for value in 0..2000u64 {
            let e = Element { value };
            f.insert(e);
            g.insert(e);
        }
        if snapshot(&f) != snapshot(&g) {
            differing += 1;
        }
    }
    assert!(differing > 0);
}

#[test]
fn dqhtc_independence_of_fresh_filters() {
    let mut differing: u32 = 0;
    for _trial in 0..5 {
        let mut f = DQuotientHashTable::new(16 * 4 * 8, 4, 8);
        let mut g = DQuotientHashTable::new(16 * 4 * 8, 4, 8);
        for value in 0..2000u64 {
            let e = Element { value };
            f.insert(e);
            g.insert(e);
        }
        if snapshot(&f) != snapshot(&g) {
            differing += 1;
        }
    }
    assert!(differing > 0);
}

#[test]
fn dqqhtc_is_deterministic() {
    let mut f = QQuotientHashTableD::new(16 * 4 * 8, 4, 8);
    let mut g = QQuotientHashTableD::new(16 * 4 * 8, 4, 8);
    for value in 0..2000u64 {
        let e = Element { value };
        assert_eq!(f.insert(e), g.insert(e));
    }
    assert_eq!(snapshot(&f), snapshot(&g));
}

#[test]
fn fresh_filters_are_empty() {
    let f = QuotientHashTable::new(1024, 4, 3);
    let g = DQuotientHashTable::new(1024, 4, 3);
    let h = QQuotientHashTableD::new(1024, 4, 3);
    for value in 0..500u64 {
        let e = Element { value };
        assert!(!f.lookup(e));
        assert!(!g.lookup(e));
        assert!(!h.lookup(e));
    }
    assert!(snapshot(&f).iter().all(|&x| x == 0));
}

#[test]
fn lookup_after_insert_every_variant() {
    let mut f = QuotientHashTable::new(4096, 3, 5);
    let mut g = DQuotientHashTable::new(4096, 3, 5);
    let mut h = QQuotientHashTableD::new(4096, 3, 5);
    for value in 0..3000u64 {
        let e = Element { value: value * 7919 };
        f.insert(e);
        assert!(f.lookup(e));
        g.insert(e);
        assert!(g.lookup(e));
        h.insert(e);
        assert!(h.lookup(e));
    }
}

#[test]
fn insert_twice_reports_present() {
    for value in [0u64, 1, 42, 1234, u64::MAX] {
        let e = Element { value };
        let mut f = QuotientHashTable::new(100, 2, 5);
        assert!(!f.insert(e));
        assert!(f.insert(e));
        let mut g = DQuotientHashTable::new(100, 2, 5);
        assert!(!g.insert(e));
        assert!(g.insert(e));
        let mut h = QQuotientHashTableD::new(100, 2, 5);
        assert!(!h.insert(e));
        assert!(h.insert(e));
    }
}

#[test]
fn fingerprints_are_nonzero_and_fit() {
    for fs in 1..=8usize {
        let f = QQuotientHashTableD::new(64, 1, fs);
        for value in 0..2000u64 {
            let fp = f.get_fingerprint(Element { value });
            assert!(fp >= 1);
            assert!(fp < (1u64 << fs));
        }
    }
}

#[test]
fn one_bit_fingerprints_are_one() {
    let f = QuotientHashTable::new(10, 1, 1);
    for value in 0..100u64 {
        assert_eq!(f.get_fingerprint(Element { value }), 1);
    }
}

#[test]
fn capacity_layout() {
    let f = QuotientHashTable::new(1024, 1, 3);
    assert_eq!((f.n_cells(), f.n_buckets(), f.fingerprint_size()), (341, 1, 3));
    let g = DQuotientHashTable::new(100_000, 5, 3);
    assert_eq!(g.n_cells(), 6666);
    let h = QQuotientHashTableD::new(15, 2, 4);
    assert_eq!(h.n_cells(), 1);
    assert_eq!(QQuotientHashTableD::try_new(7, 2, 4).err(), Some(ConfigError::MemoryTooSmall));
}

#[test]
fn dqqhtc_fifo_four_buckets() {
    let mut f = QQuotientHashTableD::new(4 * 4, 4, 4);
    assert_eq!(f.n_cells(), 1);
    let mut items = Vec::new();
    for fp in 1..=5u64 {
        items.push(with_fingerprint(&f, fp, 1)[0]);
    }
    for e in &items {
        f.insert(*e);
    }
    for b in 0..4 {
        assert_eq!(f.get_fingerprint_from_bucket(0, b), b as u64 + 2);
    }
    assert!(!f.lookup(items[0]));
    assert!(f.lookup(items[4]));
}

#[test]
fn qhtc_fills_first_empty_bucket() {
    let mut f = QuotientHashTable::new(4 * 4, 4, 4);
    assert_eq!(f.n_cells(), 1);
    let fps = [9u64, 2, 14, 7];
    for (i, fp) in fps.iter().enumerate() {
        let e = with_fingerprint(&f, *fp, 1)[0];
        assert!(!f.insert(e));
        assert_eq!(f.get_fingerprint_from_bucket(0, i), *fp);
        for j in (i + 1)..4 {
            assert_eq!(f.get_fingerprint_from_bucket(0, j), 0);
        }
    }
}

#[test]
fn qhtc_full_cell_replaces_one_bucket() {
    let mut f = QuotientHashTable::new(3 * 4, 3, 4);
    for fp in [3u64, 4, 5] {
        f.insert(with_fingerprint(&f, fp, 1)[0]);
    }
    let e = with_fingerprint(&f, 11, 1)[0];
    assert!(!f.insert(e));
    let after = snapshot(&f);
    assert!(after.contains(&11));
    let kept = [3u64, 4, 5].iter().filter(|fp| after.contains(fp)).count();
    assert_eq!(kept, 2);
    assert!(f.insert(e));
    assert_eq!(snapshot(&f), after);
}

#[test]
fn dqhtc_detects_but_still_writes() {
    let mut f = DQuotientHashTable::new(3 * 4, 3, 4);
    let e = with_fingerprint(&f, 6, 1)[0];
    assert!(!f.insert(e));
    assert!(f.insert(e));
    assert_eq!(snapshot(&f), vec![6, 6, 0]);
}

#[test]
fn insert_fingerprint_in_bucket_by_hand() {
    let mut f = QuotientHashTable::new(64, 2, 4);
    f.insert_fingerprint_in_bucket(3, 1, 13);
    assert_eq!(f.get_fingerprint_from_bucket(3, 1), 13);
    assert_eq!(f.get_fingerprint_from_bucket(3, 0), 0);
    assert_eq!(f.get_fingerprint_from_bucket(4, 0), 0);
    assert!(f.in_cell(3, 13));
    assert!(!f.in_cell(2, 13));
    f.insert_fingerprint_in_bucket(3, 1, 0);
    assert!(!f.in_cell(3, 13));
}

#[test]
fn hash_depends_on_every_input() {
    let e = Element { value: 1234 };
    assert_eq!(get_hash(e, 1, 0), get_hash(e, 1, 0));
    assert_ne!(get_hash(e, 1, 0), get_hash(e, 2, 0));
    assert_ne!(get_hash(e, 2, 0), get_hash(e, 2, 1));
    assert_ne!(get_hash(e, 1, 0), get_hash(Element { value: 1235 }, 1, 0));
}
