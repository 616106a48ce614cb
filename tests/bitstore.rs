use qht::BitStore;

#[test]
fn bitstore_sub_word() {
    let mut s = BitStore::with_capacity(64);
    s.insert(5, 60, 4);
    assert_eq!(s.extract(60, 4), 5);
    assert_eq!(s.extract(56, 4), 0);
}

#[test]
fn bitstore_fresh_is_zero() {
    let s = BitStore::with_capacity(200);
    assert_eq!(s.len(), 200);
    assert_eq!(s.extract(0, 64), 0);
    assert_eq!(s.extract(136, 64), 0);
    assert_eq!(s.extract(199, 1), 0);
}

#[test]
fn bitstore_straddles_word_boundary() {
    let mut s = BitStore::with_capacity(192);
    s.insert(0xAB, 60, 8);
    assert_eq!(s.extract(60, 8), 0xAB);
    assert_eq!(s.extract(60, 4), 0xB);
    assert_eq!(s.extract(64, 4), 0xA);
    assert_eq!(s.extract(56, 4), 0);
    assert_eq!(s.extract(68, 4), 0);
}

#[test]
fn bitstore_keeps_low_bits_only() {
    let mut s = BitStore::with_capacity(64);
    s.insert(0xFF, 8, 4);
    assert_eq!(s.extract(8, 4), 0xF);
    assert_eq!(s.extract(12, 4), 0);
    assert_eq!(s.extract(0, 8), 0);
}

#[test]
fn bitstore_overwrite_leaves_neighbours() {
    let mut s = BitStore::with_capacity(128);
    s.insert(0b101, 10, 3);
    s.insert(0b110, 13, 3);
    s.insert(0b011, 7, 3);
    assert_eq!(s.extract(7, 3), 0b011);
    assert_eq!(s.extract(10, 3), 0b101);
    assert_eq!(s.extract(13, 3), 0b110);
    s.insert(0, 10, 3);
    assert_eq!(s.extract(7, 9), 0b110_000_011);
}

#[test]
fn bitstore_full_width() {
    let mut s = BitStore::with_capacity(192);
    s.insert(u64::MAX, 0, 64);
    s.insert(0x0123_4567_89AB_CDEF, 100, 64);
    assert_eq!(s.extract(0, 64), u64::MAX);
    assert_eq!(s.extract(100, 64), 0x0123_4567_89AB_CDEF);
    assert_eq!(s.extract(64, 36), 0);
    assert_eq!(s.extract(164, 28), 0);
}

#[test]
fn bitstore_zero_width() {
    let mut s = BitStore::with_capacity(16);
    s.insert(7, 16, 0);
    assert_eq!(s.extract(16, 0), 0);
    assert_eq!(s.extract(0, 16), 0);
}
