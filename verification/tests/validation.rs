use bitrange::storage::Storage;

fn two_words() -> Storage {
    Storage::try_new(vec![0xAB, 0xCD], 16).unwrap()
}

#[test]
fn rejects_reversed_or_empty_range() {
    let s = two_words();
    assert_eq!(s.try_bits(4, 4, 8, false), None);
    assert_eq!(s.try_bits(9, 5, 8, false), None);
    let mut s = s;
    assert!(!s.try_set_bits(4, 4, 0x1, 8));
    assert!(!s.try_set_bits(9, 5, 0x1, 8));
    assert_eq!(s.words, vec![0xAB, 0xCD]);
}

#[test]
fn rejects_out_of_bounds_range() {
    let s = two_words();
    assert_eq!(s.try_bits(28, 33, 8, false), None);
    assert_eq!(s.try_bits(32, 40, 8, false), None);
    let mut s = s;
    assert!(!s.try_set_bits(28, 33, 0x1, 8));
    assert_eq!(s.words, vec![0xAB, 0xCD]);
}

#[test]
fn rejects_range_wider_than_value() {
    let s = two_words();
    assert_eq!(s.try_bits(0, 12, 8, false), None);
    let mut s = s;
    assert!(!s.try_set_bits(0, 12, 0x1, 8));
    assert_eq!(s.words, vec![0xAB, 0xCD]);
}

#[test]
fn accepts_valid_range() {
    let s = two_words();
    assert!(s.range_ok(4, 12, 8));
    assert!(!s.range_ok(4, 4, 8));
    assert!(!s.range_ok(4, 33, 8));
    assert!(!s.range_ok(4, 16, 8));
    assert_eq!(s.try_bits(0, 8, 8, false), Some(0xAB));
    let mut s = s;
    assert!(s.try_set_bits(0, 8, 0x12, 8));
    assert_eq!(s.words, vec![0x12, 0xCD]);
}

#[test]
fn try_new_rejects_bad_widths_and_oversized_words() {
    assert!(Storage::try_new(vec![1], 0).is_none());
    assert!(Storage::try_new(vec![1], 129).is_none());
    assert!(Storage::try_new(vec![0x100], 8).is_none());
    assert!(Storage::try_new(vec![0xFF, 0x1FF], 8).is_none());
    assert!(Storage::try_new(vec![0xFF], 8).is_some());
    assert!(Storage::try_new(vec![u128::MAX], 128).is_some());
}
