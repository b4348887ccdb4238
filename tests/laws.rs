use le_bitset::BitSet;

#[test]
fn chunk_count_values() {
    assert_eq!(BitSet::calc_chunks(1), 1);
    assert_eq!(BitSet::calc_chunks(31), 1);
    assert_eq!(BitSet::calc_chunks(32), 1);
    assert_eq!(BitSet::calc_chunks(33), 2);
    assert_eq!(BitSet::calc_chunks(64), 2);
    assert_eq!(BitSet::calc_chunks(65), 3);
    assert_eq!(BitSet::calc_chunks(3176), 100);
}

#[test]
fn last_mask_values() {
    assert_eq!(BitSet::last_mask(1), 0b1);
    assert_eq!(BitSet::last_mask(16), 0xFFFF);
    assert_eq!(BitSet::last_mask(31), 0x7FFF_FFFF);
    assert_eq!(BitSet::last_mask(33), 0b1);
}

#[test]
fn round_trip_across_chunk_boundary() {
    let mut bs = BitSet::with_capacity(33);
    bs.set(31);
    assert!(bs.test(31));
    assert!(!bs.test(32));
    bs.set(32);
    assert!(bs.test(31));
    assert!(bs.test(32));
    bs.reset(31);
    assert!(!bs.test(31));
    assert!(bs.test(32));
    assert_eq!(*bs.chunks(), vec![0, 1]);
    bs.reset(32);
    assert!(!bs.test(32));
    assert_eq!(*bs.chunks(), vec![0, 0]);
}

#[test]
fn set_is_idempotent_and_reset_clears_only_its_bit() {
    let mut bs = BitSet::from_bits(vec![0b1010], 4);
    bs.set(1);
    assert_eq!(bs.chunks()[0], 0b1010);
    bs.reset(3);
    assert_eq!(bs.chunks()[0], 0b0010);
    assert!(bs.test(1));
    assert!(!bs.test(0));
    assert!(!bs.test(2));
}

#[test]
fn set_all_masks_partial_tail() {
    let mut bs = BitSet::with_capacity(36);
    bs.set_all();
    assert_eq!(*bs.chunks(), vec![u32::MAX, 0b1111]);
    for i in 0..36 {
        assert!(bs.test(i));
    }
}

#[test]
fn set_all_tail_is_never_all_ones() {
    let mut bs = BitSet::with_capacity(16);
    bs.set_all();
    assert_eq!(bs.chunks()[0], (1u32 << 16) - 1);
    assert_ne!(bs.chunks()[0], u32::MAX);
}

#[test]
fn reset_all_after_set_all() {
    let mut bs = BitSet::with_capacity(70);
    bs.set_all();
    bs.reset_all();
    assert_eq!(*bs.chunks(), vec![0, 0, 0]);
    for i in 0..70 {
        assert!(!bs.test(i));
    }
}

#[test]
fn with_capacity_is_all_zero() {
    let bs = BitSet::with_capacity(65);
    assert_eq!(*bs.chunks(), vec![0, 0, 0]);
}

#[test]
fn try_with_capacity_rejects_zero() {
    assert!(BitSet::try_with_capacity(0).is_none());
    let bs = BitSet::try_with_capacity(5).unwrap();
    assert_eq!(bs.num_bits(), 5);
    assert_eq!(*bs.chunks(), vec![0]);
}

#[test]
fn try_from_bits_rejects_empty() {
    assert!(BitSet::try_from_bits(Vec::new(), 0).is_none());
}

#[test]
fn try_from_bits_rejects_dirty_padding() {
    assert!(BitSet::try_from_bits(vec![0b101], 2).is_none());
    assert!(BitSet::try_from_bits(vec![0, 0b10], 33).is_none());
}

#[test]
fn try_from_bits_rejects_wrong_chunk_count() {
    assert!(BitSet::try_from_bits(vec![0, 0], 32).is_none());
    assert!(BitSet::try_from_bits(vec![0], 33).is_none());
    assert!(BitSet::try_from_bits(Vec::new(), 1).is_none());
}

#[test]
fn try_from_bits_accepts_valid() {
    let bs = BitSet::try_from_bits(vec![0b101], 3).unwrap();
    assert_eq!(bs.num_bits(), 3);
    assert!(bs.test(0));
    assert!(!bs.test(1));
    assert!(bs.test(2));
    let full = BitSet::try_from_bits(vec![u32::MAX, 0b1], 33).unwrap();
    assert!(full.test(32));
}

#[test]
fn into_raw_chunks() {
    let mut bs = BitSet::with_capacity(40);
    bs.set(39);
    let raw: Vec<u32> = Vec::from(bs);
    assert_eq!(raw, vec![0, 0x80]);
}
