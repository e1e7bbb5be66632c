use bittorrent::bit_vec::BitVec;
use bittorrent::bitfield::Bitfield;

#[test]
fn bit_vec_set_toggle_unset() {
    let mut bv = BitVec::new(35);
    bv.set(34).unwrap();
    assert!(bv.has(34));
    bv.toggle(34).unwrap();
    assert!(!bv.has(34));
    bv.toggle(34).unwrap();
    assert!(bv.has(34));
    bv.unset(34).unwrap();
    assert!(!bv.has(34));
    bv.unset(34).unwrap();
    assert!(!bv.has(34));
}

#[test]
fn bit_vec_has() {
    let bv = BitVec::from_vec(vec![0b10101010, 0b01110110]);
    assert!(bv.has(0));
    assert!(!bv.has(1));
    assert!(!bv.has(7));
    assert!(!bv.has(8));
    assert!(bv.has(14));
}

#[test]
fn bit_vec_ones() {
    let bv = BitVec::from_vec(vec![0b10101010, 0b01110110]);
    let mut ones = bv.ones().into_iter();
    assert_eq!(ones.next(), Some(0));
    assert_eq!(ones.next(), Some(2));
    assert_eq!(ones.next(), Some(4));
    assert_eq!(ones.next(), Some(6));

    assert_eq!(ones.next(), Some(9));
    assert_eq!(ones.next(), Some(10));
    assert_eq!(ones.next(), Some(11));
    assert_eq!(ones.next(), Some(13));
    assert_eq!(ones.next(), Some(14));

    assert_eq!(ones.next(), None);
}

#[test]
fn bit_vec_zeros() {
    let bv = BitVec::new(3);
    let mut zeros = bv.zeros().into_iter();
    assert_eq!(zeros.next(), Some(0));
    assert_eq!(zeros.next(), Some(1));
    assert_eq!(zeros.next(), Some(2));
    assert_eq!(zeros.next(), None);
}

#[test]
fn bitfield_set() {
    let mut bf = Bitfield::new(35);
    bf.set(34).unwrap();
    assert!(bf.has(34));
}

#[test]
fn bitfield_has() {
    let bf = Bitfield::from_vec(vec![0b10101010, 0b01110110]);
    assert!(bf.has(0));
    assert!(!bf.has(1));
    assert!(!bf.has(7));
    assert!(!bf.has(8));
    assert!(bf.has(14));
}

#[test]
fn bitfield_set_bits() {
    let bf = Bitfield::from_vec(vec![0b10101010, 0b01110110]);
    let mut set_bits = bf.set_bits().into_iter();
    assert_eq!(set_bits.next(), Some(0));
    assert_eq!(set_bits.next(), Some(2));
    assert_eq!(set_bits.next(), Some(4));
    assert_eq!(set_bits.next(), Some(6));

    assert_eq!(set_bits.next(), Some(9));
    assert_eq!(set_bits.next(), Some(10));
    assert_eq!(set_bits.next(), Some(11));
    assert_eq!(set_bits.next(), Some(13));
    assert_eq!(set_bits.next(), Some(14));

    assert_eq!(set_bits.next(), None);
}

#[test]
fn bitfield_unset_bits() {
    let bf = Bitfield::new(3);
    let mut unset_bits = bf.unset_bits().into_iter();
    assert_eq!(unset_bits.next(), Some(0));
    assert_eq!(unset_bits.next(), Some(1));
    assert_eq!(unset_bits.next(), Some(2));
    assert_eq!(unset_bits.next(), None);
}

#[test]
fn bit_vec_is_full() {
    let mut bv = BitVec::new(3);
    assert!(!bv.is_full());
    bv.set(0).unwrap();
    bv.set(1).unwrap();
    assert!(!bv.is_full());
    bv.set(2).unwrap();
    assert!(bv.is_full());
}

#[test]
fn bit_vec_out_of_range() {
    let mut bv = BitVec::new(8);
    assert!(bv.set(8).is_err());
    assert!(bv.unset(8).is_err());
    assert!(bv.toggle(8).is_err());
    assert!(!bv.has(8));
}

#[test]
fn bitfield_from_payload_checks_length() {
    let bf = Bitfield::from_payload(vec![0b1000_0000], 8);
    assert!(bf.is_some());
    assert!(bf.unwrap().has(0));
    assert!(Bitfield::from_payload(vec![0b1000_0000, 0], 8).is_none());
}

#[test]
fn bit_vec_from_parts_checks_coverage() {
    let mut bv = BitVec::from_parts(vec![0b1010_0000], 3).unwrap();
    assert!(bv.has(0));
    assert!(!bv.has(1));
    assert!(bv.has(2));
    bv.set(1).unwrap();
    assert!(bv.has(1));
    assert!(BitVec::from_parts(Vec::new(), 1).is_none());
}
