use mining_pool::bytes::{be_le, reverse_bytes};

#[test]
fn big_endian_comparison() {
    assert!(be_le(&vec![0, 1], &vec![0, 1]));
    assert!(be_le(&vec![0, 255], &vec![1, 0]));
    assert!(!be_le(&vec![1, 0], &vec![0, 255]));
    assert!(be_le(&vec![], &vec![]));
}

#[test]
fn reversing_bytes() {
    assert_eq!(reverse_bytes(&vec![1, 2, 3]), vec![3, 2, 1]);
    assert_eq!(reverse_bytes(&vec![]), Vec::<u8>::new());
}
