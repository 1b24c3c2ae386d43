use mining_pool::errors::Error;
use mining_pool::extranonce::ExtendedExtranonce;

#[test]
fn prefixes_count_up_in_the_channel_range() {
    let mut g = ExtendedExtranonce::new(0..0, 0..16, 16..32);
    assert_eq!(g.extranonce_len(), 32);
    assert_eq!(g.prefix_len(), 16);
    let a = g.next_prefix().unwrap();
    let b = g.next_prefix().unwrap();
    let mut expected = vec![0u8; 16];
    expected[15] = 1;
    assert_eq!(a, expected);
    expected[15] = 2;
    assert_eq!(b, expected);
}

#[test]
fn prefixes_are_distinct() {
    let mut g = ExtendedExtranonce::new(0..2, 2..3, 3..8);
    let mut seen: Vec<Vec<u8>> = Vec::new();
    for _ in 0..255 {
        let p = g.next_prefix().unwrap();
        assert_eq!(p.len(), 3);
        assert_eq!(&p[0..2], &[0, 0]);
        assert!(!seen.contains(&p));
        seen.push(p);
    }
    assert_eq!(g.next_prefix(), Err(Error::NoMoreExtranonces));
    assert_eq!(g.next_prefix(), Err(Error::NoMoreExtranonces));
}

#[test]
fn counter_carries_into_the_next_byte() {
    let mut g = ExtendedExtranonce::new(0..0, 0..2, 2..4);
    let mut last = Vec::new();
    for _ in 0..256 {
        last = g.next_prefix().unwrap();
    }
    assert_eq!(last, vec![1, 0]);
}

#[test]
fn empty_channel_range_is_exhausted_at_once() {
    let mut g = ExtendedExtranonce::new(0..4, 4..4, 4..32);
    assert_eq!(g.next_prefix(), Err(Error::NoMoreExtranonces));
}
