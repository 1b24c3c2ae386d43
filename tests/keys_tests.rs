use mining_pool::keys::new_pub_key;

#[test]
fn pool_public_key_is_compressed_point() {
    let key = new_pub_key().unwrap();
    let expected: Vec<u8> = (0..33)
        .map(|i| {
            let s = "02466d7fcae563e5cb09a0d1870bb580344804617879a14949cf22285f1bae3f27";
            u8::from_str_radix(&s[2 * i..2 * i + 2], 16).unwrap()
        })
        .collect();
    assert_eq!(key, expected);
}
