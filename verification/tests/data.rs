use garage_store::data;

fn data_hash_from_hex(text: &str) -> data::Hash {
    data::Hash::from_slice(&hex::decode(text).unwrap()).unwrap()
}

#[test]
fn hash_of_empty_block() {
    let h = data::hash(b"");
    assert_eq!(
        h.to_hex(),
        "e3b0c44298fc1c149afbf4c8996fb92427ae41e4649b934ca495991b7852b855"
    );
    assert_eq!(h.bytes[0], 227);
    assert_eq!(h.bytes[31], 85);
}

#[test]
fn hash_of_zero_block() {
    let block = vec![0u8; 4096];
    assert_eq!(
        data::hash(&block),
        data_hash_from_hex("ad7facb2586fc6e966c004d7d1d16b024f5805ff7cb47c7a85dabd8b48892ca7")
    );
}

#[test]
fn hash_depends_on_the_bytes() {
    assert_ne!(data::hash(b"hello"), data::hash(b"hellp"));
    assert_eq!(
        data::hash(b"hello").to_hex(),
        "2cf24dba5fb0a30e26e83b2ac5b9e29e1b161e5c1fa7425e73043362938b9824"
    );
}

#[test]
fn hash_from_slice_wants_32_bytes() {
    assert_eq!(data::Hash::from_slice(&[1u8; 31]), None);
    assert_eq!(data::Hash::from_slice(&[1u8; 33]), None);
    assert_eq!(data::Hash::from_slice(&[]), None);
    let h = data::Hash::from_slice(&[7u8; 32]).unwrap();
    assert_eq!(h.bytes, [7u8; 32]);
    assert_eq!(h.as_slice(), &[7u8; 32][..]);
    assert_eq!(h.to_vec(), vec![7u8; 32]);
    assert_eq!(h, data::Hash::filled(7));
    assert_eq!(h, data::Hash::new([7u8; 32]));
}

#[test]
fn hash_equality_is_bytewise() {
    let mut bytes = [0u8; 32];
    let a = data::Hash::new(bytes);
    bytes[31] = 1;
    let b = data::Hash::new(bytes);
    assert!(a.same(&a));
    assert!(!a.same(&b));
    assert!(a == a);
    assert!(a != b);
}

#[test]
fn hash_order_is_lexicographic() {
    let mut low = [0u8; 32];
    low[0] = 1;
    low[1] = 255;
    let mut high = [0u8; 32];
    high[0] = 2;
    let low = data::Hash::new(low);
    let high = data::Hash::new(high);
    assert!(low.precedes(&high));
    assert!(!high.precedes(&low));
    assert!(!low.precedes(&low));
    assert!(data::Hash::filled(0).precedes(&low));
    assert!(high.precedes(&data::Hash::filled(0xff)));
    // The derived order is the same one.
    assert!(low < high);
    let mut last = [0u8; 32];
    last[31] = 1;
    assert!(data::Hash::filled(0).precedes(&data::Hash::new(last)));
}

#[test]
fn hex_of_a_hash() {
    let mut bytes = [0u8; 32];
    bytes[0] = 0xab;
    bytes[1] = 0x0f;
    bytes[31] = 0xf0;
    let text = data::Hash::new(bytes).to_hex();
    assert_eq!(text.len(), 64);
    assert_eq!(&text[..4], "ab0f");
    assert_eq!(&text[62..], "f0");
    assert_eq!(hex::decode(&text).unwrap(), bytes.to_vec());
}

#[test]
fn big_endian_encoding() {
    assert_eq!(
        data::u64_to_be_bytes(0x0102030405060708),
        vec![1, 2, 3, 4, 5, 6, 7, 8]
    );
    assert_eq!(data::u64_to_be_bytes(0), vec![0u8; 8]);
    assert_eq!(data::u64_to_be_bytes(u64::MAX), vec![255u8; 8]);
    assert_eq!(data::u64_to_be_bytes(256), vec![0, 0, 0, 0, 0, 0, 1, 0]);
    assert_eq!(
        data::u64_to_be_bytes(1_600_000_000_000),
        1_600_000_000_000u64.to_be_bytes().to_vec()
    );
}

#[test]
fn big_endian_decoding() {
    assert_eq!(
        data::u64_from_bytes(&[1, 2, 3, 4, 5, 6, 7, 8]),
        0x0102030405060708
    );
    assert_eq!(data::u64_from_bytes(&[0u8; 8]), 0);
    assert_eq!(data::u64_from_bytes(&[255u8; 8]), u64::MAX);
    assert_eq!(data::u64_from_bytes(&[0, 0, 0, 0, 0, 0, 1, 0]), 256);
}

#[test]
fn big_endian_round_trip() {
    for x in [0u64, 1, 255, 256, 65_535, 1 << 32, (1 << 56) + 3, u64::MAX - 1, u64::MAX] {
        assert_eq!(data::u64_from_bytes(&data::u64_to_be_bytes(x)), x);
    }
}

#[test]
fn big_endian_keeps_the_order() {
    let pairs = [(0u64, 1u64), (255, 256), (65_535, 65_536), (1 << 40, (1 << 40) + 1), (7, u64::MAX)];
    for (a, b) in pairs {
        assert!(data::u64_to_be_bytes(a) < data::u64_to_be_bytes(b));
    }
}
