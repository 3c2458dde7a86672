use lakedb::ident::new_id;

#[test]
fn id_has_constant_length_and_noun_tag() {
    let entropy: Vec<u8> = vec![7, 1, 255, 3, 9, 200, 44, 5, 6, 17];
    let a = new_id("location", 1_700_000_000_000, &entropy);
    let b = new_id("species", 9_999, &entropy);
    assert_eq!(a.len(), 26);
    assert_eq!(b.len(), 26);
    assert_eq!(&a[6..8], "lo");
    assert_eq!(&b[6..8], "sp");
}

#[test]
fn tag_is_case_folded() {
    let entropy: Vec<u8> = vec![0; 10];
    let a = new_id("Location", 0, &entropy);
    assert_eq!(&a[6..8], "lo");
    let b = new_id("LO", 0, &entropy);
    assert_eq!(&b[6..8], "lo");
}

#[test]
fn zero_input_encodes_to_zero_digits() {
    let entropy: Vec<u8> = vec![0; 10];
    let id = new_id("location", 0, &entropy);
    assert_eq!(id, "000000lo000000000000000000");
}

#[test]
fn low_bits_encode_the_last_digit() {
    let mut entropy: Vec<u8> = vec![0; 10];
    entropy[9] = 1;
    let id = new_id("location", 0, &entropy);
    assert_eq!(id, "000000lo000000000000000001");
    entropy[9] = 31;
    let id = new_id("location", 0, &entropy);
    assert_eq!(id, "000000lo00000000000000000Z");
}

#[test]
fn timestamp_occupies_the_leading_digits() {
    let entropy: Vec<u8> = vec![0; 10];
    // 1 << 40 puts a single bit in the second five-bit group from the top.
    let id = new_id("species", 1u64 << 40, &entropy);
    assert!(id.starts_with("01"));
    let earlier = new_id("species", 1, &entropy);
    let later = new_id("species", 2u64 << 45, &entropy);
    assert!(earlier < later);
}
