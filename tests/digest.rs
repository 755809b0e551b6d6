use nixcr::digest::{digest_string, hex_bytes, hex_lower, is_digest};
use nixcr::hash_write::{digest_of_bytes, HashAndWrite};

#[test]
fn hex_is_two_lowercase_digits_per_byte() {
    assert_eq!(hex_lower(&[0x00, 0x0f, 0xa0, 0xff]), "000fa0ff");
    assert_eq!(hex_lower(&[]), "");
    assert_eq!(hex_bytes(&[0xab]), b"ab".to_vec());
}

#[test]
fn digest_text_has_the_algorithm_tag() {
    assert_eq!(digest_string(&[1, 2]), "sha256:0102");
}

#[test]
fn digest_of_empty_and_abc() {
    assert_eq!(
        digest_of_bytes(b""),
        "sha256:e3b0c44298fc1c149afbf4c8996fb92427ae41e4649b934ca495991b7852b855"
    );
    assert_eq!(
        digest_of_bytes(b"abc"),
        "sha256:ba7816bf8f01cfea414140de5dae2223b00361a396177a9cb410ff61f20015ad"
    );
}

#[test]
fn streaming_digest_matches_whole_digest() {
    let data: Vec<u8> = (0..5000u32).map(|i| (i % 251) as u8).collect();
    let mut h = HashAndWrite::new();
    for chunk in data.chunks(777) {
        h.write(chunk);
    }
    assert_eq!(h.get_size(), 5000);
    assert_eq!(h.get_digest(), digest_of_bytes(&data));
    // asking twice gives the same answer and leaves the state open
    assert_eq!(h.get_digest(), digest_of_bytes(&data));
    h.write(b"x");
    assert_eq!(h.get_size(), 5001);
}

#[test]
fn equal_content_gives_equal_digest() {
    assert_eq!(digest_of_bytes(b"layer"), digest_of_bytes(b"layer"));
    assert_ne!(digest_of_bytes(b"layer"), digest_of_bytes(b"layer2"));
}

#[test]
fn only_digest_text_names_a_blob() {
    let good = "sha256:e3b0c44298fc1c149afbf4c8996fb92427ae41e4649b934ca495991b7852b855";
    assert!(is_digest(good));
    assert!(is_digest(&digest_of_bytes(b"anything")));
    assert!(!is_digest("sha256:E3B0C44298FC1C149AFBF4C8996FB92427AE41E4649B934CA495991B7852B855"));
    assert!(!is_digest("sha512:e3b0c44298fc1c149afbf4c8996fb92427ae41e4649b934ca495991b7852b855"));
    assert!(!is_digest("sha256:e3b0"));
    assert!(!is_digest("../../etc/passwd"));
    assert!(!is_digest("deadbeefcommit"));
    assert!(!is_digest(""));
}
