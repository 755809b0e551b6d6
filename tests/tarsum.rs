use nixcr::tarsum::{canonical_header_representation, entry_sum_of, lex_less_eq, tarsum, TarEntry};

fn entries_of(bytes: &[u8]) -> Vec<TarEntry> {
    let mut archive = tar::Archive::new(bytes);
    let mut out = Vec::new();
    for entry in archive.entries().unwrap() {
        let mut entry = entry.unwrap();
        let mut content = Vec::new();
        std::io::Read::read_to_end(&mut entry, &mut content).unwrap();
        let header = entry.header();
        out.push(TarEntry {
            path: entry.path_bytes().into_owned(),
            mode: header.mode().unwrap(),
            uid: header.uid().unwrap(),
            gid: header.gid().unwrap(),
            size: header.size().unwrap(),
            entry_type: header.entry_type().as_byte(),
            link_name: entry.link_name_bytes().map(|l| l.into_owned()).unwrap_or_default(),
            device_major: header.device_major().ok().flatten().unwrap_or(0),
            device_minor: header.device_minor().ok().flatten().unwrap_or(0),
            content,
        });
    }
    out
}

fn entry(path: &str, mode: u32, content: &[u8]) -> TarEntry {
    TarEntry {
        path: path.as_bytes().to_vec(),
        mode,
        uid: 0,
        gid: 0,
        size: content.len() as u64,
        entry_type: b'0',
        link_name: Vec::new(),
        device_major: 0,
        device_minor: 0,
        content: content.to_vec(),
    }
}

#[test]
fn test_header() {
    let mut test_header = tar::Header::new_gnu();
    test_header.set_path("file.txt").unwrap();
    test_header.set_size(0);
    test_header.set_mode(0);
    test_header.set_uid(0);
    test_header.set_gid(0);
    test_header.set_entry_type(tar::EntryType::Regular);
    test_header.set_device_minor(0).unwrap();
    test_header.set_device_major(0).unwrap();
    test_header.set_cksum();

    let mut archive_builder = tar::Builder::new(Vec::new());
    archive_builder.append(&test_header, std::io::empty()).unwrap();
    let archive_bytes = archive_builder.into_inner().unwrap();
    let entries = entries_of(&archive_bytes[..]);

    assert_eq!(
        tarsum(&entries),
        "tarsum.v1+sha256:6ffd43a1573a9913325b4918e124ee982a99c0f3cba90fc032a65f5e20bdd465"
    );
}

#[test]
fn canonical_header_lists_fields_behind_labels() {
    let mut e = entry("a/b", 0o644, b"hi");
    e.uid = 1000;
    e.gid = 100;
    e.entry_type = b'2';
    e.link_name = b"../t".to_vec();
    e.device_major = 8;
    e.device_minor = 1;
    let text = canonical_header_representation(&e);
    assert_eq!(
        String::from_utf8(text).unwrap(),
        "namea/bmode420uid1000gid100size2typeflag2linkname../tunamegnamedevmajor8devminor1"
    );
}

#[test]
fn canonical_header_encodes_high_type_codes_as_utf8() {
    let mut e = entry("f", 0, b"");
    e.entry_type = 0xe9;
    let text = canonical_header_representation(&e);
    assert!(String::from_utf8(text).unwrap().contains("typeflagélinkname"));
}

#[test]
fn empty_archive_sum_is_the_hash_of_the_empty_join() {
    assert_eq!(
        tarsum(&Vec::new()),
        "tarsum.v1+sha256:e3b0c44298fc1c149afbf4c8996fb92427ae41e4649b934ca495991b7852b855"
    );
}

#[test]
fn sum_ignores_entry_order() {
    let a = vec![entry("x", 0o644, b"one"), entry("y", 0o755, b"two"), entry("z", 0, b"")];
    let b = vec![entry("z", 0, b""), entry("x", 0o644, b"one"), entry("y", 0o755, b"two")];
    assert_eq!(tarsum(&a), tarsum(&b));
}

#[test]
fn sum_changes_with_content_path_mode_or_link() {
    let base = vec![entry("x", 0o644, b"one")];
    let s = tarsum(&base);
    assert_ne!(s, tarsum(&vec![entry("x", 0o644, b"two")]));
    assert_ne!(s, tarsum(&vec![entry("w", 0o644, b"one")]));
    assert_ne!(s, tarsum(&vec![entry("x", 0o600, b"one")]));
    let mut linked = entry("x", 0o644, b"one");
    linked.link_name = b"t".to_vec();
    assert_ne!(s, tarsum(&vec![linked]));
}

#[test]
fn entry_sum_is_lowercase_hex_of_sha256() {
    let e = entry("file.txt", 0, b"");
    let sum = entry_sum_of(&e);
    assert_eq!(sum.len(), 64);
    assert!(sum.iter().all(|c| c.is_ascii_digit() || (b'a'..=b'f').contains(c)));
}

#[test]
fn lexicographic_order_puts_prefixes_first() {
    assert!(lex_less_eq(b"ab", b"abc"));
    assert!(!lex_less_eq(b"abc", b"ab"));
    assert!(lex_less_eq(b"abc", b"abd"));
    assert!(lex_less_eq(b"", b""));
    assert!(!lex_less_eq(b"b", b"a"));
}

#[test]
fn sum_is_prefix_and_sixty_four_hex_digits() {
    let s = tarsum(&vec![entry("a", 0o644, b"x")]);
    assert_eq!(s.len(), 81);
    assert!(s.starts_with("tarsum.v1+sha256:"));
    assert!(s[17..].chars().all(|c| c.is_ascii_digit() || ('a'..='f').contains(&c)));
}
