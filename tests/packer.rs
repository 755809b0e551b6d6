use nixcr::hash_write::HashAndWrite;
use nixcr::packer::{archive_name, layer_groups, Layer, LAYER_MEDIA_TYPE};

fn closure(n: usize) -> Vec<String> {
    (0..n).map(|i| format!("/nix/store/p{}", i)).collect()
}

fn check_groups(n: usize, expected_groups: usize, expected_size: usize) {
    let paths = closure(n);
    let groups = layer_groups(&paths);
    assert_eq!(groups.len(), expected_groups);
    assert!(groups.iter().all(|g| g.len() <= expected_size));
    let joined: Vec<String> = groups.concat();
    assert_eq!(joined, paths);
}

#[test]
fn empty_closure_gives_one_empty_group() {
    let groups = layer_groups(&Vec::new());
    assert_eq!(groups.len(), 1);
    assert!(groups[0].is_empty());
}

#[test]
fn small_closures_get_one_path_per_group() {
    check_groups(1, 1, 1);
    check_groups(5, 5, 1);
    check_groups(99, 99, 1);
}

#[test]
fn group_count_follows_the_formula() {
    // g = n / 100 + 1, count = ceil(n / g)
    check_groups(100, 50, 2);
    check_groups(101, 51, 2);
    check_groups(250, 84, 3);
    check_groups(1000, 91, 11);
    check_groups(10_000, 100, 101);
}

#[test]
fn last_group_holds_the_remainder() {
    let groups = layer_groups(&closure(250));
    assert_eq!(groups[0].len(), 3);
    assert_eq!(groups[83].len(), 1);
    assert_eq!(groups[83][0], "/nix/store/p249");
}

#[test]
fn archive_names_drop_the_leading_separator() {
    assert_eq!(archive_name("/nix/store/abc-hello"), "nix/store/abc-hello");
    assert_eq!(archive_name("relative/x"), "relative/x");
    assert_eq!(archive_name("/"), "");
    assert_eq!(archive_name(""), "");
}

#[test]
fn layer_records_digest_and_size_of_written_bytes() {
    let mut h = HashAndWrite::new();
    h.write(b"ab");
    h.write(b"c");
    let layer = Layer::from_archive(&h);
    assert_eq!(layer.media_type, LAYER_MEDIA_TYPE);
    assert_eq!(layer.media_type, "application/vnd.docker.image.rootfs.diff.tar");
    assert_eq!(
        layer.digest,
        "sha256:ba7816bf8f01cfea414140de5dae2223b00361a396177a9cb410ff61f20015ad"
    );
    assert_eq!(layer.size, 3);
}
