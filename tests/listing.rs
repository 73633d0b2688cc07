use rew::digest::{hex_lower, sha256_hex};
use rew::fs_options::{DirEntryInfo, ReaddirOptions};
use rew::listing::select_entries;
use rew::runtime::rand_range;
use rew::random::{gen_uid, rand_from};

fn entry(name: &str, dir: bool, size: u64, modified: Option<u64>) -> DirEntryInfo {
    DirEntryInfo {
        name: name.to_string(),
        path: format!("/d/{}", name),
        is_file: !dir,
        is_directory: dir,
        is_symlink: false,
        size,
        modified,
        created: None,
    }
}

fn sample() -> Vec<DirEntryInfo> {
    vec![
        entry("b.txt", false, 30, Some(5)),
        entry(".hidden", false, 1, Some(1)),
        entry("sub", true, 0, None),
        entry("a.txt", false, 10, Some(9)),
        entry("c.txt", false, 10, Some(2)),
    ]
}

fn names(v: &[DirEntryInfo]) -> Vec<String> {
    v.iter().map(|e| e.name.clone()).collect()
}

fn opts(hidden: bool, filter: Option<&str>, sort: Option<&str>) -> ReaddirOptions {
    ReaddirOptions {
        include_hidden: hidden,
        filter_type: filter.map(|s| s.to_string()),
        sort_by: sort.map(|s| s.to_string()),
    }
}

#[test]
fn hidden_entries_are_skipped_unless_asked() {
    assert_eq!(names(&select_entries(sample(), &opts(false, None, None))), vec!["b.txt", "sub", "a.txt", "c.txt"]);
    assert_eq!(select_entries(sample(), &opts(true, None, None)).len(), 5);
}

#[test]
fn type_filters() {
    assert_eq!(names(&select_entries(sample(), &opts(false, Some("directory"), None))), vec!["sub"]);
    assert_eq!(names(&select_entries(sample(), &opts(false, Some("file"), None))), vec!["b.txt", "a.txt", "c.txt"]);
    assert_eq!(select_entries(sample(), &opts(false, Some("symlink"), None)).len(), 0);
    assert_eq!(select_entries(sample(), &opts(false, Some("other"), None)).len(), 4);
}

#[test]
fn sort_orders() {
    assert_eq!(names(&select_entries(sample(), &opts(false, None, Some("name")))), vec!["a.txt", "b.txt", "c.txt", "sub"]);
    assert_eq!(names(&select_entries(sample(), &opts(false, None, Some("size")))), vec!["sub", "a.txt", "c.txt", "b.txt"]);
    assert_eq!(names(&select_entries(sample(), &opts(false, None, Some("modified")))), vec!["sub", "c.txt", "b.txt", "a.txt"]);
    assert_eq!(names(&select_entries(sample(), &opts(false, None, Some("type")))), vec!["sub", "b.txt", "a.txt", "c.txt"]);
    assert_eq!(names(&select_entries(sample(), &opts(false, None, Some("bogus")))), vec!["b.txt", "sub", "a.txt", "c.txt"]);
}

#[test]
fn hex_and_digest() {
    assert_eq!(hex_lower(&vec![0u8, 15, 16, 255]), "000f10ff");
    assert_eq!(sha256_hex(&b"abc".to_vec()), "ba7816bf8f01cfea414140de5dae2223b00361a396177a9cb410ff61f20015ad");
    assert_eq!(sha256_hex(&Vec::new()), "e3b0c44298fc1c149afbf4c8996fb92427ae41e4649b934ca495991b7852b855");
}

#[test]
fn random_ranges() {
    assert_eq!(rand_range(4, 4), None);
    assert_eq!(rand_range(1, 9), Some((1, 9)));
    assert_eq!(rand_range(9, 1), Some((1, 9)));
}

#[test]
fn random_values() {
    assert_eq!(rand_from(4, 4, None), 4);
    for _ in 0..20 {
        let r = rand_from(9, 3, None);
        assert!((3..=9).contains(&r));
    }
    let a = rand_from(0, 1000, Some("seed".to_string()));
    let b = rand_from(0, 1000, Some("seed".to_string()));
    assert_eq!(a, b);
    let id = gen_uid(12, None);
    assert_eq!(id.chars().count(), 12);
    assert!(id.chars().all(|c| c.is_ascii_alphanumeric()));
    assert_eq!(gen_uid(-3, None), "");
    assert_eq!(gen_uid(8, Some("k".to_string())), gen_uid(8, Some("k".to_string())));
}
