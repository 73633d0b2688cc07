use rew::vfs::{add_virtual_file, VirtualFiles};

#[test]
fn first_registration_wins() {
    let mut store = VirtualFiles::new();
    add_virtual_file(&mut store, "/a", "one");
    add_virtual_file(&mut store, "/a", "two");
    assert_eq!(store.get("/a"), Some("one".to_string()));
}

#[test]
fn missing_path_is_absent_or_empty() {
    let mut store = VirtualFiles::new();
    store.set("/a", "x");
    assert_eq!(store.get("/b"), None);
    assert_eq!(store.get_or_empty("/b"), "");
    assert_eq!(store.get_or_empty("/a"), "x");
}
