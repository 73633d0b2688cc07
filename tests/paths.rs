use rew::paths::{dynamic_import_path, relative_to_file};
use rew::paths::{is_js_executable, join, parent_of};
use rew::runtime::{app_path_candidates, DenyRunTarget, TestPermissionDescriptorParser};

fn chars(s: &str) -> Vec<char> {
    s.chars().collect()
}

fn text(v: Vec<char>) -> String {
    v.into_iter().collect()
}

#[test]
fn script_extensions() {
    for p in ["a.ts", "a.js", "a.coffee", "a.civet", "/x/y.rew", "js"] {
        assert!(is_js_executable(p), "{}", p);
    }
    for p in ["a.txt", "a.jsx", "a.brew", "a.js.map", ""] {
        assert!(!is_js_executable(p), "{}", p);
    }
}

#[test]
fn parents_and_joins() {
    assert_eq!(text(parent_of(&chars("/a/b.js"))), "/a");
    assert_eq!(text(parent_of(&chars("/b.js"))), "/");
    assert_eq!(text(parent_of(&chars("b.js"))), "");
    assert_eq!(text(join(&chars("/a"), &chars("./b.js"))), "/a/./b.js");
    assert_eq!(text(join(&chars("/"), &chars("b"))), "/b");
    assert_eq!(text(join(&chars("/a"), &chars("/c"))), "/c");
    assert_eq!(text(join(&chars(""), &chars("c"))), "c");
}

#[test]
fn permission_paths_are_rooted() {
    let p = TestPermissionDescriptorParser;
    assert_eq!(p.join_path_with_root("etc/hosts"), "/etc/hosts");
    assert_eq!(p.join_path_with_root("/etc/hosts"), "/etc/hosts");
    assert_eq!(p.join_path_with_root("C:\\Windows"), "C:\\Windows");
}

#[test]
fn app_search_walks_up_to_the_root() {
    assert_eq!(app_path_candidates("/a/b/c.js"), vec!["/a/b/c.js", "/a/b", "/a", "/"]);
    assert_eq!(app_path_candidates("a/b"), vec!["a/b", "a", ""]);
}

#[test]
fn paths_relative_to_the_calling_file() {
    assert_eq!(relative_to_file("/p/main.js", "data.txt"), "/p/data.txt");
    assert_eq!(relative_to_file("/", "x"), "./x");
    assert_eq!(relative_to_file("", "x"), "./x");
    assert_eq!(relative_to_file("main.js", "x"), "x");
    assert_eq!(dynamic_import_path("/", "lib/a.js"), "lib/a.js");
    assert_eq!(dynamic_import_path("/p/main.js", "../a.js"), "/p/../a.js");
}

#[test]
fn deny_run_and_path_queries() {
    let p = TestPermissionDescriptorParser;
    match p.parse_deny_run_descriptor("usr/bin/git") {
        DenyRunTarget::Path(x) => assert_eq!(x, "/usr/bin/git"),
        DenyRunTarget::Name(_) => panic!("expected a path"),
    }
    match p.parse_deny_run_descriptor("git") {
        DenyRunTarget::Name(x) => assert_eq!(x, "git"),
        DenyRunTarget::Path(_) => panic!("expected a name"),
    }
    let q = p.parse_path_query("tmp/a");
    assert_eq!(q.resolved, "/tmp/a");
    assert_eq!(q.requested, "tmp/a");
}
