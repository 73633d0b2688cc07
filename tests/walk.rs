use rew::vfs::VirtualFiles;
use rew::walker::{ImportWalker, ModuleRecord, WalkStep};
use std::collections::HashMap;

fn normalize(p: &str) -> String {
    let mut parts: Vec<&str> = Vec::new();
    for seg in p.split('/') {
        match seg {
            "" | "." => {}
            ".." => {
                parts.pop();
            }
            s => parts.push(s),
        }
    }
    format!("/{}", parts.join("/"))
}

fn walk(
    entry: &str,
    files: &HashMap<&str, &str>,
    store: &VirtualFiles,
    log: &mut Vec<String>,
) -> Vec<ModuleRecord> {
    let mut w = ImportWalker::new(entry);
    loop {
        match w.advance(store) {
            WalkStep::Canonicalize(p) => {
                log.push(format!("canonicalize {}", p));
                w.resolved(&normalize(&p));
            }
            WalkStep::Read(p) => {
                log.push(format!("read {}", p));
                w.content_read(files.get(p.as_str()).expect("file exists"));
            }
            WalkStep::Discovered => {}
            WalkStep::Finished => break,
        }
    }
    w.modules()
}

fn paths(ms: &[ModuleRecord]) -> Vec<String> {
    ms.iter().map(|m| m.path.clone()).collect()
}

#[test]
fn diamond_imports_record_shared_module_once() {
    let files: HashMap<&str, &str> = [
        ("/p/main.js", "import a from \"./a.js\"\nimport b from './b.js'\n"),
        ("/p/a.js", "import \"./shared.js\"\n"),
        ("/p/b.js", "import { x } from \"./shared.js\";\n"),
        ("/p/shared.js", "export const x = 1;\n"),
    ]
    .into_iter()
    .collect();
    let mut log = Vec::new();
    let ms = walk("/p/main.js", &files, &VirtualFiles::new(), &mut log);
    assert_eq!(paths(&ms), vec!["/p/main.js", "/p/a.js", "/p/shared.js", "/p/b.js"]);
    assert_eq!(ms[2].content, "export const x = 1;\n");
    assert_eq!(log.iter().filter(|l| l.starts_with("read /p/shared.js")).count(), 1);
}

#[test]
fn circular_imports_terminate() {
    let files: HashMap<&str, &str> = [
        ("/p/a.js", "import \"./b.js\"\n"),
        ("/p/b.js", "import \"./a.js\"\n"),
    ]
    .into_iter()
    .collect();
    let mut log = Vec::new();
    let ms = walk("/p/a.js", &files, &VirtualFiles::new(), &mut log);
    assert_eq!(paths(&ms), vec!["/p/a.js", "/p/b.js"]);
}

#[test]
fn first_edge_decides_preprocess_flag() {
    let files: HashMap<&str, &str> = [
        ("/p/main.js", "import \"./data.txt!\"\nimport \"./data.txt\"\n"),
        ("/p/data.txt", "raw"),
    ]
    .into_iter()
    .collect();
    let mut log = Vec::new();
    let ms = walk("/p/main.js", &files, &VirtualFiles::new(), &mut log);
    assert_eq!(paths(&ms), vec!["/p/main.js", "/p/data.txt"]);
    assert!(!ms[0].preprocess);
    assert!(ms[1].preprocess);

    let files2: HashMap<&str, &str> = [
        ("/p/main.js", "import \"./data.txt\"\nimport \"./data.txt!\"\n"),
        ("/p/data.txt", "raw"),
    ]
    .into_iter()
    .collect();
    let ms2 = walk("/p/main.js", &files2, &VirtualFiles::new(), &mut log);
    assert!(!ms2[1].preprocess);
}

#[test]
fn builtin_without_virtual_entry_is_empty_and_touches_no_file() {
    let files: HashMap<&str, &str> = [("/p/main.js", "import \"#std.ffi\"\n")].into_iter().collect();
    let mut log = Vec::new();
    let ms = walk("/p/main.js", &files, &VirtualFiles::new(), &mut log);
    assert_eq!(paths(&ms), vec!["/p/main.js", "#std.ffi"]);
    assert_eq!(ms[1].content, "");
    assert_eq!(log, vec!["read /p/main.js".to_string()]);
}

#[test]
fn builtin_with_virtual_entry_takes_its_content() {
    let files: HashMap<&str, &str> = [("/p/main.js", "import \"#lib!\"\n")].into_iter().collect();
    let mut store = VirtualFiles::new();
    store.set("#lib", "first");
    store.set("#lib", "second");
    let mut log = Vec::new();
    let ms = walk("/p/main.js", &files, &store, &mut log);
    assert_eq!(ms[1].path, "#lib");
    assert_eq!(ms[1].content, "first");
    assert!(ms[1].preprocess);
}

#[test]
fn virtual_file_shadows_disk() {
    let files: HashMap<&str, &str> = [("/p/main.js", "import \"./a.js\"\n")].into_iter().collect();
    let mut store = VirtualFiles::new();
    store.set("/p/a.js", "virtual");
    let mut log = Vec::new();
    let ms = walk("/p/main.js", &files, &store, &mut log);
    assert_eq!(ms[1].content, "virtual");
    assert!(!log.iter().any(|l| l == "read /p/a.js"));
    assert!(log.iter().any(|l| l == "canonicalize /p/./a.js"));
}

#[test]
fn bundle_dependencies_come_from_external_comments() {
    let files: HashMap<&str, &str> = [
        ("/p/app.brew", "// external './dep.js'\nimport \"./ignored.js\"\n"),
        ("/p/dep.js", ""),
    ]
    .into_iter()
    .collect();
    let mut log = Vec::new();
    let ms = walk("/p/app.brew", &files, &VirtualFiles::new(), &mut log);
    assert_eq!(paths(&ms), vec!["/p/app.brew", "/p/dep.js"]);
}

#[test]
fn no_compile_marker_switches_to_external_comments() {
    let files: HashMap<&str, &str> = [
        ("/p/main.js", "\"no-compile\"\n// external \"./dep.js!\"\nimport \"./ignored.js\"\n"),
        ("/p/dep.js", ""),
    ]
    .into_iter()
    .collect();
    let mut log = Vec::new();
    let ms = walk("/p/main.js", &files, &VirtualFiles::new(), &mut log);
    assert_eq!(paths(&ms), vec!["/p/main.js", "/p/dep.js"]);
    assert!(ms[1].preprocess);
}

#[test]
fn two_walks_over_one_tree_agree() {
    let files: HashMap<&str, &str> = [
        ("/p/main.js", "import \"./a.js\"\nimport \"./b.js\"\n"),
        ("/p/a.js", "import \"./b.js\"\n"),
        ("/p/b.js", ""),
    ]
    .into_iter()
    .collect();
    let mut log = Vec::new();
    let first = walk("/p/main.js", &files, &VirtualFiles::new(), &mut log);
    let second = walk("/p/main.js", &files, &VirtualFiles::new(), &mut log);
    let mut a = paths(&first);
    let mut b = paths(&second);
    a.sort();
    b.sort();
    assert_eq!(a, b);
    assert_eq!(a.len(), 3);
}

#[test]
fn absolute_import_is_not_joined() {
    let files: HashMap<&str, &str> = [
        ("/p/main.js", "import \"/q/x.js\"\n"),
        ("/q/x.js", ""),
    ]
    .into_iter()
    .collect();
    let mut log = Vec::new();
    let ms = walk("/p/main.js", &files, &VirtualFiles::new(), &mut log);
    assert_eq!(paths(&ms), vec!["/p/main.js", "/q/x.js"]);
    assert!(log.iter().any(|l| l == "canonicalize /q/x.js"));
}
