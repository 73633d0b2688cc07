use rew::syntax::{match_line, scan, LineSyntax};

fn chars(s: &str) -> Vec<char> {
    s.chars().collect()
}

fn one(kind: LineSyntax, line: &str) -> Option<String> {
    match_line(kind, &chars(line)).map(|v| v.into_iter().collect())
}

#[test]
fn import_forms() {
    assert_eq!(one(LineSyntax::Import, "import \"./a.js\""), Some("./a.js".to_string()));
    assert_eq!(one(LineSyntax::Import, "  import x from './b.js';"), Some("./b.js".to_string()));
    assert_eq!(one(LineSyntax::Import, "import { a, b } from \"#c!\""), Some("#c!".to_string()));
    assert_eq!(one(LineSyntax::Import, "import x, {y} from 'z'"), Some("z".to_string()));
}

#[test]
fn import_rejections() {
    assert_eq!(one(LineSyntax::Import, "importx \"a\""), None);
    assert_eq!(one(LineSyntax::Import, "import \"\""), None);
    assert_eq!(one(LineSyntax::Import, "import \"a"), None);
    assert_eq!(one(LineSyntax::Import, "x = 1; import \"a\""), None);
    assert_eq!(one(LineSyntax::Import, "import {"), None);
}

#[test]
fn multi_line_import_is_not_recognized() {
    let text = chars("import {\n  a\n} from \"./a.js\"\nimport \"./b.js\"\n");
    let found: Vec<String> = scan(LineSyntax::Import, &text).into_iter().map(|v| v.into_iter().collect()).collect();
    assert_eq!(found, vec!["./b.js".to_string()]);
}

#[test]
fn external_and_entry_lines() {
    assert_eq!(one(LineSyntax::External, "// external './x.js'"), Some("./x.js".to_string()));
    assert_eq!(one(LineSyntax::External, "\t// external  \"y\""), Some("y".to_string()));
    assert_eq!(one(LineSyntax::External, "//external 'x'"), None);
    assert_eq!(one(LineSyntax::Entry, "// entry \"app\""), Some("app".to_string()));
    assert_eq!(one(LineSyntax::Entry, "//entry\"a'b\""), Some("a'b".to_string()));
    assert_eq!(one(LineSyntax::Entry, "// entry 'app'"), None);
    assert_eq!(one(LineSyntax::Entry, "x // entry \"app\""), None);
}

#[test]
fn scan_keeps_order_and_last_line() {
    let text = chars("// entry \"a\"\nfoo\n// entry \"b\"");
    let found: Vec<String> = scan(LineSyntax::Entry, &text).into_iter().map(|v| v.into_iter().collect()).collect();
    assert_eq!(found, vec!["a".to_string(), "b".to_string()]);
}
