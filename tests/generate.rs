use rew::generate::prepare;

fn files(list: &[(&str, &str)]) -> Vec<(String, String)> {
    list.iter().map(|(p, c)| (p.to_string(), c.to_string())).collect()
}

#[test]
fn bundle_entries_run_in_marker_order() {
    let fs = files(&[("/p/app.brew", "define(1);\n// entry \"app\"\n  //entry   \"worker\"\n")]);
    let out = prepare(&fs, Some("/p/app.brew"));
    assert_eq!(
        out,
        "define(1);\n// entry \"app\"\n  //entry   \"worker\"\n\nrew.prototype.mod.prototype.get('app');\nrew.prototype.mod.prototype.get('worker');"
    );
    assert_eq!(out.matches("rew.prototype.mod.prototype.get(").count(), 2);
    assert!(!out.contains("get('/p/app.brew')"));
}

#[test]
fn plain_entry_gets_one_synthesized_call_last() {
    let fs = files(&[("/p/main.x", "import \"./lib.x\"\n"), ("/p/lib.x", "plain")]);
    let out = prepare(&fs, Some("/p/main.x"));
    assert_eq!(out.matches("defineNew(\"/p/lib.x\"").count(), 1);
    assert_eq!(out.matches("rew.prototype.mod.prototype.get(").count(), 1);
    assert!(out.ends_with("\nrew.prototype.mod.prototype.get('/p/main.x');"));
    assert!(out.contains(
        "rew.prototype.mod.prototype.defineNew(\"/p/lib.x\", function(globalThis){\n  return rew.prototype.mod.prototype.preprocess(\"/p/lib.x\", `plain`);\n}, []);"
    ));
}

#[test]
fn script_module_is_wrapped_with_globals_in_scope() {
    let fs = files(&[("/p/a.js", "let x = 1;")]);
    let out = prepare(&fs, None);
    assert_eq!(
        out,
        "rew.prototype.mod.prototype.defineNew(\"/p/a.js\", {\n\"/p/a.js\"(globalThis){\nwith (globalThis) {\n  let x = 1;\n}\nreturn globalThis.module.exports;\n}\n}, []);"
    );
}

#[test]
fn builtin_module_runs_at_once() {
    let fs = files(&[("#std", "init();")]);
    let out = prepare(&fs, None);
    assert_eq!(out, "(function(module){\ninit();\n})({filename: \"#std\"});");
}

#[test]
fn asset_text_is_escaped_for_a_template_literal() {
    let fs = files(&[("/p/t.txt", "a`b\\c${d}")]);
    let out = prepare(&fs, None);
    assert!(out.contains("`a\\`b\\\\c\\${d}`"));
}

#[test]
fn module_ids_escape_quotes_and_backslashes() {
    let fs = files(&[("/p/it's\\\"x\".js", "")]);
    let out = prepare(&fs, None);
    assert!(out.starts_with("rew.prototype.mod.prototype.defineNew(\"/p/it\\'s\\\\\\\"x\\\".js\""));
}

#[test]
fn bundle_entry_without_markers_gets_no_call() {
    let fs = files(&[("/p/app.qrew", "x();")]);
    let out = prepare(&fs, Some("/p/app.qrew"));
    assert_eq!(out, "x();");
}

#[test]
fn no_entry_and_no_markers_gives_only_fragments() {
    let out = prepare(&Vec::new(), None);
    assert_eq!(out, "");
}
