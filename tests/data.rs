use rew::data::format_of_extension;
use rew::data::{classify_text, detect_format, DataFormat, DataManager};

#[test]
fn storage_paths() {
    let dm = DataManager::new("default", "my.app");
    assert_eq!(dm.data_dir(), "data/default/my.app");
    assert_eq!(dm.get_path("notes/a.txt"), "data/default/my.app/notes/a.txt");
    assert_eq!(dm.get_path(""), "data/default/my.app/");
    assert_eq!(dm.get_path("/abs/x"), "/abs/x");
}

#[test]
fn relative_keys() {
    let dm = DataManager::new("u", "a");
    assert_eq!(dm.relative_key("data/u/a/x/y.txt"), "x/y.txt");
    assert_eq!(dm.relative_key("data/u/ab/y.txt"), "data/u/ab/y.txt");
    assert_eq!(dm.relative_key("elsewhere"), "elsewhere");
}

#[test]
fn format_by_extension_ignores_case() {
    let dm = DataManager::new("u", "a");
    assert_eq!(dm.format_by_extension("x.JSON"), Some(DataFormat::Json));
    assert_eq!(dm.format_by_extension("x.yml"), Some(DataFormat::Yaml));
    assert_eq!(dm.format_by_extension("x.yaml"), Some(DataFormat::Yaml));
    assert_eq!(dm.format_by_extension("x.dat"), Some(DataFormat::Binary));
    assert_eq!(dm.format_by_extension("x.bin"), Some(DataFormat::Binary));
    assert_eq!(dm.format_by_extension("x.txt"), None);
    assert_eq!(dm.format_by_extension(".json"), None);
    assert_eq!(dm.format_by_extension("noext"), None);
}

#[test]
fn file_info_cases() {
    let dm = DataManager::new("u", "a");
    assert_eq!(dm.get_file_info("x.json", false, &vec![]), (false, DataFormat::Text));
    assert_eq!(dm.get_file_info("x.json", true, &b"not json".to_vec()), (true, DataFormat::Json));
    assert_eq!(dm.get_file_info("x", true, &b"{\"a\": 1}".to_vec()), (true, DataFormat::Json));
    assert_eq!(dm.get_file_info("x", true, &b"a: 1\nb: 2\n".to_vec()), (true, DataFormat::Yaml));
    assert_eq!(dm.get_file_info("x", true, &vec![0u8, 1, 2]), (true, DataFormat::Binary));
}

#[test]
fn sample_detection() {
    assert_eq!(detect_format(&vec![]), DataFormat::Text);
    assert_eq!(detect_format(&vec![b'a', 8]), DataFormat::Binary);
    assert_eq!(detect_format(&vec![b'a', 27, b'\t', b'\n']), DataFormat::Text);
    assert_eq!(detect_format(&b"  [1, 2]".to_vec()), DataFormat::Json);
    assert_eq!(detect_format(&b"{broken".to_vec()), DataFormat::Text);
    assert_eq!(detect_format(&b"key: {x}".to_vec()), DataFormat::Text);
    assert_eq!(detect_format(&b"hello world".to_vec()), DataFormat::Text);
}

#[test]
fn text_classification() {
    assert_eq!(classify_text(" {}", "{}", true, false), DataFormat::Json);
    assert_eq!(classify_text(" {}", "{}", false, true), DataFormat::Text);
    assert_eq!(classify_text("a: b", "a: b", false, true), DataFormat::Yaml);
    assert_eq!(classify_text("a: b", "a: b", true, false), DataFormat::Text);
    assert_eq!(classify_text("[a: b]", "[a: b]", false, true), DataFormat::Yaml);
}

#[test]
fn format_names() {
    assert_eq!(DataFormat::Text.name(), "text");
    assert_eq!(DataFormat::Json.name(), "json");
    assert_eq!(DataFormat::Yaml.name(), "yaml");
    assert_eq!(DataFormat::Binary.name(), "binary");
}

#[test]
fn invalid_utf8_sample_is_decoded_lossily() {
    assert_eq!(detect_format(&vec![0xffu8, b':', b' ', b'a']), DataFormat::Yaml);
    assert_eq!(detect_format(&vec![b' ', 0xffu8, b'[']), DataFormat::Text);
}

#[test]
fn unparsable_yaml_is_text() {
    assert_eq!(detect_format(&b"a: b: c".to_vec()), DataFormat::Text);
    assert_eq!(detect_format(&b"key: value".to_vec()), DataFormat::Yaml);
}

#[test]
fn lowercase_extension_names() {
    assert_eq!(format_of_extension("json"), Some(DataFormat::Json));
    assert_eq!(format_of_extension("yml"), Some(DataFormat::Yaml));
    assert_eq!(format_of_extension("dat"), Some(DataFormat::Binary));
    assert_eq!(format_of_extension("JSON"), None);
    assert_eq!(format_of_extension("txt"), None);
}
