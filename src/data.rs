//! Per-application data storage: where a key lives, and what format its file
//! holds, judged by extension or else by a sample of its first bytes.
use vstd::prelude::*;
use crate::paths::{join, join_path, last_index, last_index_of, slice_chars};
use crate::syntax::word_at;
use crate::text::{chars_of, string_of};

verus! {

/// The format of a stored file.
#[derive(Clone, Copy, Debug, PartialEq, Eq, Structural)]
pub enum DataFormat {
    Text,
    Json,
    Yaml,
    Binary,
}

impl DataFormat {
    /// The name scripts see for the format.
    pub fn name(&self) -> (r: &'static str)
        ensures
            r@ == match self {
                DataFormat::Text => "text"@,
                DataFormat::Json => "json"@,
                DataFormat::Yaml => "yaml"@,
                DataFormat::Binary => "binary"@,
            },
    {
        match self {
            DataFormat::Text => "text",
            DataFormat::Json => "json",
            DataFormat::Yaml => "yaml",
            DataFormat::Binary => "binary",
        }
    }
}

/// The storage of one application for one user, under one directory.
pub struct DataManager {
    data_dir: String,
}

/// The part of a path after its last `/`.
pub open spec fn file_name(p: Seq<char>) -> Seq<char> {
    p.subrange(last_index(p, '/') + 1, p.len() as int)
}

/// The extension of a path: what follows the last `.` of its file name, where
/// that `.` is not the name's first character.
pub open spec fn extension(p: Seq<char>) -> Option<Seq<char>> {
    let n = file_name(p);
    let d = last_index(n, '.');
    if d > 0 {
        Some(n.subrange(d + 1, n.len() as int))
    } else {
        None
    }
}

/// The lowercase form of a text.
pub uninterp spec fn lowercase_of(s: Seq<char>) -> Seq<char>;

/// Text decoded from bytes, with each invalid sequence replaced.
pub uninterp spec fn lossy_text(b: Seq<u8>) -> Seq<char>;

/// A text without its leading whitespace.
pub uninterp spec fn trimmed_start(s: Seq<char>) -> Seq<char>;

/// The text parses as one JSON document.
pub uninterp spec fn is_json_document(s: Seq<char>) -> bool;

/// The text parses as one YAML document.
pub uninterp spec fn is_yaml_document(s: Seq<char>) -> bool;

/// Relies on `str::to_lowercase`: the lowercase mapping of the characters.
#[verifier::external_body]
fn lowercase(s: &str) -> (r: String)
    ensures
        r@ == lowercase_of(s@),
{
    s.to_lowercase()
}

/// Relies on `String::from_utf8_lossy`: the bytes decoded as UTF-8, each
/// invalid sequence replaced.
#[verifier::external_body]
fn decode_lossy(b: &Vec<u8>) -> (r: String)
    ensures
        r@ == lossy_text(b@),
{
    String::from_utf8_lossy(b.as_slice()).into_owned()
}

/// Relies on `str::trim_start`: the text without its leading whitespace.
#[verifier::external_body]
fn trim_leading(s: &str) -> (r: String)
    ensures
        r@ == trimmed_start(s@),
{
    s.trim_start().to_string()
}

/// Relies on `serde_json::from_str`: whether the text parses as a JSON value.
#[verifier::external_body]
fn parses_as_json(s: &str) -> (r: bool)
    ensures
        r == is_json_document(s@),
{
    serde_json::from_str::<serde_json::Value>(s).is_ok()
}

/// Relies on `serde_yaml::from_str`: whether the text parses as a YAML value.
#[verifier::external_body]
fn parses_as_yaml(s: &str) -> (r: bool)
    ensures
        r == is_yaml_document(s@),
{
    serde_yaml::from_str::<serde_json::Value>(s).is_ok()
}

/// The format that an extension, in lowercase, names.
pub open spec fn extension_format(x: Seq<char>) -> Option<DataFormat> {
    if x == "json"@ {
        Some(DataFormat::Json)
    } else if x == "yaml"@ || x == "yml"@ {
        Some(DataFormat::Yaml)
    } else if x == "bin"@ || x == "dat"@ {
        Some(DataFormat::Binary)
    } else {
        None
    }
}

/// The format that a path's extension names, whatever its case.
pub open spec fn path_format(p: Seq<char>) -> Option<DataFormat> {
    match extension(p) {
        Some(x) => extension_format(lowercase_of(x)),
        None => None,
    }
}

/// A byte that no text file holds: a control character other than tab, line
/// feed, vertical tab, form feed, carriage return and escape.
pub open spec fn is_binary_byte(b: u8) -> bool {
    b < 9 || (b > 13 && b < 32 && b != 27)
}

/// The format of a text sample: JSON where it opens with `{` or `[` and
/// parses; YAML where it holds a `:`, no `{`, and parses; text otherwise.
pub open spec fn text_format(
    text: Seq<char>,
    trimmed: Seq<char>,
    json_ok: bool,
    yaml_ok: bool,
) -> DataFormat {
    if trimmed.len() > 0 && (trimmed[0] == '{' || trimmed[0] == '[') && json_ok {
        DataFormat::Json
    } else if text.contains(':') && !text.contains('{') && yaml_ok {
        DataFormat::Yaml
    } else {
        DataFormat::Text
    }
}

/// The format of a file, judged by a sample of its first bytes.
pub open spec fn sample_format(b: Seq<u8>) -> DataFormat {
    if b.len() == 0 {
        DataFormat::Text
    } else if exists|i: int| 0 <= i < b.len() && is_binary_byte(#[trigger] b[i]) {
        DataFormat::Binary
    } else {
        let t = lossy_text(b);
        text_format(t, trimmed_start(t), is_json_document(t), is_yaml_document(t))
    }
}

/// Whether a file exists, and its format: text for a missing file; else the
/// format its extension names; else the format of its first bytes.
pub open spec fn file_info(p: Seq<char>, exists: bool, sample: Seq<u8>) -> (bool, DataFormat) {
    if !exists {
        (false, DataFormat::Text)
    } else {
        match path_format(p) {
            Some(f) => (true, f),
            None => (true, sample_format(sample)),
        }
    }
}

/// A path relative to `dir` where it lies under it; the path itself otherwise.
pub open spec fn relative_to(dir: Seq<char>, p: Seq<char>) -> Seq<char> {
    if p.len() > dir.len() && p.subrange(0, dir.len() as int) == dir && p[dir.len() as int] == '/' {
        p.subrange(dir.len() as int + 1, p.len() as int)
    } else {
        p
    }
}

/// The format that an extension, already in lowercase, names.
pub fn format_of_extension(x: &str) -> (r: Option<DataFormat>)
    ensures
        r == extension_format(x@),
{
    let l = chars_of(x);
    if equals_str(&l, "json") {
        Some(DataFormat::Json)
    } else if equals_str(&l, "yaml") || equals_str(&l, "yml") {
        Some(DataFormat::Yaml)
    } else if equals_str(&l, "bin") || equals_str(&l, "dat") {
        Some(DataFormat::Binary)
    } else {
        None
    }
}

/// `v` holds exactly the characters of `w`.
pub fn equals_str(v: &Vec<char>, w: &str) -> (r: bool)
    ensures
        r == (v@ == w@),
{
    let n: usize = w.unicode_len();
    if v.len() != n {
        false
    } else {
        let r = word_at(v, 0, w);
        assert(r ==> v@ =~= w@);
        r
    }
}

fn contains_char(v: &Vec<char>, c: char) -> (r: bool)
    ensures
        r == v@.contains(c),
{
    let mut i: usize = 0;
    while i < v.len()
        invariant
            i <= v.len(),
            forall|k: int| 0 <= k < i ==> v@[k] != c,
        decreases v.len() - i,
    {
        if v[i] == c {
            return true;
        }
        i = i + 1;
    }
    false
}

/// The format of a text sample, given the text, the text without its leading
/// whitespace, and whether it parses as JSON and as YAML.
pub fn classify_text(text: &str, trimmed: &str, json_ok: bool, yaml_ok: bool) -> (r: DataFormat)
    ensures
        r == text_format(text@, trimmed@, json_ok, yaml_ok),
{
    let t = chars_of(text);
    let tt = chars_of(trimmed);
    if tt.len() > 0 && (tt[0] == '{' || tt[0] == '[') && json_ok {
        DataFormat::Json
    } else if contains_char(&t, ':') && !contains_char(&t, '{') && yaml_ok {
        DataFormat::Yaml
    } else {
        DataFormat::Text
    }
}

/// The format of a file, judged by a sample of its first bytes.
pub fn detect_format(sample: &Vec<u8>) -> (r: DataFormat)
    ensures
        r == sample_format(sample@),
{
    if sample.len() == 0 {
        return DataFormat::Text;
    }
    let mut i: usize = 0;
    while i < sample.len()
        invariant
            i <= sample.len(),
            forall|k: int| 0 <= k < i ==> !is_binary_byte(#[trigger] sample@[k]),
        decreases sample.len() - i,
    {
        let b = sample[i];
        if b < 9 || (b > 13 && b < 32 && b != 27) {
            assert(is_binary_byte(sample@[i as int]));
            return DataFormat::Binary;
        }
        i = i + 1;
    }
    let text = decode_lossy(sample);
    let trimmed = trim_leading(text.as_str());
    let tc = chars_of(trimmed.as_str());
    let json_ok = if tc.len() > 0 && (tc[0] == '{' || tc[0] == '[') {
        parses_as_json(text.as_str())
    } else {
        false
    };
    let c = chars_of(text.as_str());
    let yaml_ok = if contains_char(&c, ':') && !contains_char(&c, '{') {
        parses_as_yaml(text.as_str())
    } else {
        false
    };
    let r = classify_text(text.as_str(), trimmed.as_str(), json_ok, yaml_ok);
    assert(r == text_format(text@, trimmed@, is_json_document(text@), is_yaml_document(text@)));
    r
}

impl DataManager {
    /// The storage of `app_package` for `user_id`, under `data/<user_id>/<app_package>`.
    pub fn new(user_id: &str, app_package: &str) -> (r: Self)
        ensures
            r.dir() == join_path(join_path("data"@, user_id@), app_package@),
    {
        let base = chars_of("data");
        let d = join(&join(&base, &chars_of(user_id)), &chars_of(app_package));
        DataManager { data_dir: string_of(&d) }
    }

    /// The directory that holds this storage.
    pub closed spec fn dir(&self) -> Seq<char> {
        self.data_dir@
    }

    /// The directory that holds this storage.
    pub fn data_dir(&self) -> (r: String)
        ensures
            r@ == self.dir(),
    {
        string_of(&chars_of(self.data_dir.as_str()))
    }

    /// Where the file of `key` lives.
    pub fn get_path(&self, key: &str) -> (r: String)
        ensures
            r@ == join_path(self.dir(), key@),
    {
        let d = chars_of(self.data_dir.as_str());
        string_of(&join(&d, &chars_of(key)))
    }

    /// The format that the extension of `key`'s path names, if any.
    pub fn format_by_extension(&self, key: &str) -> (r: Option<DataFormat>)
        ensures
            r == path_format(join_path(self.dir(), key@)),
    {
        let d = chars_of(self.data_dir.as_str());
        let p = join(&d, &chars_of(key));
        let from: usize = match last_index_of(&p, '/') {
            Some(k) => k + 1,
            None => 0,
        };
        let name = slice_chars(&p, from, p.len());
        assert(name@ == file_name(p@));
        match last_index_of(&name, '.') {
            Some(k) => {
                if k == 0 {
                    None
                } else {
                    let x = slice_chars(&name, k + 1, name.len());
                    let lx = lowercase(string_of(&x).as_str());
                    format_of_extension(lx.as_str())
                }
            },
            None => None,
        }
    }

    /// Whether `key` exists, and its format: text for a missing file; else the
    /// format its extension names; else the format of `sample`, the first
    /// bytes of the file.
    pub fn get_file_info(&self, key: &str, exists: bool, sample: &Vec<u8>) -> (r: (bool, DataFormat))
        ensures
            r == file_info(join_path(self.dir(), key@), exists, sample@),
    {
        if !exists {
            return (false, DataFormat::Text);
        }
        match self.format_by_extension(key) {
            Some(f) => (true, f),
            None => (true, detect_format(sample)),
        }
    }

    /// The key of a file found under this storage: its path relative to the
    /// storage directory, or the path itself where it lies elsewhere.
    pub fn relative_key(&self, path: &str) -> (r: String)
        ensures
            r@ == relative_to(self.dir(), path@),
    {
        let d = chars_of(self.data_dir.as_str());
        let p = chars_of(path);
        if p.len() > d.len() && p[d.len()] == '/' {
            let head = slice_chars(&p, 0, d.len());
            if crate::vfs::same_chars(&head, &d) {
                return string_of(&slice_chars(&p, d.len() + 1, p.len()));
            }
        }
        string_of(&p)
    }
}

} // verus!
