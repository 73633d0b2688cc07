//! Module paths: how a specifier is split into a target and a preprocessing
//! flag, how a target is joined to the importing file's directory, and how a
//! path is classified (builtin, bundle, script).
use vstd::prelude::*;
use crate::syntax::{has_word_at, scan, scan_text, views, word_at, LineSyntax};
use crate::text::chars_of;

verus! {

/// `w` is a prefix of `s`.
pub open spec fn starts_with(s: Seq<char>, w: Seq<char>) -> bool {
    has_word_at(s, 0, w)
}

/// `w` is a suffix of `s`.
pub open spec fn ends_with(s: Seq<char>, w: Seq<char>) -> bool {
    w.len() <= s.len() && has_word_at(s, s.len() - w.len(), w)
}

/// The last index of `c` in `s`, or -1.
pub open spec fn last_index(s: Seq<char>, c: char) -> int
    decreases s.len(),
{
    if s.len() == 0 {
        -1
    } else if s.last() == c {
        s.len() - 1
    } else {
        last_index(s.drop_last(), c)
    }
}

/// A builtin pseudo-module: its path starts with `#`.
pub open spec fn is_builtin(p: Seq<char>) -> bool {
    p.len() > 0 && p[0] == '#'
}

/// A bundle: its path ends with `.brew` or `.qrew`.
pub open spec fn is_bundle(p: Seq<char>) -> bool {
    ends_with(p, ".brew"@) || ends_with(p, ".qrew"@)
}

/// The text after the last `.` of a path, or the whole path where it has none.
pub open spec fn extension_of(p: Seq<char>) -> Seq<char> {
    p.subrange(last_index(p, '.') + 1, p.len() as int)
}

/// A path whose extension names a script language that the engine runs.
pub open spec fn is_script(p: Seq<char>) -> bool {
    let x = extension_of(p);
    x == "ts"@ || x == "js"@ || x == "coffee"@ || x == "civet"@ || x == "rew"@
}

/// The directory of a path: what precedes its last `/` (the root for a path
/// directly under it), or the empty path where there is no `/`.
pub open spec fn parent_dir(p: Seq<char>) -> Seq<char> {
    let k = last_index(p, '/');
    if k < 0 {
        Seq::empty()
    } else if k == 0 {
        seq!['/']
    } else {
        p.subrange(0, k)
    }
}

/// `t` joined to directory `dir`; an absolute `t` stands alone.
pub open spec fn join_path(dir: Seq<char>, t: Seq<char>) -> Seq<char> {
    if t.len() > 0 && t[0] == '/' {
        t
    } else if dir.len() == 0 {
        t
    } else if dir.last() == '/' {
        dir + t
    } else {
        dir + seq!['/'] + t
    }
}

/// A specifier without its trailing `!`, and whether it had one.
pub open spec fn strip_mark(t: Seq<char>) -> (Seq<char>, bool) {
    if t.len() > 0 && t.last() == '!' {
        (t.drop_last(), true)
    } else {
        (t, false)
    }
}

/// Which syntax names the dependencies of a module: external-dependency
/// comments in a bundle or in a source that opens with `"no-compile"`, import
/// statements elsewhere.
pub open spec fn dependency_syntax(path: Seq<char>, content: Seq<char>) -> LineSyntax {
    if is_bundle(path) || starts_with(content, "\"no-compile\""@) {
        LineSyntax::External
    } else {
        LineSyntax::Import
    }
}

/// The dependencies that a module declares, in order: each a target and its
/// preprocessing flag.
pub open spec fn deps_of(path: Seq<char>, content: Seq<char>) -> Seq<(Seq<char>, bool)> {
    scan_text(dependency_syntax(path, content), content).map_values(|t: Seq<char>| strip_mark(t))
}

/// The views of a sequence of dependencies.
pub open spec fn dep_views(v: Seq<(Vec<char>, bool)>) -> Seq<(Seq<char>, bool)> {
    v.map_values(|d: (Vec<char>, bool)| (d.0@, d.1))
}

/// The last index of `c` in `s`.
pub fn last_index_of(s: &Vec<char>, c: char) -> (r: Option<usize>)
    ensures
        match r {
            Some(k) => last_index(s@, c) == k as int && k < s.len(),
            None => last_index(s@, c) == -1,
        },
{
    let mut k: usize = s.len();
    assert(s@.subrange(0, k as int) =~= s@);
    while k > 0
        invariant
            k <= s.len(),
            last_index(s@, c) == last_index(s@.subrange(0, k as int), c),
        decreases k,
    {
        let ghost pre = s@.subrange(0, k as int);
        assert(pre.drop_last() =~= s@.subrange(0, k - 1));
        if s[k - 1] == c {
            return Some(k - 1);
        }
        k = k - 1;
    }
    None
}

/// Whether `w` is a suffix of `s`.
pub fn ends_with_str(s: &Vec<char>, w: &str) -> (r: bool)
    ensures
        r == ends_with(s@, w@),
{
    let n: usize = w.unicode_len();
    if n > s.len() {
        false
    } else {
        word_at(s, s.len() - n, w)
    }
}

/// Whether a path names a builtin pseudo-module.
pub fn builtin_path(p: &Vec<char>) -> (r: bool)
    ensures
        r == is_builtin(p@),
{
    p.len() > 0 && p[0] == '#'
}

/// Whether a path names a bundle.
pub fn bundle_path(p: &Vec<char>) -> (r: bool)
    ensures
        r == is_bundle(p@),
{
    ends_with_str(p, ".brew") || ends_with_str(p, ".qrew")
}

fn extension_is(p: &Vec<char>, d: usize, w: &str) -> (r: bool)
    requires
        d == last_index(p@, '.') + 1,
        d <= p.len(),
    ensures
        r == (extension_of(p@) == w@),
{
    let n: usize = w.unicode_len();
    if p.len() - d != n {
        proof {
            assert(extension_of(p@).len() != w@.len());
        }
        false
    } else {
        let r = word_at(p, d, w);
        proof {
            if r {
                assert(extension_of(p@) =~= w@);
            } else if extension_of(p@) == w@ {
                assert forall|k: int| 0 <= k < w@.len() implies p@[d + k] == w@[k] by {
                    assert(extension_of(p@)[k] == p@[d + k]);
                }
            }
        }
        r
    }
}

/// Whether a module path names a script that the engine runs, by the text
/// after its last `.`: `ts`, `js`, `coffee`, `civet` or `rew`.
pub fn is_js_executable(mod_id: &str) -> (r: bool)
    ensures
        r == is_script(mod_id@),
{
    let p = chars_of(mod_id);
    let d: usize = match last_index_of(&p, '.') {
        Some(k) => k + 1,
        None => 0,
    };
    extension_is(&p, d, "ts") || extension_is(&p, d, "js") || extension_is(&p, d, "coffee")
        || extension_is(&p, d, "civet") || extension_is(&p, d, "rew")
}

/// The characters of `s` from index `from` up to `to`.
pub fn slice_chars(s: &Vec<char>, from: usize, to: usize) -> (r: Vec<char>)
    requires
        from <= to <= s.len(),
    ensures
        r@ == s@.subrange(from as int, to as int),
{
    let mut r: Vec<char> = Vec::new();
    let mut k: usize = from;
    while k < to
        invariant
            from <= k <= to,
            to <= s.len(),
            r@ == s@.subrange(from as int, k as int),
        decreases to - k,
    {
        r.push(s[k]);
        k = k + 1;
        assert(r@ =~= s@.subrange(from as int, k as int));
    }
    r
}

/// The directory of a path.
pub fn parent_of(p: &Vec<char>) -> (r: Vec<char>)
    ensures
        r@ == parent_dir(p@),
{
    match last_index_of(p, '/') {
        None => {
            let r: Vec<char> = Vec::new();
            assert(r@ =~= parent_dir(p@));
            r
        },
        Some(k) => {
            if k == 0 {
                let r: Vec<char> = vec!['/'];
                assert(r@ =~= parent_dir(p@));
                r
            } else {
                slice_chars(p, 0, k)
            }
        },
    }
}

/// `t` joined to directory `dir`.
pub fn join(dir: &Vec<char>, t: &Vec<char>) -> (r: Vec<char>)
    ensures
        r@ == join_path(dir@, t@),
{
    if (t.len() > 0 && t[0] == '/') || dir.len() == 0 {
        t.clone()
    } else {
        let mut r: Vec<char> = dir.clone();
        if dir[dir.len() - 1] != '/' {
            r.push('/');
        }
        let mut k: usize = 0;
        let ghost base = r@;
        while k < t.len()
            invariant
                k <= t.len(),
                r@ == base + t@.subrange(0, k as int),
            decreases t.len() - k,
        {
            r.push(t[k]);
            k = k + 1;
            assert(r@ =~= base + t@.subrange(0, k as int));
        }
        assert(t@.subrange(0, k as int) =~= t@);
        assert(r@ =~= join_path(dir@, t@));
        r
    }
}

/// A specifier without its trailing `!`, and whether it had one.
pub fn split_mark(t: Vec<char>) -> (r: (Vec<char>, bool))
    ensures
        (r.0@, r.1) == strip_mark(t@),
{
    let mut t = t;
    if t.len() > 0 && t[t.len() - 1] == '!' {
        t.pop();
        (t, true)
    } else {
        (t, false)
    }
}

/// The dependencies that a module declares, in order.
pub fn dependencies(path: &Vec<char>, content: &Vec<char>) -> (r: Vec<(Vec<char>, bool)>)
    ensures
        dep_views(r@) == deps_of(path@, content@),
{
    proof {
        reveal_strlit("\"no-compile\"");
    }
    let kind = if bundle_path(path) || word_at(content, 0, "\"no-compile\"") {
        LineSyntax::External
    } else {
        LineSyntax::Import
    };
    let targets = scan(kind, content);
    let ghost ts = views(targets@);
    let mut out: Vec<(Vec<char>, bool)> = Vec::new();
    let mut i: usize = 0;
    while i < targets.len()
        invariant
            i <= targets.len(),
            ts == views(targets@),
            ts == scan_text(kind, content@),
            kind == dependency_syntax(path@, content@),
            dep_views(out@) == ts.subrange(0, i as int).map_values(|t: Seq<char>| strip_mark(t)),
        decreases targets.len() - i,
    {
        let t = targets[i].clone();
        assert(t@ == ts[i as int]);
        let d = split_mark(t);
        let ghost prev = out@;
        out.push(d);
        i = i + 1;
        assert(dep_views(out@) =~= dep_views(prev).push((d.0@, d.1)));
        assert(ts.subrange(0, i as int).map_values(|t: Seq<char>| strip_mark(t)) =~= ts.subrange(
            0,
            i - 1,
        ).map_values(|t: Seq<char>| strip_mark(t)).push(strip_mark(ts[i - 1])));
        assert(dep_views(out@) =~= ts.subrange(0, i as int).map_values(|t: Seq<char>| strip_mark(t)));
    }
    assert(ts.subrange(0, i as int) =~= ts);
    out
}

/// The directory that paths named by a file are taken relative to: its parent,
/// or `.` for the root and the empty path, which have none.
pub open spec fn base_dir(p: Seq<char>) -> Seq<char> {
    if p.len() == 0 || p == seq!['/'] {
        seq!['.']
    } else {
        parent_dir(p)
    }
}

/// `path` taken relative to the directory of `current_file`.
pub fn relative_to_file(current_file: &str, path: &str) -> (r: String)
    ensures
        r@ == join_path(base_dir(current_file@), path@),
{
    let c = chars_of(current_file);
    let dir: Vec<char> = if c.len() == 0 || (c.len() == 1 && c[0] == '/') {
        proof {
            if c@.len() == 1 {
                assert(c@ =~= seq!['/']);
            }
        }
        let d: Vec<char> = vec!['.'];
        assert(d@ =~= seq!['.']);
        d
    } else {
        proof {
            if c@.len() == 1 {
                assert(c@ != seq!['/']);
            }
        }
        parent_of(&c)
    };
    crate::text::string_of(&join(&dir, &chars_of(path)))
}

/// The path a dynamic import names: from the root, the path as written;
/// otherwise relative to the importing file.
pub fn dynamic_import_path(current_file: &str, file: &str) -> (r: String)
    ensures
        r@ == if current_file@ == seq!['/'] {
            file@
        } else {
            join_path(base_dir(current_file@), file@)
        },
{
    let c = chars_of(current_file);
    if c.len() == 1 && c[0] == '/' {
        assert(c@ =~= seq!['/']);
        crate::text::string_of(&chars_of(file))
    } else {
        proof {
            if c@.len() == 1 {
                assert(c@ != seq!['/']);
            }
        }
        relative_to_file(current_file, file)
    }
}

} // verus!
