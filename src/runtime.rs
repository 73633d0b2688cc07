//! Settings of a run, and the path conventions of the permission layer and of
//! application lookup.
use vstd::prelude::*;
use crate::paths::{join, join_path, last_index, parent_dir, parent_of, starts_with};
use crate::syntax::word_at;
use crate::text::{chars_of, string_of, string_views};

verus! {

/// The arguments handed to the scripts of a run.
#[derive(Clone, Debug, Default)]
pub struct RuntimeArgs(pub Vec<String>);

/// How to build a program.
#[derive(Clone, Debug, Default)]
pub struct BuildOptions {
    /// Bundle every module into the output.
    pub bundle_all: bool,
    /// The file to start from.
    pub entry_file: Option<String>,
}

/// The path parser of the permission layer, which grants everything.
#[derive(Clone, Copy, Debug)]
pub struct TestPermissionDescriptorParser;

/// A path as the permission layer sees it: a Windows drive path stands as
/// given, any other is joined to the root.
pub open spec fn rooted(p: Seq<char>) -> Seq<char> {
    if starts_with(p, "C:\\"@) {
        p
    } else {
        join_path(seq!['/'], p)
    }
}

/// What a deny-run descriptor names.
#[derive(Clone, Debug)]
pub enum DenyRunTarget {
    /// A program path, rooted.
    Path(String),
    /// A program name.
    Name(String),
}

/// A path query: the path as resolved, and as requested.
#[derive(Clone, Debug)]
pub struct PathQuery {
    pub resolved: String,
    pub requested: String,
}

impl TestPermissionDescriptorParser {
    /// A deny-run descriptor: a rooted path where the text holds a `/`, a
    /// program name otherwise.
    pub fn parse_deny_run_descriptor(&self, text: &str) -> (r: DenyRunTarget)
        ensures
            match r {
                DenyRunTarget::Path(p) => text@.contains('/') && p@ == rooted(text@),
                DenyRunTarget::Name(n) => !text@.contains('/') && n@ == text@,
            },
    {
        let t = chars_of(text);
        let mut i: usize = 0;
        while i < t.len()
            invariant
                t@ == text@,
                i <= t.len(),
                forall|k: int| 0 <= k < i ==> t@[k] != '/',
            decreases t.len() - i,
        {
            if t[i] == '/' {
                assert(text@[i as int] == '/');
                return DenyRunTarget::Path(self.join_path_with_root(text));
            }
            i = i + 1;
        }
        DenyRunTarget::Name(string_of(&t))
    }

    /// A path query for `path`.
    pub fn parse_path_query(&self, path: &str) -> (r: PathQuery)
        ensures
            r.resolved@ == rooted(path@),
            r.requested@ == path@,
    {
        PathQuery { resolved: self.join_path_with_root(path), requested: string_of(&chars_of(path)) }
    }

    /// `path` as the permission layer sees it.
    pub fn join_path_with_root(&self, path: &str) -> (r: String)
        ensures
            r@ == rooted(path@),
    {
        let p = chars_of(path);
        if word_at(&p, 0, "C:\\") {
            string_of(&p)
        } else {
            let root: Vec<char> = vec!['/'];
            string_of(&join(&root, &p))
        }
    }
}

/// The directories in which an application's `app.yaml` is looked for, nearest
/// first: the path itself, then each of its ancestors, up to the root (or, for
/// a relative path, up to the empty path, which stands for the working
/// directory).
pub open spec fn search_dirs(p: Seq<char>) -> Seq<Seq<char>>
    decreases p.len(),
{
    if p.len() == 0 || p == seq!['/'] {
        seq![p]
    } else if parent_dir(p).len() < p.len() {
        seq![p] + search_dirs(parent_dir(p))
    } else {
        seq![p]
    }
}

proof fn lemma_last_index_range(s: Seq<char>, c: char)
    ensures
        -1 <= last_index(s, c) < s.len(),
    decreases s.len(),
{
    if s.len() > 0 {
        lemma_last_index_range(s.drop_last(), c);
    }
}

/// The directories in which an application's `app.yaml` is looked for, nearest
/// first.
pub fn app_path_candidates(current_file: &str) -> (r: Vec<String>)
    ensures
        string_views(r@) == search_dirs(current_file@),
{
    let mut p = chars_of(current_file);
    let mut out: Vec<String> = Vec::new();
    let ghost start = current_file@;
    assert(string_views(out@) + search_dirs(p@) =~= search_dirs(start));
    loop
        invariant
            start == current_file@,
            string_views(out@) + search_dirs(p@) == search_dirs(start),
        decreases p.len(),
    {
        let ghost prev = string_views(out@);
        let ghost pv = p@;
        out.push(string_of(&p));
        assert(string_views(out@) =~= prev.push(pv));
        let at_root = p.len() == 1 && p[0] == '/';
        if p.len() == 0 || at_root {
            proof {
                if at_root {
                    assert(pv =~= seq!['/']);
                }
                assert(search_dirs(pv) == seq![pv]);
                assert(string_views(out@) =~= search_dirs(start));
            }
            return out;
        }
        let parent = parent_of(&p);
        proof {
            lemma_last_index_range(pv, '/');
            assert(pv != seq!['/']);
        }
        if parent.len() >= p.len() {
            proof {
                assert(search_dirs(pv) == seq![pv]);
                assert(string_views(out@) =~= search_dirs(start));
            }
            return out;
        }
        proof {
            assert(search_dirs(pv) == seq![pv] + search_dirs(parent@));
            assert(string_views(out@) + search_dirs(parent@) =~= search_dirs(start));
        }
        p = parent;
    }
}

/// The inclusive range that a random pick between `min` and `max` is drawn
/// from, with its ends in order; none where the two are equal and the pick is
/// `min` itself.
pub fn rand_range(min: usize, max: usize) -> (r: Option<(usize, usize)>)
    ensures
        min == max ==> r is None,
        min != max ==> r == Some(if min < max { (min, max) } else { (max, min) }),
{
    if min == max {
        None
    } else if min < max {
        Some((min, max))
    } else {
        Some((max, min))
    }
}

} // verus!
