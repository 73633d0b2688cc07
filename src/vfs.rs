//! In-memory file overrides, consulted before the real filesystem.
//! Registration only appends; a lookup answers with the first entry
//! registered under the path, so a later entry never shadows an earlier one.
use vstd::prelude::*;
use crate::text::{chars_of, string_of};

verus! {

/// The content of the first entry under `path`.
pub open spec fn lookup(es: Seq<(Seq<char>, Seq<char>)>, path: Seq<char>) -> Option<Seq<char>>
    decreases es.len(),
{
    if es.len() == 0 {
        None
    } else if es[0].0 == path {
        Some(es[0].1)
    } else {
        lookup(es.drop_first(), path)
    }
}

/// `a` and `b` hold the same characters.
pub fn same_chars(a: &Vec<char>, b: &Vec<char>) -> (r: bool)
    ensures
        r == (a@ == b@),
{
    if a.len() != b.len() {
        return false;
    }
    let mut i: usize = 0;
    while i < a.len()
        invariant
            a.len() == b.len(),
            i <= a.len(),
            forall|k: int| 0 <= k < i ==> a@[k] == b@[k],
        decreases a.len() - i,
    {
        if a[i] != b[i] {
            return false;
        }
        i = i + 1;
    }
    assert(a@ =~= b@);
    true
}

/// An append-only table from path to content.
pub struct VirtualFiles {
    entries: Vec<(Vec<char>, Vec<char>)>,
}

impl View for VirtualFiles {
    type V = Seq<(Seq<char>, Seq<char>)>;

    closed spec fn view(&self) -> Seq<(Seq<char>, Seq<char>)> {
        self.entries@.map_values(|e: (Vec<char>, Vec<char>)| (e.0@, e.1@))
    }
}

impl VirtualFiles {
    /// A table with no entries.
    pub fn new() -> (r: Self)
        ensures
            r@ == Seq::<(Seq<char>, Seq<char>)>::empty(),
    {
        let r = VirtualFiles { entries: Vec::new() };
        assert(r@ =~= Seq::<(Seq<char>, Seq<char>)>::empty());
        r
    }

    /// Appends an entry; earlier entries stay as they are.
    pub fn set(&mut self, path: &str, content: &str)
        ensures
            final(self)@ == old(self)@.push((path@, content@)),
    {
        let p = chars_of(path);
        let c = chars_of(content);
        self.entries.push((p, c));
        assert(final(self)@ =~= old(self)@.push((path@, content@)));
    }

    /// The content of the first entry under `path`, as characters.
    pub fn lookup_chars(&self, path: &Vec<char>) -> (r: Option<Vec<char>>)
        ensures
            match r {
                Some(c) => lookup(self@, path@) == Some(c@),
                None => lookup(self@, path@) is None,
            },
    {
        let mut i: usize = 0;
        assert(self@.subrange(0, self@.len() as int) =~= self@);
        while i < self.entries.len()
            invariant
                i <= self.entries.len(),
                lookup(self@, path@) == lookup(self@.subrange(i as int, self@.len() as int), path@),
            decreases self.entries.len() - i,
        {
            let ghost rest = self@.subrange(i as int, self@.len() as int);
            assert(rest.drop_first() =~= self@.subrange(i + 1, self@.len() as int));
            if same_chars(&self.entries[i].0, path) {
                return Some(self.entries[i].1.clone());
            }
            i = i + 1;
        }
        None
    }

    /// The content of the first entry under `path`.
    pub fn get(&self, path: &str) -> (r: Option<String>)
        ensures
            match r {
                Some(c) => lookup(self@, path@) == Some(c@),
                None => lookup(self@, path@) is None,
            },
    {
        let p = chars_of(path);
        match self.lookup_chars(&p) {
            Some(c) => Some(string_of(&c)),
            None => None,
        }
    }

    /// The content of the first entry under `path`, or the empty text.
    pub fn get_or_empty(&self, path: &str) -> (r: String)
        ensures
            r@ == match lookup(self@, path@) {
                Some(c) => c,
                None => Seq::<char>::empty(),
            },
    {
        match self.get(path) {
            Some(c) => c,
            None => String::new(),
        }
    }
}

/// Registers `contents` under `path` in `files`.
pub fn add_virtual_file(files: &mut VirtualFiles, path: &str, contents: &str)
    ensures
        final(files)@ == old(files)@.push((path@, contents@)),
{
    files.set(path, contents);
}

/// What a lookup answers after one more entry is appended.
pub proof fn lemma_lookup_push(es: Seq<(Seq<char>, Seq<char>)>, e: (Seq<char>, Seq<char>), path: Seq<char>)
    ensures
        lookup(es.push(e), path) == if lookup(es, path) is Some {
            lookup(es, path)
        } else if e.0 == path {
            Some(e.1)
        } else {
            None::<Seq<char>>
        },
    decreases es.len(),
{
    if es.len() == 0 {
        assert(es.push(e).drop_first() =~= es);
    } else {
        assert(es.push(e).drop_first() =~= es.drop_first().push(e));
        lemma_lookup_push(es.drop_first(), e, path);
    }
}

/// An entry, once registered under a path, is what every later lookup of that
/// path answers, whatever is registered afterwards, under any path.
pub proof fn lemma_first_entry_wins(
    es: Seq<(Seq<char>, Seq<char>)>,
    later: Seq<(Seq<char>, Seq<char>)>,
    path: Seq<char>,
)
    requires
        lookup(es, path) is Some,
    ensures
        lookup(es + later, path) == lookup(es, path),
    decreases later.len(),
{
    if later.len() > 0 {
        let init = later.drop_last();
        assert(es + later =~= (es + init).push(later.last()));
        lemma_first_entry_wins(es, init, path);
        lemma_lookup_push(es + init, later.last(), path);
    }
}

/// Of two entries registered under the same path, a lookup answers with the first.
pub proof fn lemma_duplicate_path_keeps_first(
    es: Seq<(Seq<char>, Seq<char>)>,
    path: Seq<char>,
    first: Seq<char>,
    second: Seq<char>,
)
    requires
        lookup(es, path) is None,
    ensures
        lookup(es.push((path, first)).push((path, second)), path) == Some(first),
{
    lemma_lookup_push(es, (path, first), path);
    lemma_lookup_push(es.push((path, first)), (path, second), path);
}

} // verus!
