//! The line syntaxes that module sources use to name other modules:
//! import statements, external-dependency comments and entry markers.
//! Every syntax is anchored at the start of a line, after optional blanks,
//! and a statement never spans two lines.
use vstd::prelude::*;

verus! {

/// Blank characters inside a line.
pub open spec fn is_blank(c: char) -> bool {
    c == ' ' || c == '\t' || c == '\r' || c == '\x0b' || c == '\x0c'
}

/// The characters that may close a path: both quotes, or the double quote only.
pub open spec fn is_closer(c: char, double_only: bool) -> bool {
    c == '"' || (!double_only && c == '\'')
}

/// The first index at or after `i` that holds no blank.
pub open spec fn skip_blanks(s: Seq<char>, i: int) -> int
    decreases s.len() - i,
{
    if 0 <= i < s.len() && is_blank(s[i]) {
        skip_blanks(s, i + 1)
    } else {
        i
    }
}

/// The first index at or after `i` that holds a closing quote, or the length.
pub open spec fn closer_at_or_after(s: Seq<char>, i: int, double_only: bool) -> int
    decreases s.len() - i,
{
    if 0 <= i < s.len() && !is_closer(s[i], double_only) {
        closer_at_or_after(s, i + 1, double_only)
    } else {
        i
    }
}

/// `w` stands in `s` at index `i`.
pub open spec fn has_word_at(s: Seq<char>, i: int, w: Seq<char>) -> bool {
    &&& 0 <= i
    &&& i + w.len() <= s.len()
    &&& forall|k: int| 0 <= k < w.len() ==> s[i + k] == w[k]
}

/// A quoted path at `i`: an opening quote, one or more characters that are no
/// quote, and a closing quote. The path is what stands between the quotes.
pub open spec fn quoted_at(s: Seq<char>, i: int, double_only: bool) -> Option<Seq<char>> {
    if 0 <= i < s.len() && is_closer(s[i], double_only) {
        let e: int = closer_at_or_after(s, i + 1, double_only);
        if i + 1 < e < s.len() {
            Some(s.subrange(i + 1, e))
        } else {
            None
        }
    } else {
        None
    }
}

/// A `from` clause at `p`: blanks, the word `from`, blanks and a quoted path.
pub open spec fn from_clause_at(s: Seq<char>, p: int) -> Option<Seq<char>> {
    if 0 <= p < s.len() && is_blank(s[p]) {
        let q: int = skip_blanks(s, p);
        if has_word_at(s, q, "from"@) && q + 4 < s.len() && is_blank(s[q + 4]) {
            quoted_at(s, skip_blanks(s, q + 4), false)
        } else {
            None
        }
    } else {
        None
    }
}

/// The first `from` clause at or after `p` that no `;` precedes.
pub open spec fn first_from_clause(s: Seq<char>, p: int) -> Option<Seq<char>>
    decreases s.len() - p,
{
    if p < 0 || p >= s.len() || s[p] == ';' {
        None
    } else if from_clause_at(s, p) is Some {
        from_clause_at(s, p)
    } else {
        first_from_clause(s, p + 1)
    }
}

/// The path of an import line: `import "<path>"`, or `import ... from "<path>"`
/// where `...` holds no `;`. A `from` clause, where one parses, wins.
pub open spec fn import_target(s: Seq<char>) -> Option<Seq<char>> {
    let i: int = skip_blanks(s, 0);
    let j: int = i + 6;
    if has_word_at(s, i, "import"@) && j < s.len() && is_blank(s[j]) {
        if first_from_clause(s, j) is Some {
            first_from_clause(s, j)
        } else {
            quoted_at(s, skip_blanks(s, j), false)
        }
    } else {
        None
    }
}

/// The path of an external-dependency line: `// external '<path>'` (or in
/// double quotes).
pub open spec fn external_target(s: Seq<char>) -> Option<Seq<char>> {
    let i: int = skip_blanks(s, 0);
    let j: int = i + 11;
    if has_word_at(s, i, "// external"@) && j < s.len() && is_blank(s[j]) {
        quoted_at(s, skip_blanks(s, j), false)
    } else {
        None
    }
}

/// The name of an entry-marker line: `// entry "<name>"`, blanks allowed
/// after `//` and after `entry`.
pub open spec fn entry_name(s: Seq<char>) -> Option<Seq<char>> {
    let i: int = skip_blanks(s, 0);
    if has_word_at(s, i, "//"@) {
        let j: int = skip_blanks(s, i + 2);
        if has_word_at(s, j, "entry"@) {
            quoted_at(s, skip_blanks(s, j + 5), true)
        } else {
            None
        }
    } else {
        None
    }
}

/// Which of the three line syntaxes a scan looks for.
#[derive(Clone, Copy, Debug, PartialEq, Eq, Structural)]
pub enum LineSyntax {
    Import,
    External,
    Entry,
}

/// What a line yields under a syntax.
pub open spec fn line_match(kind: LineSyntax, line: Seq<char>) -> Option<Seq<char>> {
    match kind {
        LineSyntax::Import => import_target(line),
        LineSyntax::External => external_target(line),
        LineSyntax::Entry => entry_name(line),
    }
}

/// The lines of `s`, split at each `\n`; the text after the last `\n` is the
/// last line, empty where `s` ends with `\n`.
pub open spec fn split_lines(s: Seq<char>) -> Seq<Seq<char>>
    decreases s.len(),
{
    if s.len() == 0 {
        seq![Seq::<char>::empty()]
    } else {
        let ls = split_lines(s.drop_last());
        if s.last() == '\n' {
            ls.push(Seq::<char>::empty())
        } else {
            ls.update(ls.len() - 1, ls.last().push(s.last()))
        }
    }
}

/// What the lines yield under a syntax, in line order.
pub open spec fn scan_lines(kind: LineSyntax, ls: Seq<Seq<char>>) -> Seq<Seq<char>>
    decreases ls.len(),
{
    if ls.len() == 0 {
        Seq::empty()
    } else {
        let head = scan_lines(kind, ls.drop_last());
        match line_match(kind, ls.last()) {
            Some(t) => head.push(t),
            None => head,
        }
    }
}

/// What a text yields under a syntax, in order of appearance.
pub open spec fn scan_text(kind: LineSyntax, s: Seq<char>) -> Seq<Seq<char>> {
    scan_lines(kind, split_lines(s))
}

/// The views of a sequence of character vectors.
pub open spec fn views(v: Seq<Vec<char>>) -> Seq<Seq<char>> {
    v.map_values(|x: Vec<char>| x@)
}

proof fn lemma_split_lines_nonempty(s: Seq<char>)
    ensures
        split_lines(s).len() >= 1,
    decreases s.len(),
{
    if s.len() > 0 {
        lemma_split_lines_nonempty(s.drop_last());
    }
}

fn is_blank_char(c: char) -> (r: bool)
    ensures
        r == is_blank(c),
{
    c == ' ' || c == '\t' || c == '\r' || c == '\x0b' || c == '\x0c'
}

fn skip_blanks_from(s: &Vec<char>, i: usize) -> (r: usize)
    requires
        i <= s.len(),
    ensures
        r as int == skip_blanks(s@, i as int),
        i <= r <= s.len(),
{
    let mut k: usize = i;
    while k < s.len() && is_blank_char(s[k])
        invariant
            i <= k <= s.len(),
            skip_blanks(s@, i as int) == skip_blanks(s@, k as int),
        decreases s.len() - k,
    {
        k = k + 1;
    }
    k
}

fn closer_from(s: &Vec<char>, i: usize, double_only: bool) -> (r: usize)
    requires
        i <= s.len(),
    ensures
        r as int == closer_at_or_after(s@, i as int, double_only),
        i <= r <= s.len(),
{
    let mut k: usize = i;
    while k < s.len() && !(s[k] == '"' || (!double_only && s[k] == '\''))
        invariant
            i <= k <= s.len(),
            closer_at_or_after(s@, i as int, double_only) == closer_at_or_after(
                s@,
                k as int,
                double_only,
            ),
        decreases s.len() - k,
    {
        k = k + 1;
    }
    k
}

/// Whether `w` stands in `s` at index `i`.
pub fn word_at(s: &Vec<char>, i: usize, w: &str) -> (r: bool)
    ensures
        r == has_word_at(s@, i as int, w@),
{
    let n: usize = w.unicode_len();
    if i > s.len() || n > s.len() - i {
        return false;
    }
    let mut k: usize = 0;
    while k < n
        invariant
            n == w@.len(),
            i + n <= s.len(),
            k <= n,
            forall|t: int| 0 <= t < k ==> s@[i + t] == w@[t],
        decreases n - k,
    {
        if s[i + k] != w.get_char(k) {
            return false;
        }
        k = k + 1;
    }
    true
}

fn quoted_from(s: &Vec<char>, i: usize, double_only: bool) -> (r: Option<Vec<char>>)
    requires
        i <= s.len(),
    ensures
        match r {
            Some(v) => quoted_at(s@, i as int, double_only) == Some(v@),
            None => quoted_at(s@, i as int, double_only) is None,
        },
{
    if i < s.len() && (s[i] == '"' || (!double_only && s[i] == '\'')) {
        let e: usize = closer_from(s, i + 1, double_only);
        if i + 1 < e && e < s.len() {
            let mut v: Vec<char> = Vec::new();
            let mut k: usize = i + 1;
            while k < e
                invariant
                    i + 1 <= k <= e,
                    e < s.len(),
                    v@ == s@.subrange(i + 1, k as int),
                decreases e - k,
            {
                v.push(s[k]);
                k = k + 1;
                assert(v@ =~= s@.subrange(i + 1, k as int));
            }
            Some(v)
        } else {
            None
        }
    } else {
        None
    }
}

fn from_clause_from(s: &Vec<char>, p: usize) -> (r: Option<Vec<char>>)
    requires
        p <= s.len(),
    ensures
        match r {
            Some(v) => from_clause_at(s@, p as int) == Some(v@),
            None => from_clause_at(s@, p as int) is None,
        },
{
    if p < s.len() && is_blank_char(s[p]) {
        let q: usize = skip_blanks_from(s, p);
        proof {
            reveal_strlit("from");
        }
        if word_at(s, q, "from") && q + 4 < s.len() && is_blank_char(s[q + 4]) {
            let m: usize = skip_blanks_from(s, q + 4);
            quoted_from(s, m, false)
        } else {
            None
        }
    } else {
        None
    }
}

fn first_from_clause_from(s: &Vec<char>, p: usize) -> (r: Option<Vec<char>>)
    requires
        p <= s.len(),
    ensures
        match r {
            Some(v) => first_from_clause(s@, p as int) == Some(v@),
            None => first_from_clause(s@, p as int) is None,
        },
{
    let mut k: usize = p;
    while k < s.len()
        invariant
            p <= k <= s.len(),
            first_from_clause(s@, p as int) == first_from_clause(s@, k as int),
        decreases s.len() - k,
    {
        if s[k] == ';' {
            return None;
        }
        let c = from_clause_from(s, k);
        if c.is_some() {
            return c;
        }
        k = k + 1;
    }
    None
}

fn import_target_of(s: &Vec<char>) -> (r: Option<Vec<char>>)
    ensures
        match r {
            Some(v) => import_target(s@) == Some(v@),
            None => import_target(s@) is None,
        },
{
    let i: usize = skip_blanks_from(s, 0);
    proof {
        reveal_strlit("import");
    }
    if word_at(s, i, "import") && i + 6 < s.len() && is_blank_char(s[i + 6]) {
        let f = first_from_clause_from(s, i + 6);
        if f.is_some() {
            f
        } else {
            let k: usize = skip_blanks_from(s, i + 6);
            quoted_from(s, k, false)
        }
    } else {
        None
    }
}

fn external_target_of(s: &Vec<char>) -> (r: Option<Vec<char>>)
    ensures
        match r {
            Some(v) => external_target(s@) == Some(v@),
            None => external_target(s@) is None,
        },
{
    let i: usize = skip_blanks_from(s, 0);
    proof {
        reveal_strlit("// external");
    }
    if word_at(s, i, "// external") && i + 11 < s.len() && is_blank_char(s[i + 11]) {
        let k: usize = skip_blanks_from(s, i + 11);
        quoted_from(s, k, false)
    } else {
        None
    }
}

fn entry_name_of(s: &Vec<char>) -> (r: Option<Vec<char>>)
    ensures
        match r {
            Some(v) => entry_name(s@) == Some(v@),
            None => entry_name(s@) is None,
        },
{
    let i: usize = skip_blanks_from(s, 0);
    proof {
        reveal_strlit("//");
        reveal_strlit("entry");
    }
    if word_at(s, i, "//") {
        let j: usize = skip_blanks_from(s, i + 2);
        if word_at(s, j, "entry") {
            let k: usize = skip_blanks_from(s, j + 5);
            quoted_from(s, k, true)
        } else {
            None
        }
    } else {
        None
    }
}

/// What one line yields under a syntax.
pub fn match_line(kind: LineSyntax, line: &Vec<char>) -> (r: Option<Vec<char>>)
    ensures
        match r {
            Some(v) => line_match(kind, line@) == Some(v@),
            None => line_match(kind, line@) is None,
        },
{
    match kind {
        LineSyntax::Import => import_target_of(line),
        LineSyntax::External => external_target_of(line),
        LineSyntax::Entry => entry_name_of(line),
    }
}

/// Every path or name that a text yields under a syntax, in order of appearance.
pub fn scan(kind: LineSyntax, s: &Vec<char>) -> (r: Vec<Vec<char>>)
    ensures
        views(r@) == scan_text(kind, s@),
{
    let mut out: Vec<Vec<char>> = Vec::new();
    let mut cur: Vec<char> = Vec::new();
    let mut i: usize = 0;
    proof {
        assert(s@.subrange(0, 0) =~= Seq::<char>::empty());
        assert(views(out@) =~= Seq::<Seq<char>>::empty());
    }
    while i < s.len()
        invariant
            i <= s.len(),
            split_lines(s@.subrange(0, i as int)).len() >= 1,
            split_lines(s@.subrange(0, i as int)).last() == cur@,
            views(out@) == scan_lines(kind, split_lines(s@.subrange(0, i as int)).drop_last()),
        decreases s.len() - i,
    {
        let ghost before = s@.subrange(0, i as int);
        let ghost after = s@.subrange(0, i + 1);
        proof {
            assert(after.drop_last() =~= before);
            lemma_split_lines_nonempty(before);
        }
        if s[i] == '\n' {
            let ghost ls = split_lines(before);
            let m = match_line(kind, &cur);
            proof {
                assert(split_lines(after) == ls.push(Seq::<char>::empty()));
                assert(split_lines(after).drop_last() =~= ls);
                assert(ls =~= ls.drop_last().push(ls.last()));
            }
            match m {
                Some(t) => {
                    out.push(t);
                },
                None => {},
            }
            proof {
                assert(views(out@) =~= scan_lines(kind, split_lines(after).drop_last()));
            }
            cur = Vec::new();
        } else {
            let ghost ls = split_lines(before);
            cur.push(s[i]);
            proof {
                assert(split_lines(after) == ls.update(ls.len() - 1, ls.last().push(s@[i as int])));
                assert(split_lines(after).drop_last() =~= ls.drop_last());
            }
        }
        i = i + 1;
    }
    proof {
        let ls = split_lines(s@.subrange(0, i as int));
        assert(s@.subrange(0, i as int) =~= s@);
        assert(ls =~= ls.drop_last().push(ls.last()));
    }
    let m = match_line(kind, &cur);
    match m {
        Some(t) => {
            out.push(t);
        },
        None => {},
    }
    proof {
        assert(views(out@) =~= scan_text(kind, s@));
    }
    out
}

} // verus!
