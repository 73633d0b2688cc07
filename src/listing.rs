//! Which directory entries a listing shows, and in what order.
use vstd::prelude::*;
use vstd::seq_lib::{to_multiset_build, to_multiset_insert};
use crate::data::equals_str;
use crate::fs_options::{DirEntryInfo, ReaddirOptions};
use crate::text::chars_of;

verus! {

/// The order a listing is sorted in.
#[derive(Clone, Copy, Debug, PartialEq, Eq, Structural)]
pub enum SortKey {
    Name,
    Size,
    Modified,
    /// Directories first.
    Kind,
    /// The order the directory gave.
    Unsorted,
}

/// The type filter a listing applies.
#[derive(Clone, Copy, Debug, PartialEq, Eq, Structural)]
pub enum TypeFilter {
    Files,
    Directories,
    Symlinks,
    Everything,
}

/// The sort order that a `sort_by` option names.
pub open spec fn sort_key_of(s: Option<Seq<char>>) -> SortKey {
    match s {
        Some(x) => if x == "name"@ {
            SortKey::Name
        } else if x == "size"@ {
            SortKey::Size
        } else if x == "modified"@ {
            SortKey::Modified
        } else if x == "type"@ {
            SortKey::Kind
        } else {
            SortKey::Unsorted
        },
        None => SortKey::Unsorted,
    }
}

/// The filter that a `filter_type` option names.
pub open spec fn type_filter_of(s: Option<Seq<char>>) -> TypeFilter {
    match s {
        Some(x) => if x == "file"@ {
            TypeFilter::Files
        } else if x == "directory"@ {
            TypeFilter::Directories
        } else if x == "symlink"@ {
            TypeFilter::Symlinks
        } else {
            TypeFilter::Everything
        },
        None => TypeFilter::Everything,
    }
}

/// The view of an optional string.
pub open spec fn opt_view(s: Option<String>) -> Option<Seq<char>> {
    match s {
        Some(x) => Some(x@),
        None => None,
    }
}

/// A listing shows the entry: hidden entries (named with a leading `.`) only
/// where asked for, and only entries of the filtered type.
pub open spec fn shown(e: DirEntryInfo, include_hidden: bool, filter: TypeFilter) -> bool {
    &&& include_hidden || !(e.name@.len() > 0 && e.name@[0] == '.')
    &&& match filter {
        TypeFilter::Files => e.is_file,
        TypeFilter::Directories => e.is_directory,
        TypeFilter::Symlinks => e.is_symlink,
        TypeFilter::Everything => true,
    }
}

/// The entries a listing shows, in the order given.
pub open spec fn shown_entries(s: Seq<DirEntryInfo>, include_hidden: bool, filter: TypeFilter) -> Seq<DirEntryInfo>
    decreases s.len(),
{
    if s.len() == 0 {
        Seq::empty()
    } else if shown(s.last(), include_hidden, filter) {
        shown_entries(s.drop_last(), include_hidden, filter).push(s.last())
    } else {
        shown_entries(s.drop_last(), include_hidden, filter)
    }
}

/// `a` precedes or equals `b` in lexicographic order of code points.
pub open spec fn lex_le(a: Seq<char>, b: Seq<char>) -> bool
    decreases a.len(),
{
    if a.len() == 0 {
        true
    } else if b.len() == 0 {
        false
    } else if a[0] < b[0] {
        true
    } else if a[0] > b[0] {
        false
    } else {
        lex_le(a.drop_first(), b.drop_first())
    }
}

/// `a` may stand before `b` under the sort order.
pub open spec fn sorts_before(k: SortKey, a: DirEntryInfo, b: DirEntryInfo) -> bool {
    match k {
        SortKey::Name => lex_le(a.name@, b.name@),
        SortKey::Size => a.size <= b.size,
        SortKey::Modified => match (a.modified, b.modified) {
            (None, _) => true,
            (Some(_), None) => false,
            (Some(x), Some(y)) => x <= y,
        },
        SortKey::Kind => a.is_directory || !b.is_directory,
        SortKey::Unsorted => true,
    }
}

/// The entries are in order under the sort order.
pub open spec fn sorted_by(k: SortKey, s: Seq<DirEntryInfo>) -> bool {
    forall|i: int, j: int| 0 <= i < j < s.len() ==> sorts_before(k, #[trigger] s[i], #[trigger] s[j])
}

/// Entries that tie under the sort order stand in `r` in the order they have in `s`.
pub open spec fn keeps_tie_order(k: SortKey, r: Seq<DirEntryInfo>, s: Seq<DirEntryInfo>) -> bool {
    forall|i: int, j: int|
        0 <= i < j < r.len() && sorts_before(k, r[i], r[j]) && sorts_before(k, r[j], r[i])
            ==> exists|a: int, b: int| 0 <= a < b < s.len() && s[a] == r[i] && s[b] == r[j]
}

proof fn lemma_tie_order_self(k: SortKey, s: Seq<DirEntryInfo>)
    ensures
        keeps_tie_order(k, s, s),
{
    assert forall|i: int, j: int|
        0 <= i < j < s.len() && sorts_before(k, s[i], s[j]) && sorts_before(k, s[j], s[i]) implies exists|a: int, b: int|
            0 <= a < b < s.len() && s[a] == s[i] && s[b] == s[j] by {
        assert(s[i] == s[i] && s[j] == s[j]);
    }
}

proof fn lemma_lex_total(a: Seq<char>, b: Seq<char>)
    ensures
        lex_le(a, b) || lex_le(b, a),
    decreases a.len(),
{
    if a.len() > 0 && b.len() > 0 && a[0] == b[0] {
        lemma_lex_total(a.drop_first(), b.drop_first());
    }
}

proof fn lemma_lex_trans(a: Seq<char>, b: Seq<char>, c: Seq<char>)
    requires
        lex_le(a, b),
        lex_le(b, c),
    ensures
        lex_le(a, c),
    decreases a.len(),
{
    if a.len() > 0 && b.len() > 0 && c.len() > 0 && a[0] == b[0] && b[0] == c[0] {
        lemma_lex_trans(a.drop_first(), b.drop_first(), c.drop_first());
    }
}

proof fn lemma_total(k: SortKey, a: DirEntryInfo, b: DirEntryInfo)
    ensures
        sorts_before(k, a, b) || sorts_before(k, b, a),
{
    if k == SortKey::Name {
        lemma_lex_total(a.name@, b.name@);
    }
}

proof fn lemma_trans(k: SortKey, a: DirEntryInfo, b: DirEntryInfo, c: DirEntryInfo)
    requires
        sorts_before(k, a, b),
        sorts_before(k, b, c),
    ensures
        sorts_before(k, a, c),
{
    if k == SortKey::Name {
        lemma_lex_trans(a.name@, b.name@, c.name@);
    }
}

fn sort_key(s: &Option<String>) -> (r: SortKey)
    ensures
        r == sort_key_of(opt_view(*s)),
{
    match s {
        Some(x) => {
            let c = chars_of(x.as_str());
            if equals_str(&c, "name") {
                SortKey::Name
            } else if equals_str(&c, "size") {
                SortKey::Size
            } else if equals_str(&c, "modified") {
                SortKey::Modified
            } else if equals_str(&c, "type") {
                SortKey::Kind
            } else {
                SortKey::Unsorted
            }
        },
        None => SortKey::Unsorted,
    }
}

fn type_filter(s: &Option<String>) -> (r: TypeFilter)
    ensures
        r == type_filter_of(opt_view(*s)),
{
    match s {
        Some(x) => {
            let c = chars_of(x.as_str());
            if equals_str(&c, "file") {
                TypeFilter::Files
            } else if equals_str(&c, "directory") {
                TypeFilter::Directories
            } else if equals_str(&c, "symlink") {
                TypeFilter::Symlinks
            } else {
                TypeFilter::Everything
            }
        },
        None => TypeFilter::Everything,
    }
}

fn is_shown(e: &DirEntryInfo, include_hidden: bool, filter: TypeFilter) -> (r: bool)
    ensures
        r == shown(*e, include_hidden, filter),
{
    let name = chars_of(e.name.as_str());
    let visible = include_hidden || !(name.len() > 0 && name[0] == '.');
    let kind_ok = match filter {
        TypeFilter::Files => e.is_file,
        TypeFilter::Directories => e.is_directory,
        TypeFilter::Symlinks => e.is_symlink,
        TypeFilter::Everything => true,
    };
    visible && kind_ok
}

fn lex_le_exec(a: &Vec<char>, b: &Vec<char>) -> (r: bool)
    ensures
        r == lex_le(a@, b@),
{
    let mut i: usize = 0;
    assert(a@.subrange(0, a@.len() as int) =~= a@);
    assert(b@.subrange(0, b@.len() as int) =~= b@);
    assert(a@.subrange(0, 0) =~= b@.subrange(0, 0));
    while i < a.len()
        invariant
            i <= a.len(),
            i <= b.len(),
            a@.subrange(0, i as int) == b@.subrange(0, i as int),
            lex_le(a@, b@) == lex_le(a@.subrange(i as int, a@.len() as int), b@.subrange(i as int, b@.len() as int)),
        decreases a.len() - i,
    {
        let ghost ta = a@.subrange(i as int, a@.len() as int);
        let ghost tb = b@.subrange(i as int, b@.len() as int);
        if i == b.len() {
            return false;
        }
        if a[i] < b[i] {
            return true;
        }
        if a[i] > b[i] {
            return false;
        }
        assert(ta.drop_first() =~= a@.subrange(i + 1, a@.len() as int));
        assert(tb.drop_first() =~= b@.subrange(i + 1, b@.len() as int));
        assert(a@.subrange(0, i + 1) =~= a@.subrange(0, i as int).push(a@[i as int]));
        assert(b@.subrange(0, i + 1) =~= b@.subrange(0, i as int).push(b@[i as int]));
        i = i + 1;
    }
    true
}

fn before(k: SortKey, a: &DirEntryInfo, b: &DirEntryInfo) -> (r: bool)
    ensures
        r == sorts_before(k, *a, *b),
{
    match k {
        SortKey::Name => lex_le_exec(&chars_of(a.name.as_str()), &chars_of(b.name.as_str())),
        SortKey::Size => a.size <= b.size,
        SortKey::Modified => match (a.modified, b.modified) {
            (None, _) => true,
            (Some(_), None) => false,
            (Some(x), Some(y)) => x <= y,
        },
        SortKey::Kind => a.is_directory || !b.is_directory,
        SortKey::Unsorted => true,
    }
}

/// The entries a listing shows: those that `options` let through, in the
/// order given, or sorted as `options` ask.
pub fn select_entries(entries: Vec<DirEntryInfo>, options: &ReaddirOptions) -> (r: Vec<DirEntryInfo>)
    ensures
        ({
            let kept = shown_entries(entries@, options.include_hidden, type_filter_of(opt_view(options.filter_type)));
            let k = sort_key_of(opt_view(options.sort_by));
            &&& k == SortKey::Unsorted ==> r@ == kept
            &&& sorted_by(k, r@)
            &&& r@.to_multiset() == kept.to_multiset()
            &&& keeps_tie_order(k, r@, kept)
        }),
{
    broadcast use vstd::multiset::group_multiset_axioms;
    let filter = type_filter(&options.filter_type);
    let k = sort_key(&options.sort_by);
    let hidden = options.include_hidden;
    let ghost all = entries@;
    let mut rest = entries;
    let mut out: Vec<DirEntryInfo> = Vec::new();
    let mut i: usize = 0;
    let ghost n = all.len();
    assert(all.subrange(0, 0) =~= Seq::<DirEntryInfo>::empty());
    assert(rest@ =~= all.subrange(0, n as int));
    assert(rest.len() == n);
    while rest.len() > 0
        invariant
            n == all.len(),
            n <= usize::MAX,
            i <= n,
            rest@ == all.subrange(i as int, n as int),
            k == SortKey::Unsorted ==> out@ == shown_entries(all.subrange(0, i as int), hidden, filter),
            sorted_by(k, out@),
            out@.to_multiset() == shown_entries(all.subrange(0, i as int), hidden, filter).to_multiset(),
            keeps_tie_order(k, out@, shown_entries(all.subrange(0, i as int), hidden, filter)),
            forall|q: int| 0 <= q < out@.len() ==> #[trigger] shown_entries(all.subrange(0, i as int), hidden, filter).contains(out@[q]),
        decreases rest.len(),
    {
        assert(rest@.len() == n - i);
        let x = rest.remove(0);
        let ghost pre = all.subrange(0, i as int);
        assert(all.subrange(0, i + 1).drop_last() =~= pre);
        assert(all.subrange(0, i + 1).last() == x);
        let ghost cur = all.subrange(0, i + 1);
        if is_shown(&x, hidden, filter) {
            let ghost old_out = out@;
            assert(shown_entries(cur, hidden, filter) == shown_entries(pre, hidden, filter).push(x));
            proof {
                to_multiset_build(shown_entries(pre, hidden, filter), x);
            }
            if k == SortKey::Unsorted {
                out.push(x);
                assert(sorted_by(k, out@));
                proof {
                    lemma_tie_order_self(k, out@);
                    assert forall|q: int| 0 <= q < out@.len() implies #[trigger] shown_entries(cur, hidden, filter).contains(out@[q]) by {
                        assert(shown_entries(cur, hidden, filter)[q] == out@[q]);
                    }
                }
            } else {
                let mut p: usize = 0;
                while p < out.len() && before(k, &out[p], &x)
                    invariant
                        p <= out.len(),
                        out@ == old_out,
                        forall|q: int| 0 <= q < p ==> sorts_before(k, #[trigger] out@[q], x),
                    decreases out.len() - p,
                {
                    p = p + 1;
                }
                out.insert(p, x);
                proof {
                    assert(out@ == old_out.insert(p as int, x));
                    to_multiset_insert(old_out, p as int, x);
                    if p < old_out.len() {
                        lemma_total(k, old_out[p as int], x);
                    }
                    assert forall|a: int, b: int| 0 <= a < b < out@.len() implies sorts_before(
                        k,
                        #[trigger] out@[a],
                        #[trigger] out@[b],
                    ) by {
                        if b < p {
                            assert(out@[a] == old_out[a] && out@[b] == old_out[b]);
                        } else if a < p && b == p {
                        } else if a < p && b > p {
                            assert(out@[a] == old_out[a] && out@[b] == old_out[b - 1]);
                        } else if a == p {
                            assert(out@[b] == old_out[b - 1]);
                            if b - 1 > p {
                                assert(sorts_before(k, old_out[p as int], old_out[b - 1]));
                                lemma_trans(k, x, old_out[p as int], old_out[b - 1]);
                            }
                        } else {
                            assert(out@[a] == old_out[a - 1]);
                            assert(out@[b] == old_out[b - 1]);
                        }
                    }
                    let k0 = shown_entries(pre, hidden, filter);
                    let k1 = shown_entries(cur, hidden, filter);
                    assert forall|q: int| 0 <= q < out@.len() implies #[trigger] k1.contains(out@[q]) by {
                        if q == p {
                            assert(k1[k0.len() as int] == x);
                        } else {
                            let q0 = if q < p { q } else { q - 1 };
                            assert(out@[q] == old_out[q0]);
                            assert(k0.contains(old_out[q0]));
                            let a = choose|a: int| 0 <= a < k0.len() && k0[a] == old_out[q0];
                            assert(k1[a] == k0[a]);
                        }
                    }
                    assert forall|i: int, j: int|
                        0 <= i < j < out@.len() && sorts_before(k, out@[i], out@[j]) && sorts_before(k, out@[j], out@[i])
                        implies exists|a: int, b: int| 0 <= a < b < k1.len() && k1[a] == out@[i] && k1[b] == out@[j] by {
                        if j == p {
                            assert(k0.contains(old_out[i]));
                            let a = choose|a: int| 0 <= a < k0.len() && k0[a] == old_out[i];
                            assert(k1[a] == out@[i] && k1[k0.len() as int] == out@[j]);
                        } else if i == p {
                            assert(out@[j] == old_out[j - 1]);
                            if j - 1 > p {
                                assert(sorts_before(k, old_out[p as int], old_out[j - 1]));
                                lemma_trans(k, old_out[p as int], old_out[j - 1], x);
                            }
                            assert(false);
                        } else {
                            let i0 = if i < p { i } else { i - 1 };
                            let j0 = if j < p { j } else { j - 1 };
                            assert(out@[i] == old_out[i0] && out@[j] == old_out[j0]);
                            assert(i0 < j0);
                            let (a, b) = choose|a: int, b: int| 0 <= a < b < k0.len() && k0[a] == old_out[i0] && k0[b] == old_out[j0];
                            assert(k1[a] == k0[a] && k1[b] == k0[b]);
                        }
                    }
                }
            }
        } else {
            assert(shown_entries(cur, hidden, filter) == shown_entries(pre, hidden, filter));
        }
        assert(cur == all.subrange(0, i + 1));
        i = i + 1;
    }
    assert(all.subrange(0, i as int) =~= all);
    out
}

} // verus!
