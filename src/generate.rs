//! Program text for the engine: one fragment per module, in the order given,
//! then one retrieve-and-run statement per entry.
use vstd::prelude::*;
use crate::paths::{builtin_path, bundle_path, is_builtin, is_bundle, is_script, is_js_executable};
use crate::syntax::{scan, scan_text, views, LineSyntax};
use crate::text::{chars_of, push_chars, push_str, string_of};

verus! {

/// How a module is rendered.
#[derive(Clone, Copy, Debug, PartialEq, Eq, Structural)]
pub enum ModuleKind {
    /// Runs at once, where it stands in the program.
    Builtin,
    /// Emitted as it is; it registers its own modules.
    Bundle,
    /// A lazily registered module whose body runs the source.
    Script,
    /// A lazily registered module whose body hands the raw text to the
    /// preprocessor.
    Asset,
}

/// How a path is rendered: builtin first, then bundle, then script.
pub open spec fn kind_of(p: Seq<char>) -> ModuleKind {
    if is_builtin(p) {
        ModuleKind::Builtin
    } else if is_bundle(p) {
        ModuleKind::Bundle
    } else if is_script(p) {
        ModuleKind::Script
    } else {
        ModuleKind::Asset
    }
}

/// The ways text is escaped for embedding.
#[derive(Clone, Copy, Debug, PartialEq, Eq, Structural)]
pub enum Escaping {
    /// Inside a quoted string: backslash and both quotes.
    Quoted,
    /// Inside a template literal: backslash, backtick and `$`.
    Template,
    /// Backslash only.
    Backslash,
}

/// What one character becomes.
pub open spec fn escape_char(mode: Escaping, c: char) -> Seq<char> {
    if c == '\\' {
        seq!['\\', '\\']
    } else if (mode == Escaping::Quoted && (c == '\'' || c == '"')) || (mode == Escaping::Template
        && (c == '`' || c == '$')) {
        seq!['\\', c]
    } else {
        seq![c]
    }
}

/// `s` with every character escaped.
pub open spec fn escaped(mode: Escaping, s: Seq<char>) -> Seq<char>
    decreases s.len(),
{
    if s.len() == 0 {
        Seq::empty()
    } else {
        escaped(mode, s.drop_last()) + escape_char(mode, s.last())
    }
}

/// The fragment of one module.
pub open spec fn fragment(p: Seq<char>, src: Seq<char>) -> Seq<char> {
    let id = escaped(Escaping::Quoted, p);
    match kind_of(p) {
        ModuleKind::Builtin => "(function(module){\n"@ + src + "\n})({filename: \""@ + id + "\"});"@,
        ModuleKind::Bundle => src,
        ModuleKind::Script => "rew.prototype.mod.prototype.defineNew(\""@ + id + "\", {\n\""@ + id
            + "\"(globalThis){\nwith (globalThis) {\n  "@ + src
            + "\n}\nreturn globalThis.module.exports;\n}\n}, []);"@,
        ModuleKind::Asset => "rew.prototype.mod.prototype.defineNew(\""@ + id
            + "\", function(globalThis){\n  return rew.prototype.mod.prototype.preprocess(\""@ + id
            + "\", `"@ + escaped(Escaping::Template, src) + "`);\n}, []);"@,
    }
}

/// The fragments of the modules, concatenated in order.
pub open spec fn fragments(ms: Seq<(Seq<char>, Seq<char>)>) -> Seq<char>
    decreases ms.len(),
{
    if ms.len() == 0 {
        Seq::empty()
    } else {
        fragments(ms.drop_last()) + fragment(ms.last().0, ms.last().1)
    }
}

/// The entry names that the bundles among the modules mark, in order.
pub open spec fn marked_entries(ms: Seq<(Seq<char>, Seq<char>)>) -> Seq<Seq<char>>
    decreases ms.len(),
{
    if ms.len() == 0 {
        Seq::empty()
    } else if kind_of(ms.last().0) == ModuleKind::Bundle {
        marked_entries(ms.drop_last()) + scan_text(LineSyntax::Entry, ms.last().1)
    } else {
        marked_entries(ms.drop_last())
    }
}

/// The entries to run: those the bundles mark; where there are none, the
/// entry file itself, unless it is a bundle.
pub open spec fn entries_to_run(ms: Seq<(Seq<char>, Seq<char>)>, entry: Option<Seq<char>>) -> Seq<Seq<char>> {
    let marked = marked_entries(ms);
    match entry {
        Some(e) => if marked.len() == 0 && !is_bundle(e) {
            seq![e]
        } else {
            marked
        },
        None => marked,
    }
}

/// The statement that retrieves and runs the module `name`.
pub open spec fn entry_call(name: Seq<char>) -> Seq<char> {
    "rew.prototype.mod.prototype.get('"@ + escaped(Escaping::Backslash, name) + "');"@
}

/// One line per entry, each after a newline.
pub open spec fn entry_calls(names: Seq<Seq<char>>) -> Seq<char>
    decreases names.len(),
{
    if names.len() == 0 {
        Seq::empty()
    } else {
        entry_calls(names.drop_last()) + "\n"@ + entry_call(names.last())
    }
}

/// The whole program for the modules and the entry file.
pub open spec fn program(ms: Seq<(Seq<char>, Seq<char>)>, entry: Option<Seq<char>>) -> Seq<char> {
    fragments(ms) + entry_calls(entries_to_run(ms, entry))
}

/// The views of a list of (path, source) pairs.
pub open spec fn file_views(v: Seq<(String, String)>) -> Seq<(Seq<char>, Seq<char>)> {
    v.map_values(|f: (String, String)| (f.0@, f.1@))
}

/// Appends `s`, escaped, to `out`.
pub fn push_escaped(out: &mut Vec<char>, mode: Escaping, s: &Vec<char>)
    ensures
        final(out)@ == old(out)@ + escaped(mode, s@),
{
    let ghost start = out@;
    let mut i: usize = 0;
    while i < s.len()
        invariant
            i <= s.len(),
            out@ == start + escaped(mode, s@.subrange(0, i as int)),
        decreases s.len() - i,
    {
        let c = s[i];
        let ghost before = out@;
        if c == '\\' {
            out.push('\\');
            out.push('\\');
        } else if (mode == Escaping::Quoted && (c == '\'' || c == '"')) || (mode == Escaping::Template
            && (c == '`' || c == '$')) {
            out.push('\\');
            out.push(c);
        } else {
            out.push(c);
        }
        assert(out@ =~= before + escape_char(mode, c));
        assert(s@.subrange(0, i + 1).drop_last() =~= s@.subrange(0, i as int));
        i = i + 1;
    }
    assert(s@.subrange(0, i as int) =~= s@);
}

/// Appends the fragment of one module to `out`.
pub fn push_fragment(out: &mut Vec<char>, p: &Vec<char>, src: &Vec<char>)
    ensures
        final(out)@ == old(out)@ + fragment(p@, src@),
{
    let ghost start = out@;
    let mut id: Vec<char> = Vec::new();
    push_escaped(&mut id, Escaping::Quoted, p);
    assert(id@ =~= escaped(Escaping::Quoted, p@));
    if builtin_path(p) {
        push_str(out, "(function(module){\n");
        push_chars(out, src);
        push_str(out, "\n})({filename: \"");
        push_chars(out, &id);
        push_str(out, "\"});");
    } else if bundle_path(p) {
        push_chars(out, src);
    } else if is_js_executable(&string_of(p)) {
        push_str(out, "rew.prototype.mod.prototype.defineNew(\"");
        push_chars(out, &id);
        push_str(out, "\", {\n\"");
        push_chars(out, &id);
        push_str(out, "\"(globalThis){\nwith (globalThis) {\n  ");
        push_chars(out, src);
        push_str(out, "\n}\nreturn globalThis.module.exports;\n}\n}, []);");
    } else {
        push_str(out, "rew.prototype.mod.prototype.defineNew(\"");
        push_chars(out, &id);
        push_str(out, "\", function(globalThis){\n  return rew.prototype.mod.prototype.preprocess(\"");
        push_chars(out, &id);
        push_str(out, "\", `");
        push_escaped(out, Escaping::Template, src);
        push_str(out, "`);\n}, []);");
    }
    assert(out@ =~= start + fragment(p@, src@));
}

/// Renders the modules, in the order given, and the statements that run the
/// entries: those that bundles mark, or else the entry file itself.
pub fn prepare(files: &Vec<(String, String)>, entry: Option<&str>) -> (r: String)
    ensures
        r@ == program(file_views(files@), match entry {
            Some(e) => Some(e@),
            None => None,
        }),
{
    let ghost ms = file_views(files@);
    let mut out: Vec<char> = Vec::new();
    let mut names: Vec<Vec<char>> = Vec::new();
    let mut i: usize = 0;
    assert(out@ =~= fragments(ms.subrange(0, 0)));
    assert(views(names@) =~= marked_entries(ms.subrange(0, 0)));
    while i < files.len()
        invariant
            i <= files.len(),
            ms == file_views(files@),
            out@ == fragments(ms.subrange(0, i as int)),
            views(names@) == marked_entries(ms.subrange(0, i as int)),
        decreases files.len() - i,
    {
        let p = chars_of(files[i].0.as_str());
        let src = chars_of(files[i].1.as_str());
        assert(ms.subrange(0, i + 1).drop_last() =~= ms.subrange(0, i as int));
        assert(ms.subrange(0, i + 1).last() == (p@, src@));
        push_fragment(&mut out, &p, &src);
        if !builtin_path(&p) && bundle_path(&p) {
            let found = scan(LineSyntax::Entry, &src);
            let mut k: usize = 0;
            let ghost base = views(names@);
            while k < found.len()
                invariant
                    k <= found.len(),
                    views(names@) == base + views(found@).subrange(0, k as int),
                decreases found.len() - k,
            {
                let ghost prev = names@;
                names.push(found[k].clone());
                assert(views(names@) =~= views(prev).push(found@[k as int]@));
                k = k + 1;
                assert(views(names@) =~= base + views(found@).subrange(0, k as int));
            }
            assert(views(found@).subrange(0, k as int) =~= views(found@));
        }
        i = i + 1;
    }
    assert(ms.subrange(0, i as int) =~= ms);
    let ghost entry_view: Option<Seq<char>> = match entry {
        Some(e) => Some(e@),
        None => None,
    };
    let mut run: Vec<Vec<char>> = names;
    match entry {
        Some(e) => {
            let ec = chars_of(e);
            if run.len() == 0 && !bundle_path(&ec) {
                run.push(ec);
                assert(views(run@) =~= seq![e@]);
            }
        },
        None => {},
    }
    assert(views(run@) == entries_to_run(ms, entry_view));
    let ghost frag = out@;
    let mut j: usize = 0;
    assert(views(run@).subrange(0, 0) =~= Seq::<Seq<char>>::empty());
    while j < run.len()
        invariant
            j <= run.len(),
            out@ == frag + entry_calls(views(run@).subrange(0, j as int)),
        decreases run.len() - j,
    {
        push_str(&mut out, "\n");
        push_str(&mut out, "rew.prototype.mod.prototype.get('");
        push_escaped(&mut out, Escaping::Backslash, &run[j]);
        push_str(&mut out, "');");
        assert(views(run@).subrange(0, j + 1).drop_last() =~= views(run@).subrange(0, j as int));
        j = j + 1;
        assert(out@ =~= frag + entry_calls(views(run@).subrange(0, j as int)));
    }
    assert(views(run@).subrange(0, j as int) =~= views(run@));
    string_of(&out)
}

/// Where the bundles mark entries, exactly those run, in marker order, and the
/// entry file gets no statement of its own; where they mark none, a plain
/// entry file runs alone, last, and a bundle entry file runs nothing.
pub proof fn lemma_entry_statements(ms: Seq<(Seq<char>, Seq<char>)>, entry: Seq<char>)
    ensures
        marked_entries(ms).len() > 0 ==> entries_to_run(ms, Some(entry)) == marked_entries(ms),
        marked_entries(ms).len() == 0 && !is_bundle(entry) ==> entries_to_run(ms, Some(entry))
            == seq![entry],
        marked_entries(ms).len() == 0 && is_bundle(entry) ==> entries_to_run(ms, Some(entry)).len()
            == 0,
        program(ms, Some(entry)) == fragments(ms) + entry_calls(entries_to_run(ms, Some(entry))),
{
}

} // verus!
