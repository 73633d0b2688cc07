//! The import-graph walk, as a state machine that the caller drives.
//!
//! The walk is a depth-first, pre-order discovery from one entry path. It
//! records each module once, the first time a path is reached, and never
//! changes a record afterwards. The two steps that need the real filesystem
//! are handed back to the caller: canonicalizing a joined path, and reading a
//! file that neither the virtual files nor the builtin namespace provide.
use vstd::prelude::*;
use crate::paths::{
    builtin_path, dep_views, dependencies, deps_of, is_builtin, join, join_path, parent_dir,
    parent_of,
};
use crate::text::{chars_of, string_of};
use crate::vfs::{lookup, same_chars, VirtualFiles};

verus! {

/// One discovered module: its canonical path, its source text, and whether the
/// edge that discovered it asked for forced preprocessing.
pub struct ModuleRecord {
    pub path: String,
    pub content: String,
    pub preprocess: bool,
}

impl View for ModuleRecord {
    type V = (Seq<char>, Seq<char>, bool);

    open spec fn view(&self) -> (Seq<char>, Seq<char>, bool) {
        (self.path@, self.content@, self.preprocess)
    }
}

/// What the walk asks of its caller next.
pub enum WalkStep {
    /// Canonicalize this path against the filesystem and hand the result to
    /// `resolved`.
    Canonicalize(String),
    /// Read this file and hand its text to `content_read`.
    Read(String),
    /// A module was recorded; call `advance` again.
    Discovered,
    /// Every reachable module is recorded.
    Finished,
}

struct Node {
    path: Vec<char>,
    content: Vec<char>,
    preprocess: bool,
}

struct Frame {
    node: usize,
    dir: Vec<char>,
    deps: Vec<(Vec<char>, bool)>,
    next: usize,
}

enum Pending {
    Idle,
    Visit(Vec<char>, bool),
    Resolve(bool),
    Read(Vec<char>, bool),
}

/// The state of one walk.
pub struct ImportWalker {
    nodes: Vec<Node>,
    stack: Vec<Frame>,
    pending: Pending,
    entry: Ghost<Seq<char>>,
    /// For each node, the targets (and flags) of the dependencies followed so
    /// far, in declaration order.
    edges: Ghost<Seq<Seq<(Seq<char>, bool)>>>,
}

/// The targets of a sequence of edges.
pub open spec fn targets(es: Seq<(Seq<char>, bool)>) -> Seq<Seq<char>> {
    es.map_values(|e: (Seq<char>, bool)| e.0)
}

/// `c` is a chain of imports from `entry`: each element is a target of the
/// element before it, under `graph`.
pub open spec fn is_chain(
    graph: spec_fn(Seq<char>) -> Seq<Seq<char>>,
    entry: Seq<char>,
    c: Seq<Seq<char>>,
) -> bool {
    &&& c.len() > 0
    &&& c[0] == entry
    &&& forall|i: int| 0 <= i < c.len() - 1 ==> #[trigger] graph(c[i]).contains(c[i + 1])
}

/// `p` can be reached from `entry` under `graph`.
pub open spec fn reachable(
    graph: spec_fn(Seq<char>) -> Seq<Seq<char>>,
    entry: Seq<char>,
    p: Seq<char>,
) -> bool {
    exists|c: Seq<Seq<char>>| is_chain(graph, entry, c) && c.last() == p
}

impl ImportWalker {
    spec fn node_view(n: Node) -> (Seq<char>, Seq<char>, bool) {
        (n.path@, n.content@, n.preprocess)
    }

    /// The modules recorded so far, in discovery order.
    pub closed spec fn records(&self) -> Seq<(Seq<char>, Seq<char>, bool)> {
        self.nodes@.map_values(|n: Node| Self::node_view(n))
    }

    /// The paths recorded so far, in discovery order.
    pub open spec fn paths(&self) -> Seq<Seq<char>> {
        self.records().map_values(|r: (Seq<char>, Seq<char>, bool)| r.0)
    }

    /// The path the walk starts from.
    pub closed spec fn entry(&self) -> Seq<char> {
        self.entry@
    }

    /// For each recorded module, the dependencies followed from it so far: each
    /// target with its preprocessing flag.
    pub closed spec fn edges(&self) -> Seq<Seq<(Seq<char>, bool)>> {
        self.edges@
    }

    /// Nothing is left to visit.
    pub closed spec fn finished(&self) -> bool {
        self.stack@.len() == 0 && self.pending is Idle
    }

    /// The walk waits for a canonical path.
    pub closed spec fn awaits_path(&self) -> bool {
        self.pending is Resolve
    }

    /// The walk waits for the text of this path.
    pub closed spec fn awaits_content(&self) -> Option<Seq<char>> {
        match self.pending {
            Pending::Read(p, _) => Some(p@),
            _ => None,
        }
    }

    /// The specifier (without its `!`) that the module being scanned is at.
    pub closed spec fn current_specifier(&self) -> Seq<char> {
        let fr = self.stack@[self.top()];
        dep_views(fr.deps@)[fr.next - 1].0
    }

    /// The path that a walk waiting for a canonical path asked about: the
    /// directory of the module being scanned, joined with the specifier it is at.
    pub closed spec fn requested_path(&self) -> Seq<char> {
        join_path(self.stack@[self.top()].dir@, self.current_specifier())
    }

    /// The walk waits for nothing from its caller.
    pub open spec fn ready(&self) -> bool {
        !self.awaits_path() && self.awaits_content() is None
    }

    /// The edges of every recorded module are those that `graph` gives its path.
    pub open spec fn follows(&self, graph: spec_fn(Seq<char>) -> Seq<Seq<char>>) -> bool {
        &&& self.edges().len() == self.paths().len()
        &&& forall|k: int|
            0 <= k < self.paths().len() ==> graph(#[trigger] self.paths()[k]) == targets(
                self.edges()[k],
            )
    }

    spec fn pending_target(&self) -> Option<(Seq<char>, bool)> {
        match self.pending {
            Pending::Visit(p, f) => Some((p@, f)),
            Pending::Read(p, f) => Some((p@, f)),
            _ => None,
        }
    }

    spec fn top_remaining(&self) -> int {
        if self.stack@.len() > 0 {
            self.stack@[self.top()].deps@.len() - self.stack@[self.top()].next
        } else {
            0
        }
    }

    spec fn phase(&self) -> int {
        if self.pending is Visit {
            1
        } else {
            0
        }
    }

    spec fn top(&self) -> int {
        self.stack@.len() - 1
    }

    spec fn frame_ok(&self, f: int) -> bool {
        let fr = self.stack@[f];
        &&& fr.node < self.nodes@.len()
        &&& fr.next <= fr.deps@.len()
        &&& dep_views(fr.deps@) == deps_of(self.paths()[fr.node as int], self.records()[fr.node as int].1)
        &&& fr.dir@ == parent_dir(self.paths()[fr.node as int])
        &&& self.edges@[fr.node as int].len() == fr.next - (if f == self.top()
            && self.pending is Resolve { 1int } else { 0int })
        &&& forall|e: int|
            0 <= e < self.edges@[fr.node as int].len() ==> {
                &&& (#[trigger] self.edges@[fr.node as int][e]).1 == dep_views(fr.deps@)[e].1
                &&& is_builtin(dep_views(fr.deps@)[e].0) ==> self.edges@[fr.node as int][e].0
                    == dep_views(fr.deps@)[e].0
            }
    }

    spec fn on_stack(&self, k: int) -> bool {
        exists|f: int| 0 <= f < self.stack@.len() && self.stack@[f].node == k
    }

    spec fn reached_earlier(&self, k: int) -> bool {
        exists|j: int, e: int|
            0 <= j < k && 0 <= e < self.edges@[j].len() && #[trigger] self.edges@[j][e] == (
                self.paths()[k],
                self.records()[k].2,
            )
    }

    /// The walk's invariant.
    pub closed spec fn wf(&self) -> bool {
        &&& self.edges@.len() == self.nodes@.len()
        &&& forall|i: int, j: int|
            0 <= i < j < self.paths().len() ==> self.paths()[i] != self.paths()[j]
        &&& (self.nodes@.len() == 0 ==> {
            &&& self.stack@.len() == 0
            &&& self.pending_target() == Some((self.entry@, false))
        })
        &&& (self.nodes@.len() > 0 ==> self.paths()[0] == self.entry@)
        &&& forall|f: int| 0 <= f < self.stack@.len() ==> self.frame_ok(f)
        &&& forall|f: int, g: int|
            0 <= f < g < self.stack@.len() ==> self.stack@[f].node < self.stack@[g].node
        &&& forall|k: int|
            0 <= k < self.nodes@.len() && !self.on_stack(k) ==> #[trigger] self.edges@[k].len()
                == deps_of(self.paths()[k], self.records()[k].1).len()
        &&& forall|k: int, e: int|
            0 <= k < self.nodes@.len() && 0 <= e < self.edges@[k].len() ==> self.paths().contains(
                #[trigger] self.edges@[k][e].0,
            ) || self.pending_target() == Some(self.edges@[k][e])
        &&& forall|k: int| 0 < k < self.nodes@.len() ==> #[trigger] self.reached_earlier(k)
        &&& (self.pending_target() is Some && self.nodes@.len() > 0) ==> {
            &&& self.stack@.len() > 0
            &&& self.edges@[self.stack@[self.top()].node as int].len() > 0
            &&& self.edges@[self.stack@[self.top()].node as int].last()
                == self.pending_target()->0
        }
        &&& match self.pending {
            Pending::Read(p, _) => !self.paths().contains(p@),
            Pending::Resolve(f) => {
                let fr = self.stack@[self.top()];
                &&& self.stack@.len() > 0
                &&& fr.next > 0
                &&& !is_builtin(dep_views(fr.deps@)[fr.next - 1].0)
                &&& f == dep_views(fr.deps@)[fr.next - 1].1
            },
            _ => true,
        }
    }
}

impl ImportWalker {
    /// A walk that starts from `entry`, a canonical path (or a builtin one).
    pub fn new(entry: &str) -> (r: Self)
        ensures
            r.wf(),
            r.entry() == entry@,
            r.records().len() == 0,
            r.ready(),
            !r.finished(),
    {
        let e = chars_of(entry);
        let r = ImportWalker {
            nodes: Vec::new(),
            stack: Vec::new(),
            pending: Pending::Visit(e, false),
            entry: Ghost(entry@),
            edges: Ghost(Seq::empty()),
        };
        assert(r.records() =~= Seq::<(Seq<char>, Seq<char>, bool)>::empty());
        r
    }

    fn contains_path(&self, p: &Vec<char>) -> (r: bool)
        ensures
            r == self.paths().contains(p@),
    {
        let mut i: usize = 0;
        while i < self.nodes.len()
            invariant
                i <= self.nodes.len(),
                forall|k: int| 0 <= k < i ==> self.paths()[k] != p@,
            decreases self.nodes.len() - i,
        {
            if same_chars(&self.nodes[i].path, p) {
                assert(self.paths()[i as int] == p@);
                return true;
            }
            i = i + 1;
        }
        false
    }

    /// Records `p` with its text, as the target of the pending visit, and
    /// starts on its dependencies.
    fn record(&mut self, p: Vec<char>, content: Vec<char>, pre: bool)
        requires
            old(self).wf(),
            old(self).pending_target() == Some((p@, pre)),
            !old(self).paths().contains(p@),
        ensures
            final(self).wf(),
            final(self).pending is Idle,
            final(self).entry() == old(self).entry(),
            final(self).records() == old(self).records().push((p@, content@, pre)),
    {
        let deps = dependencies(&p, &content);
        let dir = parent_of(&p);
        let k: usize = self.nodes.len();
        let ghost old_self = *self;
        self.nodes.push(Node { path: p, content, preprocess: pre });
        self.stack.push(Frame { node: k, dir, deps, next: 0 });
        self.pending = Pending::Idle;
        self.edges = Ghost(self.edges@.push(Seq::empty()));
        proof {
            assert(self.records() =~= old_self.records().push((p@, content@, pre)));
            assert(self.paths() =~= old_self.paths().push(p@));
            assert forall|f: int| 0 <= f < self.stack@.len() implies self.frame_ok(f) by {
                if f < self.stack@.len() - 1 {
                    assert(old_self.frame_ok(f));
                }
            }
            assert forall|j: int| 0 <= j < self.nodes@.len() && !self.on_stack(j) implies
                #[trigger] self.edges@[j].len() == deps_of(self.paths()[j], self.records()[j].1).len() by {
                if j == k {
                    assert(self.stack@[self.stack@.len() - 1].node == k);
                    assert(self.on_stack(j));
                } else if old_self.on_stack(j) {
                    let f = choose|f: int| 0 <= f < old_self.stack@.len() && old_self.stack@[f].node == j;
                    assert(self.stack@[f].node == j);
                    assert(self.on_stack(j));
                } else {
                    assert(old_self.edges@[j].len() == deps_of(old_self.paths()[j], old_self.records()[j].1).len());
                }
            }
            assert forall|j: int| 0 < j < self.nodes@.len() implies #[trigger] self.reached_earlier(j) by {
                if j < k {
                    assert(old_self.reached_earlier(j));
                    let (a, b) = choose|a: int, b: int|
                        0 <= a < j && 0 <= b < old_self.edges@[a].len() && #[trigger] old_self.edges@[a][b] == (
                            old_self.paths()[j],
                            old_self.records()[j].2,
                        );
                    assert(self.edges@[a][b] == (self.paths()[j], self.records()[j].2));
                } else {
                    assert(old_self.pending_target() is Some);
                    assert(old_self.frame_ok(old_self.top()));
                    let t = old_self.stack@[old_self.top()].node as int;
                    let b = old_self.edges@[t].len() - 1;
                    assert(self.edges@[t][b] == (self.paths()[j], self.records()[j].2));
                }
            }
            assert forall|a: int, b: int|
                0 <= a < self.nodes@.len() && 0 <= b < self.edges@[a].len() implies self.paths().contains(
                #[trigger] self.edges@[a][b].0,
            ) || self.pending_target() == Some(self.edges@[a][b]) by {
                let x = self.edges@[a][b].0;
                assert(a < k);
                assert(old_self.edges@[a][b] == self.edges@[a][b]);
                if old_self.pending_target() == Some(self.edges@[a][b]) {
                    assert(self.paths()[k as int] == p@);
                } else {
                    let i = choose|i: int| 0 <= i < old_self.paths().len() && old_self.paths()[i] == x;
                    assert(self.paths()[i] == x);
                }
            }
            assert(forall|i: int, j: int|
                0 <= i < j < self.paths().len() ==> self.paths()[i] != self.paths()[j]);
            assert forall|f: int, g: int|
                0 <= f < g < self.stack@.len() implies self.stack@[f].node < self.stack@[g].node by {
                assert(old_self.frame_ok(f));
            }
            assert(self.nodes@.len() > 0 ==> self.paths()[0] == self.entry@);
        }
    }

    /// Takes the walk forward until it needs the caller or records a module.
    pub fn advance(&mut self, files: &VirtualFiles) -> (r: WalkStep)
        requires
            old(self).wf(),
            old(self).ready(),
        ensures
            final(self).wf(),
            final(self).entry() == old(self).entry(),
            match r {
                WalkStep::Finished => {
                    &&& final(self).finished()
                    &&& final(self).records() == old(self).records()
                },
                WalkStep::Discovered => {
                    let n = final(self).records().last();
                    &&& final(self).ready()
                    &&& final(self).records().len() == old(self).records().len() + 1
                    &&& final(self).records().drop_last() == old(self).records()
                    &&& lookup(files@, n.0) == Some(n.1) || (lookup(files@, n.0) is None
                        && is_builtin(n.0) && n.1 == Seq::<char>::empty())
                },
                WalkStep::Read(p) => {
                    &&& final(self).awaits_content() == Some(p@)
                    &&& final(self).records() == old(self).records()
                    &&& !is_builtin(p@)
                    &&& lookup(files@, p@) is None
                },
                WalkStep::Canonicalize(p) => {
                    &&& final(self).awaits_path()
                    &&& p@ == final(self).requested_path()
                    &&& !is_builtin(final(self).current_specifier())
                    &&& final(self).records() == old(self).records()
                },
            },
    {
        loop
            invariant
                self.wf(),
                self.ready(),
                self.entry() == old(self).entry(),
                self.records() == old(self).records(),
            decreases self.stack@.len(), self.top_remaining(), self.phase(),
        {
            let ghost s0 = *self;
            let visit: Option<(Vec<char>, bool)> = match &self.pending {
                Pending::Visit(p, pre) => Some((p.clone(), *pre)),
                _ => None,
            };
            match visit {
                Some((p, pre)) => {
                    assert(s0.pending_target() == Some((p@, pre)));
                    if self.contains_path(&p) {
                        self.pending = Pending::Idle;
                        proof {
                            assert forall|f: int| 0 <= f < self.stack@.len() implies self.frame_ok(f) by {
                                assert(s0.frame_ok(f));
                            }
                            assert forall|j: int| 0 < j < self.nodes@.len() implies #[trigger] self.reached_earlier(j) by {
                                assert(s0.reached_earlier(j));
                            }
                        }
                    } else {
                        match files.lookup_chars(&p) {
                            Some(c) => {
                                self.record(p, c, pre);
                                return WalkStep::Discovered;
                            },
                            None => {
                                if builtin_path(&p) {
                                    let empty: Vec<char> = Vec::new();
                                    self.record(p, empty, pre);
                                    return WalkStep::Discovered;
                                } else {
                                    let out = string_of(&p);
                                    self.pending = Pending::Read(p, pre);
                                    proof {
                                        assert forall|f: int| 0 <= f < self.stack@.len() implies self.frame_ok(f) by {
                                            assert(s0.frame_ok(f));
                                        }
                                        assert forall|j: int| 0 < j < self.nodes@.len() implies #[trigger] self.reached_earlier(j) by {
                                            assert(s0.reached_earlier(j));
                                        }
                                    }
                                    return WalkStep::Read(out);
                                }
                            },
                        }
                    }
                },
                None => {
                    if self.stack.len() == 0 {
                        return WalkStep::Finished;
                    }
                    let top: usize = self.stack.len() - 1;
                    assert(s0.frame_ok(top as int));
                    if self.stack[top].next == self.stack[top].deps.len() {
                        let gone = self.stack.pop();
                        proof {
                            let j = s0.stack@[top as int].node as int;
                            assert forall|f: int| 0 <= f < self.stack@.len() implies self.frame_ok(f) by {
                                assert(s0.frame_ok(f));
                            }
                            assert forall|k: int| 0 <= k < self.nodes@.len() && !self.on_stack(k) implies
                                #[trigger] self.edges@[k].len() == deps_of(self.paths()[k], self.records()[k].1).len() by {
                                if k != j && s0.on_stack(k) {
                                    let f = choose|f: int| 0 <= f < s0.stack@.len() && s0.stack@[f].node == k;
                                    assert(f != top);
                                    assert(self.stack@[f].node == k);
                                }
                            }
                            assert forall|j2: int| 0 < j2 < self.nodes@.len() implies #[trigger] self.reached_earlier(j2) by {
                                assert(s0.reached_earlier(j2));
                            }
                        }
                    } else {
                        let mut fr = self.stack.pop().unwrap();
                        let t: Vec<char> = fr.deps[fr.next].0.clone();
                        let pre: bool = fr.deps[fr.next].1;
                        assert(dep_views(fr.deps@)[fr.next as int] == (t@, pre));
                        fr.next = fr.next + 1;
                        let node: usize = fr.node;
                        if builtin_path(&t) {
                            self.edges = Ghost(self.edges@.update(node as int, self.edges@[node as int].push((t@, pre))));
                            self.stack.push(fr);
                            self.pending = Pending::Visit(t, pre);
                            proof {
                                assert forall|f: int| 0 <= f < self.stack@.len() implies self.frame_ok(f) by {
                                    assert(s0.frame_ok(f));
                                    if f < top {
                                        assert(s0.stack@[f].node < s0.stack@[top as int].node);
                                    }
                                }
                                assert forall|k: int| 0 <= k < self.nodes@.len() && !self.on_stack(k) implies
                                    #[trigger] self.edges@[k].len() == deps_of(self.paths()[k], self.records()[k].1).len() by {
                                    if k == node {
                                        assert(self.stack@[top as int].node == k);
                                    } else if s0.on_stack(k) {
                                        let f = choose|f: int| 0 <= f < s0.stack@.len() && s0.stack@[f].node == k;
                                        assert(self.stack@[f].node == k);
                                    }
                                }
                                assert forall|a: int, b: int|
                                    0 <= a < self.nodes@.len() && 0 <= b < self.edges@[a].len() implies self.paths().contains(
                                    #[trigger] self.edges@[a][b].0,
                                ) || self.pending_target() == Some(self.edges@[a][b]) by {
                                    if a != node || b < s0.edges@[a].len() {
                                        assert(s0.edges@[a][b] == self.edges@[a][b]);
                                    }
                                }
                                assert forall|j: int| 0 < j < self.nodes@.len() implies #[trigger] self.reached_earlier(j) by {
                                    assert(s0.reached_earlier(j));
                                    let (a, b) = choose|a: int, b: int|
                                        0 <= a < j && 0 <= b < s0.edges@[a].len() && #[trigger] s0.edges@[a][b] == (
                                            s0.paths()[j],
                                            s0.records()[j].2,
                                        );
                                    assert(self.edges@[a][b] == s0.edges@[a][b]);
                                }
                            }
                        } else {
                            let target = join(&fr.dir, &t);
                            self.stack.push(fr);
                            self.pending = Pending::Resolve(pre);
                            proof {
                                assert forall|f: int| 0 <= f < self.stack@.len() implies self.frame_ok(f) by {
                                    assert(s0.frame_ok(f));
                                }
                                assert forall|k: int| 0 <= k < self.nodes@.len() && !self.on_stack(k) implies
                                    #[trigger] self.edges@[k].len() == deps_of(self.paths()[k], self.records()[k].1).len() by {
                                    if s0.on_stack(k) {
                                        let f = choose|f: int| 0 <= f < s0.stack@.len() && s0.stack@[f].node == k;
                                        assert(self.stack@[f].node == k);
                                    }
                                }
                                assert forall|j: int| 0 < j < self.nodes@.len() implies #[trigger] self.reached_earlier(j) by {
                                    assert(s0.reached_earlier(j));
                                }
                            }
                            return WalkStep::Canonicalize(string_of(&target));
                        }
                    }
                },
            }
        }
    }

    /// Hands over the canonical form of the path that `advance` asked for.
    pub fn resolved(&mut self, path: &str)
        requires
            old(self).wf(),
            old(self).awaits_path(),
        ensures
            final(self).wf(),
            final(self).ready(),
            final(self).entry() == old(self).entry(),
            final(self).records() == old(self).records(),
    {
        let ghost s0 = *self;
        let pre: bool = match self.pending {
            Pending::Resolve(f) => f,
            _ => false,
        };
        let q = chars_of(path);
        let node: usize = self.stack[self.stack.len() - 1].node;
        let top: usize = self.stack.len() - 1;
        assert(s0.frame_ok(top as int));
        self.edges = Ghost(self.edges@.update(node as int, self.edges@[node as int].push((q@, pre))));
        self.pending = Pending::Visit(q, pre);
        proof {
            assert forall|f: int| 0 <= f < self.stack@.len() implies self.frame_ok(f) by {
                assert(s0.frame_ok(f));
                if f < top {
                    assert(s0.stack@[f].node < s0.stack@[top as int].node);
                }
            }
            assert forall|k: int| 0 <= k < self.nodes@.len() && !self.on_stack(k) implies
                #[trigger] self.edges@[k].len() == deps_of(self.paths()[k], self.records()[k].1).len() by {
                if k == node {
                    assert(self.stack@[top as int].node == k);
                }
            }
            assert forall|a: int, b: int|
                0 <= a < self.nodes@.len() && 0 <= b < self.edges@[a].len() implies self.paths().contains(
                #[trigger] self.edges@[a][b].0,
            ) || self.pending_target() == Some(self.edges@[a][b]) by {
                if a != node || b < s0.edges@[a].len() {
                    assert(s0.edges@[a][b] == self.edges@[a][b]);
                }
            }
            assert forall|j: int| 0 < j < self.nodes@.len() implies #[trigger] self.reached_earlier(j) by {
                assert(s0.reached_earlier(j));
                let (a, b) = choose|a: int, b: int|
                    0 <= a < j && 0 <= b < s0.edges@[a].len() && #[trigger] s0.edges@[a][b] == (
                        s0.paths()[j],
                        s0.records()[j].2,
                    );
                assert(self.edges@[a][b] == s0.edges@[a][b]);
            }
        }
    }

    /// Hands over the text of the file that `advance` asked for; the file is
    /// recorded with it.
    pub fn content_read(&mut self, text: &str)
        requires
            old(self).wf(),
            old(self).awaits_content() is Some,
        ensures
            final(self).wf(),
            final(self).ready(),
            final(self).entry() == old(self).entry(),
            final(self).records().len() == old(self).records().len() + 1,
            final(self).records().drop_last() == old(self).records(),
            final(self).records().last().0 == old(self).awaits_content()->0,
            final(self).records().last().1 == text@,
    {
        let visit: Option<(Vec<char>, bool)> = match &self.pending {
            Pending::Read(p, pre) => Some((p.clone(), *pre)),
            _ => None,
        };
        let c = chars_of(text);
        match visit {
            Some((p, pre)) => {
                self.record(p, c, pre);
            },
            None => {},
        }
    }

    /// The recorded modules, in discovery order.
    pub fn modules(&self) -> (r: Vec<ModuleRecord>)
        ensures
            r@.map_values(|m: ModuleRecord| m@) == self.records(),
    {
        let mut out: Vec<ModuleRecord> = Vec::new();
        let mut i: usize = 0;
        while i < self.nodes.len()
            invariant
                i <= self.nodes.len(),
                out@.map_values(|m: ModuleRecord| m@) == self.records().subrange(0, i as int),
            decreases self.nodes.len() - i,
        {
            let n = &self.nodes[i];
            let m = ModuleRecord {
                path: string_of(&n.path),
                content: string_of(&n.content),
                preprocess: n.preprocess,
            };
            assert(self.records()[i as int] == m@);
            let ghost prev = out@;
            out.push(m);
            assert(out@.map_values(|m: ModuleRecord| m@) =~= prev.map_values(|m: ModuleRecord| m@).push(m@));
            i = i + 1;
            assert(out@.map_values(|m: ModuleRecord| m@) =~= self.records().subrange(0, i as int));
        }
        assert(self.records().subrange(0, i as int) =~= self.records());
        out
    }
}

proof fn lemma_chain_end_recorded(
    w: ImportWalker,
    graph: spec_fn(Seq<char>) -> Seq<Seq<char>>,
    c: Seq<Seq<char>>,
)
    requires
        w.wf(),
        w.finished(),
        w.follows(graph),
        is_chain(graph, w.entry(), c),
    ensures
        w.paths().contains(c.last()),
    decreases c.len(),
{
    if c.len() == 1 {
        assert(w.paths()[0] == c.last());
    } else {
        let c2 = c.drop_last();
        assert(is_chain(graph, w.entry(), c2)) by {
            assert forall|i: int| 0 <= i < c2.len() - 1 implies #[trigger] graph(c2[i]).contains(c2[i + 1]) by {
                assert(graph(c[i]).contains(c[i + 1]));
            }
        }
        lemma_chain_end_recorded(w, graph, c2);
        let q = c2.last();
        let k = choose|k: int| 0 <= k < w.paths().len() && w.paths()[k] == q;
        let i = c.len() - 2;
        assert(graph(c[i]).contains(c[i + 1]));
        assert(graph(q) == targets(w.edges()[k]));
        let e = choose|e: int| 0 <= e < targets(w.edges()[k]).len() && targets(w.edges()[k])[e] == c.last();
        assert(w.edges@[k][e].0 == c.last());
    }
}

proof fn lemma_recorded_is_reachable(
    w: ImportWalker,
    graph: spec_fn(Seq<char>) -> Seq<Seq<char>>,
    k: int,
)
    requires
        w.wf(),
        w.follows(graph),
        0 <= k < w.paths().len(),
    ensures
        reachable(graph, w.entry(), w.paths()[k]),
    decreases k,
{
    if k == 0 {
        let c = seq![w.entry()];
        assert(w.paths()[0] == w.entry());
        assert(c.last() == w.paths()[0]);
        assert(is_chain(graph, w.entry(), c));
    } else {
        assert(w.reached_earlier(k));
        let (j, e) = choose|j: int, e: int|
            0 <= j < k && 0 <= e < w.edges@[j].len() && #[trigger] w.edges@[j][e] == (
                w.paths()[k],
                w.records()[k].2,
            );
        lemma_recorded_is_reachable(w, graph, j);
        let c = choose|c: Seq<Seq<char>>| is_chain(graph, w.entry(), c) && c.last() == w.paths()[j];
        let c2 = c.push(w.paths()[k]);
        assert(graph(w.paths()[j]) == targets(w.edges()[j]));
        assert(targets(w.edges()[j])[e] == w.paths()[k]);
        assert(is_chain(graph, w.entry(), c2)) by {
            assert forall|i: int| 0 <= i < c2.len() - 1 implies #[trigger] graph(c2[i]).contains(c2[i + 1]) by {
                if i < c.len() - 1 {
                    assert(c2[i] == c[i] && c2[i + 1] == c[i + 1]);
                    assert(graph(c[i]).contains(c[i + 1]));
                }
            }
        }
        assert(c2.last() == w.paths()[k]);
    }
}

/// A finished walk records every path that can be reached from its entry,
/// and records it exactly once, however many modules import it.
pub proof fn lemma_walk_records_reachable_once(
    w: ImportWalker,
    graph: spec_fn(Seq<char>) -> Seq<Seq<char>>,
    p: Seq<char>,
)
    requires
        w.wf(),
        w.finished(),
        w.follows(graph),
        reachable(graph, w.entry(), p),
    ensures
        exists|k: int| 0 <= k < w.paths().len() && w.paths()[k] == p,
        forall|i: int, j: int|
            0 <= i < w.paths().len() && 0 <= j < w.paths().len() && w.paths()[i] == p
                && w.paths()[j] == p ==> i == j,
{
    let c = choose|c: Seq<Seq<char>>| is_chain(graph, w.entry(), c) && c.last() == p;
    lemma_chain_end_recorded(w, graph, c);
}

/// A walk records only paths that can be reached from its entry.
pub proof fn lemma_walk_records_only_reachable(
    w: ImportWalker,
    graph: spec_fn(Seq<char>) -> Seq<Seq<char>>,
    k: int,
)
    requires
        w.wf(),
        w.follows(graph),
        0 <= k < w.paths().len(),
    ensures
        reachable(graph, w.entry(), w.paths()[k]),
{
    lemma_recorded_is_reachable(w, graph, k);
}

/// Two finished walks from the same entry over the same imports record the
/// same set of paths.
pub proof fn lemma_walks_agree_on_membership(
    a: ImportWalker,
    b: ImportWalker,
    graph: spec_fn(Seq<char>) -> Seq<Seq<char>>,
)
    requires
        a.wf(),
        b.wf(),
        a.finished(),
        b.finished(),
        a.follows(graph),
        b.follows(graph),
        a.entry() == b.entry(),
    ensures
        a.paths().to_set() == b.paths().to_set(),
{
    assert forall|p: Seq<char>| a.paths().to_set().contains(p) implies b.paths().to_set().contains(p) by {
        let k = choose|k: int| 0 <= k < a.paths().len() && a.paths()[k] == p;
        lemma_recorded_is_reachable(a, graph, k);
        lemma_walk_records_reachable_once(b, graph, p);
    }
    assert forall|p: Seq<char>| b.paths().to_set().contains(p) implies a.paths().to_set().contains(p) by {
        let k = choose|k: int| 0 <= k < b.paths().len() && b.paths()[k] == p;
        lemma_recorded_is_reachable(b, graph, k);
        lemma_walk_records_reachable_once(a, graph, p);
    }
    assert(a.paths().to_set() =~= b.paths().to_set());
}

/// Every recorded module but the entry was reached by an edge of a module
/// recorded before it, and its preprocessing flag is that edge's flag. Since
/// `advance`, `resolved` and `content_read` only ever append records, the edge
/// that first reaches a path fixes its flag for good.
pub proof fn lemma_flag_comes_from_discovering_edge(w: ImportWalker, k: int)
    requires
        w.wf(),
        0 < k < w.records().len(),
    ensures
        exists|j: int, e: int|
            0 <= j < k && 0 <= e < w.edges()[j].len() && #[trigger] w.edges()[j][e] == (
                w.records()[k].0,
                w.records()[k].2,
            ),
{
    assert(w.reached_earlier(k));
    let (j, e) = choose|j: int, e: int|
        0 <= j < k && 0 <= e < w.edges@[j].len() && #[trigger] w.edges@[j][e] == (
            w.paths()[k],
            w.records()[k].2,
        );
    assert(w.edges()[j][e] == (w.records()[k].0, w.records()[k].2));
}

} // verus!
