//! The reactive graph arena and its dependency tracker.

use vstd::prelude::*;

verus! {

/// What a node of the graph is.
#[derive(Clone, Copy, Debug, PartialEq, Eq, Structural)]
pub enum NodeKind {
    /// A mutable value holder, changed only by `write`.
    Cell,
    /// A cached computation, re-evaluated lazily when read while dirty.
    Memo,
    /// A side-effecting subscriber, re-run eagerly after every write it depends on.
    Effect,
}

/// One entry of the evaluation stack: the node being evaluated and the nodes it
/// has read so far, in order of first read.
pub struct ScopeModel {
    pub owner: usize,
    pub reads: Seq<usize>,
}

/// The mathematical content of a graph: one entry per node in each sequence.
pub struct GraphModel<V> {
    pub kinds: Seq<NodeKind>,
    /// The current value of a cell, the cached value of a memo (`None` before its
    /// first evaluation and for effects).
    pub values: Seq<Option<V>>,
    /// Writes received by a cell; completed runs of a memo or an effect.
    pub versions: Seq<u64>,
    pub dirty: Seq<bool>,
    /// The dependencies observed during the node's most recent run.
    pub deps: Seq<Seq<usize>>,
    /// The evaluation stack, innermost scope last.
    pub scopes: Seq<ScopeModel>,
}

/// `j` depends on `src` through a chain of at most `k` dependency edges.
pub open spec fn depends_within(deps: Seq<Seq<usize>>, j: int, src: int, k: nat) -> bool
    decreases k,
{
    j == src || (k > 0 && 0 <= j < deps.len() && exists|t: int|
        0 <= t < deps[j].len() && depends_within(
            deps,
            (#[trigger] deps[j][t]) as int,
            src,
            (k - 1) as nat,
        ))
}

/// `j` is `src` or depends on it, directly or through other nodes.
pub open spec fn depends_on(deps: Seq<Seq<usize>>, j: int, src: int) -> bool {
    exists|k: nat| depends_within(deps, j, src, k)
}

/// `j` is a proper dependent of `src`: one of the nodes a write to `src` reaches.
pub open spec fn affected(deps: Seq<Seq<usize>>, j: int, src: int) -> bool {
    j != src && depends_on(deps, j, src)
}

impl<V> GraphModel<V> {
    /// The graph without nodes and with no evaluation in progress.
    pub open spec fn empty() -> GraphModel<V> {
        GraphModel {
            kinds: Seq::empty(),
            values: Seq::empty(),
            versions: Seq::empty(),
            dirty: Seq::empty(),
            deps: Seq::empty(),
            scopes: Seq::empty(),
        }
    }

    /// The number of nodes.
    pub open spec fn len(self) -> nat {
        self.kinds.len()
    }

    /// The shape and the standing invariants of a graph.
    pub open spec fn wf(self) -> bool {
        let n = self.kinds.len();
        &&& self.values.len() == n
        &&& self.versions.len() == n
        &&& self.dirty.len() == n
        &&& self.deps.len() == n
        &&& forall|j: int, t: int|
            0 <= j < n && 0 <= t < self.deps[j].len() ==> (#[trigger] self.deps[j][t]) < n
        &&& forall|j: int| 0 <= j < n ==> (#[trigger] self.deps[j]).no_duplicates()
        &&& forall|j: int|
            0 <= j < n && #[trigger] self.kinds[j] == NodeKind::Cell ==> self.deps[j].len() == 0
                && !self.dirty[j]
        &&& forall|j: int|
            0 <= j < n && self.kinds[j] != NodeKind::Effect && !(#[trigger] self.dirty[j])
                ==> self.values[j].is_some()
        &&& forall|j: int, t: int|
            0 <= j < n && !self.dirty[j] && 0 <= t < self.deps[j].len()
                ==> !self.dirty[(#[trigger] self.deps[j][t]) as int]
        &&& forall|l: int|
            0 <= l < self.scopes.len() ==> {
                &&& (#[trigger] self.scopes[l]).owner < n
                &&& self.kinds[self.scopes[l].owner as int] != NodeKind::Cell
                &&& self.scopes[l].reads.no_duplicates()
            }
        &&& forall|l: int, t: int|
            0 <= l < self.scopes.len() && 0 <= t < self.scopes[l].reads.len() ==> {
                &&& (#[trigger] self.scopes[l].reads[t]) < n
                &&& !self.dirty[self.scopes[l].reads[t] as int]
                &&& self.kinds[self.scopes[l].reads[t] as int] != NodeKind::Effect
            }
    }

    /// The graph after a write of `value` to cell `id`: the value is stored, the
    /// version grows by one, and every proper dependent of the cell is dirty,
    /// whether or not the value differs from the one before.
    pub open spec fn write_step(self, id: usize, value: V) -> GraphModel<V> {
        GraphModel {
            values: self.values.update(id as int, Some(value)),
            versions: self.versions.update(id as int, (self.versions[id as int] + 1) as u64),
            dirty: Seq::new(
                self.dirty.len(),
                |j: int| self.dirty[j] || affected(self.deps, j, id as int),
            ),
            ..self
        }
    }

    /// Whether a write to cell `id` is in order while the evaluations on the stack
    /// are in progress. A memo's evaluation is free of side effects, so none may
    /// be under way; and an effect must not write to what it has read, directly
    /// or through memos. With no evaluation in progress every cell is writable.
    pub open spec fn writable(self, id: usize) -> bool {
        &&& forall|l: int|
            0 <= l < self.scopes.len() ==> self.kinds[(#[trigger] self.scopes[l]).owner as int]
                == NodeKind::Effect
        &&& forall|l: int, t: int|
            0 <= l < self.scopes.len() && 0 <= t < self.scopes[l].reads.len() ==> !depends_on(
                self.deps,
                (#[trigger] self.scopes[l].reads[t]) as int,
                id as int,
            )
    }

    /// Whether a write to cell `id` makes `e` run: `e` is an effect that depends
    /// on the cell, directly or through memos.
    pub open spec fn triggers(self, id: usize, e: usize) -> bool {
        &&& e < self.len()
        &&& self.kinds[e as int] == NodeKind::Effect
        &&& affected(self.deps, e as int, id as int)
    }

    /// What a read of `id` yields: the value of a clean node, nothing for a dirty
    /// one, which has to be evaluated first.
    pub open spec fn read_result(self, id: usize) -> Option<V> {
        if self.dirty[id as int] {
            None
        } else {
            self.values[id as int]
        }
    }

    /// The graph after a read of `id`: a clean node is recorded in the innermost
    /// scope, a dirty one changes nothing.
    pub open spec fn read_step(self, id: usize) -> GraphModel<V> {
        GraphModel {
            scopes: if self.dirty[id as int] {
                self.scopes
            } else {
                record_read(self.scopes, id)
            },
            ..self
        }
    }

    /// The graph after a fresh, empty scope was opened for an evaluation of `id`.
    pub open spec fn begin_step(self, id: usize) -> GraphModel<V> {
        GraphModel {
            scopes: self.scopes.push(ScopeModel { owner: id, reads: Seq::empty() }),
            ..self
        }
    }

    /// The graph after the innermost scope, owned by `id`, was closed.
    pub open spec fn close_step(self, id: usize) -> GraphModel<V> {
        GraphModel {
            versions: self.versions.update(id as int, (self.versions[id as int] + 1) as u64),
            dirty: self.dirty.update(id as int, false),
            deps: self.deps.update(id as int, self.scopes.last().reads),
            scopes: self.scopes.drop_last(),
            ..self
        }
    }

    /// The graph after memo `id` finished its evaluation with `value`.
    pub open spec fn finish_memo_step(self, id: usize, value: V) -> GraphModel<V> {
        let closed = self.close_step(id);
        GraphModel {
            values: closed.values.update(id as int, Some(value)),
            scopes: record_read(closed.scopes, id),
            ..closed
        }
    }

    /// The nodes that currently list `id` among their dependencies.
    pub open spec fn subscribers(self, id: int) -> Set<int> {
        Set::new(|j: int| 0 <= j < self.deps.len() && self.deps[j].contains(id as usize))
    }
}

/// A reactive graph over values of type `V`.
pub struct Graph<V> {
    kinds: Vec<NodeKind>,
    values: Vec<Option<V>>,
    versions: Vec<u64>,
    dirty: Vec<bool>,
    deps: Vec<Vec<usize>>,
    scope_owners: Vec<usize>,
    scope_reads: Vec<Vec<usize>>,
}

impl<V> View for Graph<V> {
    type V = GraphModel<V>;

    closed spec fn view(&self) -> GraphModel<V> {
        GraphModel {
            kinds: self.kinds@,
            values: self.values@,
            versions: self.versions@,
            dirty: self.dirty@,
            deps: Seq::new(self.deps@.len(), |j: int| self.deps@[j]@),
            scopes: Seq::new(
                self.scope_owners@.len(),
                |l: int| ScopeModel { owner: self.scope_owners@[l], reads: self.scope_reads@[l]@ },
            ),
        }
    }
}

/// The evaluation stack after a read of `id` has been attributed: the read goes
/// to the innermost scope only, and only once.
pub open spec fn record_read(scopes: Seq<ScopeModel>, id: usize) -> Seq<ScopeModel> {
    if scopes.len() == 0 || scopes.last().reads.contains(id) {
        scopes
    } else {
        scopes.update(
            scopes.len() - 1,
            ScopeModel { owner: scopes.last().owner, reads: scopes.last().reads.push(id) },
        )
    }
}

/// Membership in a sequence that grew by one element.
proof fn lemma_push_contains(s: Seq<usize>, v: usize, x: usize)
    ensures
        s.push(v).contains(x) <==> (s.contains(x) || x == v),
{
    if s.contains(x) {
        let t = choose|t: int| 0 <= t < s.len() && s[t] == x;
        assert(s.push(v)[t] == x);
    }
    if x == v {
        assert(s.push(v)[s.len() as int] == x);
    }
    if s.push(v).contains(x) {
        let t = choose|t: int| 0 <= t < s.push(v).len() && s.push(v)[t] == x;
        if t < s.len() {
            assert(s[t] == x);
        }
    }
}

/// How many entries of `s` are set.
pub open spec fn count_set(s: Seq<bool>) -> nat
    decreases s.len(),
{
    if s.len() == 0 {
        0
    } else {
        count_set(s.drop_last()) + if s.last() {
            1nat
        } else {
            0nat
        }
    }
}

proof fn lemma_count_bounded(s: Seq<bool>)
    ensures
        count_set(s) <= s.len(),
    decreases s.len(),
{
    if s.len() > 0 {
        lemma_count_bounded(s.drop_last());
    }
}

proof fn lemma_count_grows(s: Seq<bool>, i: int)
    requires
        0 <= i < s.len(),
        !s[i],
    ensures
        count_set(s.update(i, true)) == count_set(s) + 1,
    decreases s.len(),
{
    let u = s.update(i, true);
    if i == s.len() - 1 {
        assert(u.drop_last() =~= s.drop_last());
    } else {
        assert(u.drop_last() =~= s.drop_last().update(i, true));
        lemma_count_grows(s.drop_last(), i);
    }
}

/// A set of nodes that holds `src` and, with a node, everything that lists the
/// node among its dependencies holds every node that depends on `src`.
proof fn lemma_closed_holds_dependents(
    deps: Seq<Seq<usize>>,
    marked: Seq<bool>,
    src: int,
    j: int,
    k: nat,
)
    requires
        marked.len() == deps.len(),
        0 <= src < deps.len(),
        marked[src],
        forall|x: int, t: int|
            0 <= x < deps.len() && 0 <= t < deps[x].len() ==> (#[trigger] deps[x][t]) < deps.len(),
        forall|x: int, t: int|
            0 <= x < deps.len() && 0 <= t < deps[x].len() && marked[(#[trigger] deps[x][t]) as int]
                ==> marked[x],
        depends_within(deps, j, src, k),
    ensures
        0 <= j < deps.len(),
        marked[j],
    decreases k,
{
    if j != src {
        let t = choose|t: int|
            0 <= t < deps[j].len() && depends_within(
                deps,
                (#[trigger] deps[j][t]) as int,
                src,
                (k - 1) as nat,
            );
        lemma_closed_holds_dependents(deps, marked, src, deps[j][t] as int, (k - 1) as nat);
    }
}

/// A node that lists among its dependencies a node depending on `src` depends
/// on `src` itself.
pub proof fn lemma_dependent_of_dependent(deps: Seq<Seq<usize>>, j: int, t: int, src: int)
    requires
        0 <= j < deps.len(),
        0 <= t < deps[j].len(),
        depends_on(deps, deps[j][t] as int, src),
    ensures
        depends_on(deps, j, src),
{
    let k = choose|k: nat| depends_within(deps, deps[j][t] as int, src, k);
    assert(depends_within(deps, deps[j][t] as int, src, ((k + 1) - 1) as nat));
    assert(depends_within(deps, j, src, k + 1));
}

/// A proper dependent of `src` has at least one dependency.
proof fn lemma_affected_has_dependency(deps: Seq<Seq<usize>>, j: int, src: int)
    requires
        affected(deps, j, src),
    ensures
        0 <= j < deps.len(),
        deps[j].len() > 0,
{
    let k = choose|k: nat| depends_within(deps, j, src, k);
    assert(depends_within(deps, j, src, k));
}

/// Whether some node listed in `deps` is marked.
fn any_marked(deps: &Vec<usize>, marked: &Vec<bool>) -> (found: bool)
    requires
        forall|t: int| 0 <= t < deps@.len() ==> deps@[t] < marked@.len(),
    ensures
        found == exists|t: int| 0 <= t < deps@.len() && marked@[(#[trigger] deps@[t]) as int],
{
    let mut i: usize = 0;
    while i < deps.len()
        invariant
            i <= deps.len(),
            forall|t: int| 0 <= t < deps@.len() ==> deps@[t] < marked@.len(),
            forall|t: int| 0 <= t < i ==> !marked@[(#[trigger] deps@[t]) as int],
        decreases deps.len() - i,
    {
        if marked[deps[i]] {
            return true;
        }
        i += 1;
    }
    false
}

/// Whether `x` occurs in `v`.
fn vec_contains(v: &Vec<usize>, x: usize) -> (found: bool)
    ensures
        found == v@.contains(x),
{
    let mut i: usize = 0;
    while i < v.len()
        invariant
            i <= v.len(),
            forall|t: int| 0 <= t < i ==> v@[t] != x,
        decreases v.len() - i,
    {
        if v[i] == x {
            return true;
        }
        i += 1;
    }
    false
}

impl<V> Graph<V> {
    /// The two halves of the evaluation stack have one length.
    pub closed spec fn aligned(&self) -> bool {
        self.scope_owners@.len() == self.scope_reads@.len()
    }

    /// The graph is well formed: its model is, and its representation is sound.
    pub open spec fn wf(&self) -> bool {
        &&& self@.wf()
        &&& self.aligned()
    }

    /// An empty graph with no evaluation in progress.
    pub fn new() -> (g: Self)
        ensures
            g.wf(),
            g@ == GraphModel::<V>::empty(),
    {
        let g = Graph {
            kinds: Vec::new(),
            values: Vec::new(),
            versions: Vec::new(),
            dirty: Vec::new(),
            deps: Vec::new(),
            scope_owners: Vec::new(),
            scope_reads: Vec::new(),
        };
        proof {
            assert(g@.deps =~= Seq::empty());
            assert(g@.scopes =~= Seq::empty());
        }
        g
    }

    /// Appends a node of the given kind and returns its index.
    fn add_node(&mut self, kind: NodeKind, value: Option<V>, dirty: bool) -> (id: usize)
        requires
            old(self).wf(),
            kind == NodeKind::Cell ==> value.is_some() && !dirty,
            kind != NodeKind::Cell ==> dirty,
        ensures
            final(self).wf(),
            id == old(self)@.len(),
            final(self)@ == (GraphModel {
                kinds: old(self)@.kinds.push(kind),
                values: old(self)@.values.push(value),
                versions: old(self)@.versions.push(0u64),
                dirty: old(self)@.dirty.push(dirty),
                deps: old(self)@.deps.push(Seq::empty()),
                scopes: old(self)@.scopes,
            }),
    {
        let id = self.kinds.len();
        self.kinds.push(kind);
        self.values.push(value);
        self.versions.push(0u64);
        self.dirty.push(dirty);
        self.deps.push(Vec::new());
        proof {
            assert(self@.kinds =~= old(self)@.kinds.push(kind));
            assert(self@.deps =~= old(self)@.deps.push(Seq::empty()));
            assert(self@.scopes =~= old(self)@.scopes);
        }
        id
    }

    /// Creates a cell holding `value`, with version 0 and no subscribers.
    pub fn add_cell(&mut self, value: V) -> (id: usize)
        requires
            old(self).wf(),
        ensures
            final(self).wf(),
            id == old(self)@.len(),
            final(self)@ == (GraphModel {
                kinds: old(self)@.kinds.push(NodeKind::Cell),
                values: old(self)@.values.push(Some(value)),
                versions: old(self)@.versions.push(0u64),
                dirty: old(self)@.dirty.push(false),
                deps: old(self)@.deps.push(Seq::empty()),
                scopes: old(self)@.scopes,
            }),
    {
        self.add_node(NodeKind::Cell, Some(value), false)
    }

    /// Creates a memo. It starts dirty and without a cached value, so its first
    /// read asks for an evaluation.
    pub fn add_memo(&mut self) -> (id: usize)
        requires
            old(self).wf(),
        ensures
            final(self).wf(),
            id == old(self)@.len(),
            final(self)@ == (GraphModel {
                kinds: old(self)@.kinds.push(NodeKind::Memo),
                values: old(self)@.values.push(None),
                versions: old(self)@.versions.push(0u64),
                dirty: old(self)@.dirty.push(true),
                deps: old(self)@.deps.push(Seq::empty()),
                scopes: old(self)@.scopes,
            }),
    {
        self.add_node(NodeKind::Memo, None, true)
    }

    /// Creates an effect. It starts dirty: registration is completed by its
    /// initial run, which establishes its dependency set.
    pub fn add_effect(&mut self) -> (id: usize)
        requires
            old(self).wf(),
        ensures
            final(self).wf(),
            id == old(self)@.len(),
            final(self)@ == (GraphModel {
                kinds: old(self)@.kinds.push(NodeKind::Effect),
                values: old(self)@.values.push(None),
                versions: old(self)@.versions.push(0u64),
                dirty: old(self)@.dirty.push(true),
                deps: old(self)@.deps.push(Seq::empty()),
                scopes: old(self)@.scopes,
            }),
    {
        self.add_node(NodeKind::Effect, None, true)
    }

    /// The number of nodes.
    pub fn len(&self) -> (n: usize)
        requires
            self.wf(),
        ensures
            n == self@.len(),
    {
        self.kinds.len()
    }

    /// The number of evaluations in progress.
    pub fn depth(&self) -> (d: usize)
        requires
            self.wf(),
        ensures
            d == self@.scopes.len(),
    {
        self.scope_owners.len()
    }

    /// The kind of node `id`.
    pub fn kind(&self, id: usize) -> (k: NodeKind)
        requires
            self.wf(),
            id < self@.len(),
        ensures
            k == self@.kinds[id as int],
    {
        self.kinds[id]
    }

    /// Whether node `id` awaits an evaluation.
    pub fn is_dirty(&self, id: usize) -> (d: bool)
        requires
            self.wf(),
            id < self@.len(),
        ensures
            d == self@.dirty[id as int],
    {
        self.dirty[id]
    }

    /// The version of node `id`: the writes a cell has received, or the runs a
    /// memo or an effect has completed.
    pub fn version(&self, id: usize) -> (v: u64)
        requires
            self.wf(),
            id < self@.len(),
        ensures
            v == self@.versions[id as int],
    {
        self.versions[id]
    }

    /// The value held by node `id`, without recording a dependency.
    pub fn value(&self, id: usize) -> (v: Option<&V>)
        requires
            self.wf(),
            id < self@.len(),
        ensures
            match v {
                Some(r) => self@.values[id as int] == Some(*r),
                None => self@.values[id as int].is_none(),
            },
    {
        match &self.values[id] {
            Some(r) => Some(r),
            None => None,
        }
    }

    /// The dependencies that node `id` observed during its most recent run, in
    /// order of first read.
    pub fn dependencies(&self, id: usize) -> (out: Vec<usize>)
        requires
            self.wf(),
            id < self@.len(),
        ensures
            out@ == self@.deps[id as int],
    {
        let src = &self.deps[id];
        let mut out: Vec<usize> = Vec::new();
        let mut i: usize = 0;
        while i < src.len()
            invariant
                i <= src.len(),
                out@ == src@.subrange(0, i as int),
            decreases src.len() - i,
        {
            out.push(src[i]);
            proof {
                assert(out@ =~= src@.subrange(0, i + 1));
            }
            i += 1;
        }
        proof {
            assert(out@ =~= src@);
        }
        out
    }

    /// The nodes that currently depend directly on node `id`, in ascending order.
    pub fn subscribers(&self, id: usize) -> (out: Vec<usize>)
        requires
            self.wf(),
            id < self@.len(),
        ensures
            forall|x: usize| #[trigger]
                out@.contains(x) <==> self@.subscribers(id as int).contains(x as int),
            forall|a: int, b: int| 0 <= a < b < out@.len() ==> out@[a] < out@[b],
    {
        let n = self.kinds.len();
        let mut out: Vec<usize> = Vec::new();
        let mut j: usize = 0;
        while j < n
            invariant
                self.wf(),
                n == self@.len(),
                j <= n,
                forall|x: usize| #[trigger]
                    out@.contains(x) <==> (x < j && self@.deps[x as int].contains(id)),
                forall|t: int| 0 <= t < out@.len() ==> out@[t] < j,
                forall|a: int, b: int| 0 <= a < b < out@.len() ==> out@[a] < out@[b],
            decreases n - j,
        {
            let ghost before = out@;
            if vec_contains(&self.deps[j], id) {
                out.push(j);
                proof {
                    assert forall|x: usize| #[trigger]
                        out@.contains(x) <==> (before.contains(x) || x == j) by {
                        lemma_push_contains(before, j, x);
                    }
                }
            }
            j += 1;
        }
        out
    }

    /// Attributes a read of `id` to the innermost scope, if one is active.
    fn note_read(&mut self, id: usize)
        requires
            old(self).wf(),
            id < old(self)@.len(),
            !old(self)@.dirty[id as int],
            old(self)@.kinds[id as int] != NodeKind::Effect,
        ensures
            final(self).wf(),
            final(self)@ == (GraphModel {
                scopes: record_read(old(self)@.scopes, id),
                ..old(self)@
            }),
    {
        if self.scope_reads.len() > 0 {
            let ghost top = (self.scope_reads@.len() - 1) as int;
            let mut reads = self.scope_reads.pop().unwrap();
            if !vec_contains(&reads, id) {
                reads.push(id);
            }
            self.scope_reads.push(reads);
            proof {
                assert(self@.deps =~= old(self)@.deps);
                assert(self@.scopes =~= record_read(old(self)@.scopes, id));
                assert forall|l: int| 0 <= l < self@.scopes.len() implies (#[trigger] self@.scopes[l]).reads.no_duplicates() by {
                    assert(old(self)@.scopes[l].reads.no_duplicates());
                }
            }
        } else {
            proof {
                assert(self@.scopes =~= record_read(old(self)@.scopes, id));
            }
        }
    }

    /// Reads node `id` on behalf of the evaluation in progress, if any.
    ///
    /// A cell or a clean memo yields its value, and the read is attributed to
    /// the innermost scope. A dirty memo yields `None` and nothing is recorded:
    /// the caller evaluates it between `begin` and `finish_memo`, which then
    /// records the read.
    pub fn read(&mut self, id: usize) -> (out: Option<&V>)
        requires
            old(self).wf(),
            id < old(self)@.len(),
            old(self)@.kinds[id as int] != NodeKind::Effect,
        ensures
            final(self).wf(),
            final(self)@ == old(self)@.read_step(id),
            out.is_none() == old(self)@.dirty[id as int],
            match out {
                Some(v) => old(self)@.read_result(id) == Some(*v),
                None => old(self)@.read_result(id).is_none(),
            },
    {
        if self.dirty[id] {
            None
        } else {
            self.note_read(id);
            match &self.values[id] {
                Some(v) => Some(v),
                None => None,
            }
        }
    }

    /// Opens a fresh, empty scope for an evaluation of the memo or effect `id`.
    /// Until the matching finish every read is attributed to this scope.
    pub fn begin(&mut self, id: usize)
        requires
            old(self).wf(),
            id < old(self)@.len(),
            old(self)@.kinds[id as int] != NodeKind::Cell,
        ensures
            final(self).wf(),
            final(self)@ == old(self)@.begin_step(id),
    {
        self.scope_owners.push(id);
        self.scope_reads.push(Vec::new());
        proof {
            assert(self@.deps =~= old(self)@.deps);
            assert(self@.scopes =~= old(self)@.scopes.push(
                ScopeModel { owner: id, reads: Seq::empty() },
            ));
        }
    }

    /// Closes the innermost scope and makes what it recorded the dependency set
    /// of its owner, which becomes clean with one more completed run.
    fn close_scope(&mut self, id: usize)
        requires
            old(self).wf(),
            old(self)@.scopes.len() > 0,
            old(self)@.scopes.last().owner == id,
            old(self)@.versions[id as int] < u64::MAX,
            old(self)@.kinds[id as int] == NodeKind::Memo ==> old(self)@.values[id as int].is_some(),
        ensures
            final(self).wf(),
            final(self)@ == old(self)@.close_step(id),
    {
        let ghost top = old(self)@.scopes.last();
        proof {
            assert(old(self)@.scopes[old(self)@.scopes.len() - 1] == top);
        }
        let owner = self.scope_owners.pop().unwrap();
        let reads = self.scope_reads.pop().unwrap();
        let next: u64 = self.versions[id] + 1;
        self.versions.set(id, next);
        self.dirty.set(id, false);
        self.deps.set(id, reads);
        proof {
            assert(self@.deps =~= old(self)@.deps.update(id as int, top.reads));
            assert(self@.scopes =~= old(self)@.scopes.drop_last());
            assert forall|l: int, t: int|
                0 <= l < self@.scopes.len() && 0 <= t < self@.scopes[l].reads.len() implies {
                &&& (#[trigger] self@.scopes[l].reads[t]) < self@.len()
                &&& !self@.dirty[self@.scopes[l].reads[t] as int]
                &&& self@.kinds[self@.scopes[l].reads[t] as int] != NodeKind::Effect
            } by {
                assert(old(self)@.scopes[l].reads[t] < self@.len());
            }
            assert forall|j: int, t: int|
                0 <= j < self@.len() && !self@.dirty[j] && 0 <= t < self@.deps[j].len()
                implies !self@.dirty[(#[trigger] self@.deps[j][t]) as int] by {
                if j == id {
                    assert(top.reads[t] == old(self)@.scopes[old(self)@.scopes.len() - 1].reads[t]);
                } else {
                    assert(self@.deps[j][t] == old(self)@.deps[j][t]);
                }
            }
        }
    }

    /// Completes the evaluation of memo `id` with its freshly computed value.
    ///
    /// The reads recorded since the matching `begin` replace the memo's
    /// dependency set, the value is cached and the memo becomes clean. The memo
    /// itself is then recorded as a read of the enclosing scope, if there is one.
    pub fn finish_memo(&mut self, id: usize, value: V)
        requires
            old(self).wf(),
            old(self)@.scopes.len() > 0,
            old(self)@.scopes.last().owner == id,
            old(self)@.kinds[id as int] == NodeKind::Memo,
            old(self)@.versions[id as int] < u64::MAX,
        ensures
            final(self).wf(),
            final(self)@ == old(self)@.finish_memo_step(id, value),
    {
        proof {
            assert(old(self)@.scopes[old(self)@.scopes.len() - 1].owner < old(self)@.len());
        }
        self.values.set(id, Some(value));
        proof {
            assert(self@.deps =~= old(self)@.deps);
            assert(self@.scopes =~= old(self)@.scopes);
        }
        self.close_scope(id);
        self.note_read(id);
    }

    /// Completes a run of effect `id`: the reads recorded since the matching
    /// `begin` replace its dependency set and the effect becomes clean.
    pub fn finish_effect(&mut self, id: usize)
        requires
            old(self).wf(),
            old(self)@.scopes.len() > 0,
            old(self)@.scopes.last().owner == id,
            old(self)@.kinds[id as int] == NodeKind::Effect,
            old(self)@.versions[id as int] < u64::MAX,
        ensures
            final(self).wf(),
            final(self)@ == old(self)@.close_step(id),
    {
        self.close_scope(id);
    }

    /// Marks every node that depends on `id`, `id` included.
    fn mark_dependents(&self, id: usize) -> (marked: Vec<bool>)
        requires
            self.wf(),
            id < self@.len(),
        ensures
            marked@.len() == self@.len(),
            forall|x: int|
                0 <= x < self@.len() ==> (marked@[x] <==> depends_on(self@.deps, x, id as int)),
    {
        let n = self.kinds.len();
        let ghost deps = self@.deps;
        let mut marked: Vec<bool> = Vec::new();
        let mut i: usize = 0;
        while i < n
            invariant
                i <= n,
                marked@.len() == i,
                forall|x: int| 0 <= x < i ==> !marked@[x],
            decreases n - i,
        {
            marked.push(false);
            i += 1;
        }
        marked.set(id, true);
        proof {
            assert(depends_within(deps, id as int, id as int, 0));
        }
        let mut changed = true;
        while changed
            invariant
                self.wf(),
                n == self@.len(),
                deps == self@.deps,
                id < n,
                marked@.len() == n,
                marked@[id as int],
                forall|x: int| 0 <= x < n && marked@[x] ==> depends_on(deps, x, id as int),
                !changed ==> forall|x: int, t: int|
                    0 <= x < n && 0 <= t < deps[x].len() && marked@[(#[trigger] deps[x][t]) as int]
                        ==> marked@[x],
            decreases n - count_set(marked@), if changed { 1int } else { 0int },
        {
            changed = false;
            let ghost start = marked@;
            proof {
                lemma_count_bounded(start);
            }
            let mut j: usize = 0;
            while j < n
                invariant
                    self.wf(),
                    n == self@.len(),
                    deps == self@.deps,
                    id < n,
                    j <= n,
                    marked@.len() == n,
                    marked@[id as int],
                    forall|x: int| 0 <= x < n && marked@[x] ==> depends_on(deps, x, id as int),
                    !changed ==> marked@ == start,
                    changed ==> count_set(marked@) > count_set(start),
                    count_set(marked@) <= n,
                    !changed ==> forall|x: int, t: int|
                        0 <= x < j && 0 <= t < deps[x].len() && marked@[(#[trigger] deps[x][t]) as int]
                            ==> marked@[x],
                decreases n - j,
            {
                if !marked[j] {
                    proof {
                        assert(self.deps@[j as int]@ == deps[j as int]);
                        assert forall|t: int| 0 <= t < deps[j as int].len() implies deps[j as int][t] < n by {
                            assert(self@.deps[j as int][t] < n);
                        }
                    }
                    if any_marked(&self.deps[j], &marked) {
                        proof {
                            let t = choose|t: int|
                                0 <= t < deps[j as int].len() && marked@[(#[trigger] deps[j as int][t]) as int];
                            lemma_dependent_of_dependent(deps, j as int, t, id as int);
                            lemma_count_grows(marked@, j as int);
                            lemma_count_bounded(marked@.update(j as int, true));
                        }
                        marked.set(j, true);
                        changed = true;
                    }
                }
                j += 1;
            }
        }
        proof {
            assert forall|x: int| 0 <= x < n && depends_on(deps, x, id as int) implies marked@[x] by {
                let k = choose|k: nat| depends_within(deps, x, id as int, k);
                assert forall|y: int, t: int|
                    0 <= y < deps.len() && 0 <= t < deps[y].len() implies (#[trigger] deps[y][t]) < deps.len() by {
                    assert(self@.deps[y][t] < n);
                }
                lemma_closed_holds_dependents(deps, marked@, id as int, x, k);
            }
        }
        marked
    }

    /// Whether cell `id` may be written now: no memo is being evaluated, and no
    /// effect that is running has read the cell or anything that depends on it.
    pub fn may_write(&self, id: usize) -> (ok: bool)
        requires
            self.wf(),
            id < self@.len(),
        ensures
            ok == self@.writable(id),
    {
        let marked = self.mark_dependents(id);
        let depth = self.scope_owners.len();
        let mut l: usize = 0;
        while l < depth
            invariant
                self.wf(),
                id < self@.len(),
                depth == self@.scopes.len(),
                l <= depth,
                marked@.len() == self@.len(),
                forall|x: int|
                    0 <= x < self@.len() ==> (marked@[x] <==> depends_on(self@.deps, x, id as int)),
                forall|a: int|
                    0 <= a < l ==> self@.kinds[(#[trigger] self@.scopes[a]).owner as int]
                        == NodeKind::Effect,
                forall|a: int, t: int|
                    0 <= a < l && 0 <= t < self@.scopes[a].reads.len() ==> !depends_on(
                        self@.deps,
                        (#[trigger] self@.scopes[a].reads[t]) as int,
                        id as int,
                    ),
            decreases depth - l,
        {
            proof {
                assert(self@.scopes[l as int].owner < self@.len());
            }
            if self.kinds[self.scope_owners[l]] != NodeKind::Effect {
                return false;
            }
            let reads = &self.scope_reads[l];
            let mut t: usize = 0;
            while t < reads.len()
                invariant
                    self.wf(),
                    l < depth,
                    depth == self@.scopes.len(),
                    reads@ == self@.scopes[l as int].reads,
                    t <= reads@.len(),
                    marked@.len() == self@.len(),
                    forall|x: int|
                        0 <= x < self@.len() ==> (marked@[x] <==> depends_on(
                            self@.deps,
                            x,
                            id as int,
                        )),
                    forall|u: int|
                        0 <= u < t ==> !depends_on(
                            self@.deps,
                            (#[trigger] reads@[u]) as int,
                            id as int,
                        ),
                decreases reads.len() - t,
            {
                proof {
                    assert(self@.scopes[l as int].reads[t as int] < self@.len());
                }
                if marked[reads[t]] {
                    proof {
                        assert(depends_on(
                            self@.deps,
                            self@.scopes[l as int].reads[t as int] as int,
                            id as int,
                        ));
                    }
                    return false;
                }
                t += 1;
            }
            l += 1;
        }
        true
    }

    /// Writes `value` to cell `id`.
    ///
    /// The value is stored and the version incremented. Every memo and effect
    /// that depends on the cell, directly or through memos, is marked dirty,
    /// whether or not the value changed. Returned are the effects among them, in
    /// ascending order: the caller runs each of them before it does anything
    /// else with the graph.
    pub fn write(&mut self, id: usize, value: V) -> (effects: Vec<usize>)
        requires
            old(self).wf(),
            id < old(self)@.len(),
            old(self)@.kinds[id as int] == NodeKind::Cell,
            old(self)@.versions[id as int] < u64::MAX,
            old(self)@.writable(id),
        ensures
            final(self).wf(),
            final(self)@ == old(self)@.write_step(id, value),
            forall|e: usize| #[trigger] effects@.contains(e) <==> old(self)@.triggers(id, e),
            forall|a: int, b: int| 0 <= a < b < effects@.len() ==> effects@[a] < effects@[b],
    {
        let n = self.kinds.len();
        let ghost deps = self@.deps;
        let marked = self.mark_dependents(id);
        let next: u64 = self.versions[id] + 1;
        self.values.set(id, Some(value));
        self.versions.set(id, next);
        proof {
            assert(self@.deps =~= deps);
        }
        let mut effects: Vec<usize> = Vec::new();
        let mut j: usize = 0;
        while j < n
            invariant
                old(self).wf(),
                j <= n,
                n == old(self)@.len(),
                id < n,
                marked@.len() == n,
                forall|x: int| 0 <= x < n ==> (marked@[x] <==> depends_on(deps, x, id as int)),
                deps == old(self)@.deps,
                self.kinds == old(self).kinds,
                self.deps == old(self).deps,
                self.scope_owners == old(self).scope_owners,
                self.scope_reads == old(self).scope_reads,
                self.values@ == old(self).values@.update(id as int, Some(value)),
                self.versions@ == old(self).versions@.update(id as int, next),
                self.dirty@.len() == n,
                forall|x: int|
                    0 <= x < j ==> #[trigger] self.dirty@[x] == (old(self).dirty@[x] || affected(
                        deps,
                        x,
                        id as int,
                    )),
                forall|x: int| j <= x < n ==> #[trigger] self.dirty@[x] == old(self).dirty@[x],
                forall|e: usize| #[trigger]
                    effects@.contains(e) <==> (e < j && old(self)@.triggers(id, e)),
                forall|t: int| 0 <= t < effects@.len() ==> effects@[t] < j,
                forall|a: int, b: int| 0 <= a < b < effects@.len() ==> effects@[a] < effects@[b],
            decreases n - j,
        {
            proof {
                assert(marked@[j as int] <==> depends_on(deps, j as int, id as int));
            }
            if marked[j] && j != id {
                self.dirty.set(j, true);
                if self.kinds[j] == NodeKind::Effect {
                    let ghost before = effects@;
                    effects.push(j);
                    proof {
                        assert forall|e: usize| #[trigger]
                            effects@.contains(e) <==> (before.contains(e) || e == j) by {
                            lemma_push_contains(before, j, e);
                        }
                    }
                }
            }
            j += 1;
        }
        proof {
            let m = old(self)@;
            assert forall|x: int| 0 <= x < n implies self@.dirty[x] == m.write_step(
                id,
                value,
            ).dirty[x] by {
                assert(self.dirty@[x] == (m.dirty[x] || affected(deps, x, id as int)));
            }
            assert(self@.dirty =~= m.write_step(id, value).dirty);
            assert(self@.deps =~= m.deps);
            assert(self@.scopes =~= m.scopes);
            assert(self@ == m.write_step(id, value));
            assert forall|x: int| 0 <= x < n && affected(deps, x, id as int) implies m.kinds[x]
                != NodeKind::Cell by {
                lemma_affected_has_dependency(deps, x, id as int);
            }
            assert forall|l: int, t: int|
                0 <= l < self@.scopes.len() && 0 <= t < self@.scopes[l].reads.len() implies {
                &&& (#[trigger] self@.scopes[l].reads[t]) < self@.len()
                &&& !self@.dirty[self@.scopes[l].reads[t] as int]
                &&& self@.kinds[self@.scopes[l].reads[t] as int] != NodeKind::Effect
            } by {
                let r = m.scopes[l].reads[t];
                assert(r < n);
                assert(!m.dirty[r as int]);
                assert(!depends_on(deps, r as int, id as int));
            }
            assert forall|x: int, t: int|
                0 <= x < n && !self@.dirty[x] && 0 <= t < self@.deps[x].len() implies !self@.dirty[(
            #[trigger] self@.deps[x][t]) as int] by {
                let d = m.deps[x][t] as int;
                assert(d < n);
                if affected(deps, d, id as int) || d == id {
                    assert(depends_within(deps, id as int, id as int, 0));
                    lemma_dependent_of_dependent(deps, x, t, id as int);
                    lemma_affected_has_dependency(deps, d, id as int);
                }
            }
        }
        effects
    }
}

} // verus!
