//! What holds of every graph, stated over its model.

use vstd::prelude::*;
use crate::graph::{affected, depends_on, depends_within, GraphModel, NodeKind};

verus! {

/// No staleness: a clean node depends on no dirty node, however long the chain
/// of dependencies between them. A memo that has become clean has therefore
/// been evaluated after every write that reached anything it depends on.
pub proof fn clean_node_has_clean_dependencies<V>(m: GraphModel<V>, j: int, d: int, k: nat)
    requires
        m.wf(),
        0 <= j < m.len(),
        !m.dirty[j],
        depends_within(m.deps, j, d, k),
    ensures
        0 <= d < m.len(),
        !m.dirty[d],
    decreases k,
{
    if j != d {
        let t = choose|t: int|
            0 <= t < m.deps[j].len() && depends_within(
                m.deps,
                (#[trigger] m.deps[j][t]) as int,
                d,
                (k - 1) as nat,
            );
        clean_node_has_clean_dependencies(m, m.deps[j][t] as int, d, (k - 1) as nat);
    }
}

/// A node that reads `src` directly is a proper dependent of `src`, unless it is
/// `src` itself.
pub proof fn direct_reader_is_affected(deps: Seq<Seq<usize>>, j: int, src: usize)
    requires
        0 <= j < deps.len(),
        deps[j].contains(src),
        j != src,
    ensures
        affected(deps, j, src as int),
{
    let t = choose|t: int| 0 <= t < deps[j].len() && deps[j][t] == src;
    assert(depends_within(deps, deps[j][t] as int, src as int, 0));
    assert(depends_within(deps, j, src as int, 1));
}

/// A node that reads a proper dependent of `src` is one too, unless it is `src`
/// itself.
pub proof fn reader_of_affected_is_affected(deps: Seq<Seq<usize>>, j: int, mid: usize, src: int)
    requires
        0 <= j < deps.len(),
        deps[j].contains(mid),
        affected(deps, mid as int, src),
        j != src,
    ensures
        affected(deps, j, src),
{
    let t = choose|t: int| 0 <= t < deps[j].len() && deps[j][t] == mid;
    let k = choose|k: nat| depends_within(deps, mid as int, src, k);
    assert(depends_within(deps, deps[j][t] as int, src, ((k + 1) - 1) as nat));
    assert(depends_within(deps, j, src, k + 1));
}

/// No glitch in a diamond: where memos `a` and `b` read cell `x` and memo `c`
/// reads both, one write to `x` leaves all three dirty. The next read of `c`
/// yields nothing and records nothing, so `c` is evaluated again; and as a
/// dirty `a` or `b` yields nothing either, only on values computed after the
/// write.
pub proof fn diamond_write_dirties_all<V>(
    m: GraphModel<V>,
    x: usize,
    a: usize,
    b: usize,
    c: usize,
    value: V,
)
    requires
        m.wf(),
        x < m.len(),
        a < m.len(),
        b < m.len(),
        c < m.len(),
        m.kinds[x as int] == NodeKind::Cell,
        m.deps[a as int].contains(x),
        m.deps[b as int].contains(x),
        m.deps[c as int].contains(a),
        m.deps[c as int].contains(b),
    ensures
        m.write_step(x, value).dirty[a as int],
        m.write_step(x, value).dirty[b as int],
        m.write_step(x, value).dirty[c as int],
        m.write_step(x, value).read_result(a).is_none(),
        m.write_step(x, value).read_result(b).is_none(),
        m.write_step(x, value).read_result(c).is_none(),
        m.write_step(x, value).read_step(c) == m.write_step(x, value),
        m.write_step(x, value).values[x as int] == Some(value),
{
    direct_reader_is_affected(m.deps, a as int, x);
    direct_reader_is_affected(m.deps, b as int, x);
    reader_of_affected_is_affected(m.deps, c as int, a, x as int);
}

/// A memo that finished an evaluation is clean, holds the value it was given,
/// has completed exactly one more run, and yields that value when read.
pub proof fn finished_memo_is_clean<V>(m: GraphModel<V>, id: usize, value: V)
    requires
        m.wf(),
        id < m.len(),
        m.scopes.len() > 0,
    ensures
        !m.finish_memo_step(id, value).dirty[id as int],
        m.finish_memo_step(id, value).values[id as int] == Some(value),
        m.finish_memo_step(id, value).versions[id as int] == (m.versions[id as int] + 1) as u64,
        m.finish_memo_step(id, value).read_result(id) == Some(value),
{
}

/// A read of a clean node yields its cached value and asks for no evaluation.
/// It changes nothing but the innermost scope's record, so the node is still
/// clean, with the same value and the same number of completed runs, and any
/// number of further reads find the same. A second read records nothing new.
pub proof fn clean_read_is_memoized<V>(m: GraphModel<V>, id: usize)
    requires
        m.wf(),
        id < m.len(),
        !m.dirty[id as int],
    ensures
        m.read_result(id) == m.values[id as int],
        m.read_step(id).dirty == m.dirty,
        m.read_step(id).values == m.values,
        m.read_step(id).versions == m.versions,
        m.read_step(id).deps == m.deps,
        m.read_step(id).read_result(id) == m.read_result(id),
        m.read_step(id).read_step(id) == m.read_step(id),
{
    let once = m.read_step(id);
    if m.scopes.len() > 0 && !m.scopes.last().reads.contains(id) {
        let top = m.scopes.len() - 1;
        assert(once.scopes[top].reads[m.scopes.last().reads.len() as int] == id);
    }
}

/// A write to cell `x` reaches every effect that depends on `x` through a chain of dependencies of any length. Each such effect is among
/// those the write hands back to be run, and is dirty until it has run.
pub proof fn write_reaches_every_dependent_effect<V>(
    m: GraphModel<V>,
    x: usize,
    e: usize,
    k: nat,
    value: V,
)
    requires
        m.wf(),
        x < m.len(),
        e < m.len(),
        m.kinds[x as int] == NodeKind::Cell,
        m.kinds[e as int] == NodeKind::Effect,
        depends_within(m.deps, e as int, x as int, k),
    ensures
        m.triggers(x, e),
        m.write_step(x, value).dirty[e as int],
{
    assert(depends_on(m.deps, e as int, x as int));
}

/// A write marks dirty without regard to values: the dirty flags after a write
/// are the same whatever value was written, the one already held included.
pub proof fn write_always_propagates<V>(m: GraphModel<V>, x: usize, v1: V, v2: V)
    requires
        m.wf(),
        x < m.len(),
    ensures
        m.write_step(x, v1).dirty == m.write_step(x, v2).dirty,
        m.write_step(x, v1).versions[x as int] == (m.versions[x as int] + 1) as u64,
{
}

/// A write leaves alone what does not depend on the written cell: such a node
/// is as dirty as before, and no node loses its value or its dependencies.
pub proof fn write_spares_independent_nodes<V>(m: GraphModel<V>, x: usize, j: int, value: V)
    requires
        m.wf(),
        x < m.len(),
        0 <= j < m.len(),
        !depends_on(m.deps, j, x as int),
    ensures
        m.write_step(x, value).dirty[j] == m.dirty[j],
        m.write_step(x, value).values[j] == m.values[j],
        m.write_step(x, value).deps == m.deps,
{
    if j == x {
        assert(depends_within(m.deps, j, x as int, 0));
    }
}

/// With no evaluation in progress every cell may be written.
pub proof fn idle_graph_is_writable<V>(m: GraphModel<V>, x: usize)
    requires
        m.scopes.len() == 0,
    ensures
        m.writable(x),
{
}

/// Reads are attributed to the innermost scope only: a read leaves every outer
/// scope as it was, and the innermost scope keeps its owner and gains at most
/// the node that was read.
pub proof fn read_touches_only_innermost_scope<V>(m: GraphModel<V>, id: usize, l: int)
    requires
        m.wf(),
        id < m.len(),
        0 <= l < m.scopes.len(),
    ensures
        m.read_step(id).scopes.len() == m.scopes.len(),
        l < m.scopes.len() - 1 ==> m.read_step(id).scopes[l] == m.scopes[l],
        m.read_step(id).scopes[l].owner == m.scopes[l].owner,
        !m.dirty[id as int] ==> m.read_step(id).scopes.last().reads.contains(id),
        forall|r: usize|
            m.read_step(id).scopes[l].reads.contains(r) ==> r == id || m.scopes[l].reads.contains(r),
{
    let after = m.read_step(id);
    let top = m.scopes.len() - 1;
    if !m.dirty[id as int] {
        if m.scopes.last().reads.contains(id) {
        } else {
            assert(after.scopes[top].reads[m.scopes.last().reads.len() as int] == id);
        }
    }
    assert forall|r: usize| after.scopes[l].reads.contains(r) implies r == id
        || m.scopes[l].reads.contains(r) by {
        let t = choose|t: int| 0 <= t < after.scopes[l].reads.len() && after.scopes[l].reads[t] == r;
        if l == top && !m.dirty[id as int] && !m.scopes.last().reads.contains(id) {
            if t < m.scopes[l].reads.len() {
                assert(m.scopes[l].reads[t] == r);
            }
        } else {
            assert(m.scopes[l].reads[t] == r);
        }
    }
}

/// Closing a scope re-subscribes its owner: afterwards the owner is a
/// subscriber of exactly the nodes it read during the run, and every other
/// node subscribes to what it did before.
pub proof fn finish_resubscribes<V>(m: GraphModel<V>, id: usize, d: usize, j: int)
    requires
        m.wf(),
        id < m.len(),
        m.scopes.len() > 0,
        0 <= j < m.len(),
        j != id,
    ensures
        m.close_step(id).subscribers(d as int).contains(id as int) <==> m.scopes.last().reads.contains(d),
        m.close_step(id).subscribers(d as int).contains(j) <==> m.subscribers(d as int).contains(j),
{
}

/// The evaluation that follows a write in a diamond. After a write to `x`, a
/// read of `c` finds it dirty; its evaluation reads `a` and `b`, finds each
/// dirty and evaluates it on the new `x`. At the end all three are clean, each
/// has completed exactly one run, `c` holds the value computed from the fresh
/// `a` and `b`, and the recorded dependencies are those of the diamond.
pub proof fn diamond_settles_in_one_run_each<V>(
    m: GraphModel<V>,
    x: usize,
    a: usize,
    b: usize,
    c: usize,
    value: V,
    va: V,
    vb: V,
    vc: V,
)
    requires
        m.wf(),
        m.scopes.len() == 0,
        x < m.len(),
        a < m.len(),
        b < m.len(),
        c < m.len(),
        a != b,
        b != c,
        a != c,
        m.kinds[x as int] == NodeKind::Cell,
        m.deps[a as int].contains(x),
        m.deps[b as int].contains(x),
        m.deps[c as int].contains(a),
        m.deps[c as int].contains(b),
    ensures
        ({
            let w = m.write_step(x, value);
            let in_c = w.begin_step(c).read_step(a);
            let a_done = in_c.begin_step(a).read_step(x).finish_memo_step(a, va).read_step(b);
            let b_done = a_done.begin_step(b).read_step(x).finish_memo_step(b, vb);
            let end = b_done.finish_memo_step(c, vc);
            &&& in_c == w.begin_step(c)
            &&& !end.dirty[a as int] && !end.dirty[b as int] && !end.dirty[c as int]
            &&& end.values[a as int] == Some(va)
            &&& end.values[b as int] == Some(vb)
            &&& end.values[c as int] == Some(vc)
            &&& end.values[x as int] == Some(value)
            &&& end.versions[a as int] == (m.versions[a as int] + 1) as u64
            &&& end.versions[b as int] == (m.versions[b as int] + 1) as u64
            &&& end.versions[c as int] == (m.versions[c as int] + 1) as u64
            &&& end.deps[a as int] == seq![x]
            &&& end.deps[b as int] == seq![x]
            &&& end.deps[c as int] == seq![a, b]
            &&& end.scopes.len() == 0
            &&& end.read_result(c) == Some(vc)
        }),
{
    diamond_write_dirties_all(m, x, a, b, c, value);
    let w = m.write_step(x, value);
    let in_c = w.begin_step(c).read_step(a);
    let in_a = in_c.begin_step(a).read_step(x);
    assert(in_a.scopes.len() == 2);
    assert(in_a.scopes[1].reads =~= seq![x]);
    assert(in_a.scopes[0].reads =~= Seq::<usize>::empty());
    let a_fin = in_a.finish_memo_step(a, va);
    assert(a_fin.scopes.len() == 1);
    assert(a_fin.scopes[0].reads =~= seq![a]);
    assert(a_fin.deps[a as int] =~= seq![x]);
    let a_done = a_fin.read_step(b);
    assert(a_done == a_fin);
    let in_b = a_done.begin_step(b).read_step(x);
    assert(in_b.scopes.len() == 2);
    assert(in_b.scopes[1].reads =~= seq![x]);
    let b_done = in_b.finish_memo_step(b, vb);
    assert(b_done.scopes.len() == 1);
    assert(b_done.scopes[0].reads =~= seq![a, b]);
    assert(b_done.deps[b as int] =~= seq![x]);
    let end = b_done.finish_memo_step(c, vc);
    assert(end.deps[c as int] =~= seq![a, b]);
    assert(end.scopes =~= Seq::<crate::graph::ScopeModel>::empty());
}

/// The run that follows a write for an effect that mirrors cell `x`. The write
/// hands the effect back and leaves it dirty; its run reads the new value of
/// `x`, after which the effect is clean, has completed exactly one more run,
/// and depends on `x` as before, so the next write triggers it again.
pub proof fn triggered_effect_runs_on_new_value<V>(m: GraphModel<V>, x: usize, e: usize, value: V)
    requires
        m.wf(),
        m.scopes.len() == 0,
        x < m.len(),
        e < m.len(),
        m.kinds[x as int] == NodeKind::Cell,
        m.kinds[e as int] == NodeKind::Effect,
        m.deps[e as int].contains(x),
    ensures
        ({
            let w = m.write_step(x, value);
            let run = w.begin_step(e).read_step(x);
            let end = run.close_step(e);
            &&& m.triggers(x, e)
            &&& w.dirty[e as int]
            &&& run.read_result(x) == Some(value)
            &&& !end.dirty[e as int]
            &&& end.versions[e as int] == (m.versions[e as int] + 1) as u64
            &&& end.deps[e as int] == seq![x]
            &&& end.scopes.len() == 0
            &&& end.triggers(x, e)
        }),
{
    direct_reader_is_affected(m.deps, e as int, x);
    let w = m.write_step(x, value);
    let run = w.begin_step(e).read_step(x);
    assert(run.scopes.len() == 1);
    assert(run.scopes[0].reads =~= seq![x]);
    let end = run.close_step(e);
    assert(end.deps[e as int] =~= seq![x]);
    assert(end.deps[e as int][0] == x);
    direct_reader_is_affected(end.deps, e as int, x);
}

} // verus!
