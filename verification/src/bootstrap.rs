//! The one-shot remote bootstrap of a cell.

use vstd::prelude::*;
use crate::graph::{Graph, NodeKind};

verus! {

/// How far the fetch has come.
#[derive(Clone, Copy, Debug, PartialEq, Eq, Structural)]
pub enum FetchState {
    /// No request has been issued.
    NotStarted,
    /// The request is out and its answer is awaited.
    InFlight,
    /// The answer came, decoded, and was written to the target cell.
    Succeeded,
    /// The answer came and did not decode; it was discarded.
    Failed,
}

/// What became of a completed fetch.
pub enum Completion {
    /// Nothing was written: the payload did not decode, or no fetch was in flight.
    Discarded,
    /// The decoded payload was written to the target cell.
    Applied {
        /// The effects the write triggered, in ascending order; the caller runs them.
        effects: Vec<usize>,
        /// Whether the raw response text is to be cached in the durable store.
        cache: bool,
    },
}

/// The bootstrap task of one cell.
pub struct Bootstrap {
    pub state: FetchState,
    /// The cell that receives the decoded payload.
    pub target: usize,
    /// Whether a decoded response is also cached as raw text.
    pub caches: bool,
}

impl Bootstrap {
    /// A task for cell `target` that has not started.
    pub fn new(target: usize, caches: bool) -> (task: Self)
        ensures
            task.state == FetchState::NotStarted,
            task.target == target,
            task.caches == caches,
    {
        Bootstrap { state: FetchState::NotStarted, target, caches }
    }

    /// Starts the task. Returns whether a request is to be issued: only the
    /// first start issues one, so at most one fetch is ever outstanding.
    pub fn start(&mut self) -> (issue: bool)
        ensures
            issue == (old(self).state == FetchState::NotStarted),
            final(self).state == (if issue {
                FetchState::InFlight
            } else {
                old(self).state
            }),
            final(self).target == old(self).target,
            final(self).caches == old(self).caches,
    {
        if self.state == FetchState::NotStarted {
            self.state = FetchState::InFlight;
            true
        } else {
            false
        }
    }

    /// Takes the answer of the fetch: `decoded` is the payload, or `None` where
    /// the body did not decode into the expected shape.
    ///
    /// A payload that did not decode is discarded and the graph stays as it
    /// was. A decoded payload is written to the target cell like any other
    /// write. An answer that arrives while no fetch is in flight is ignored.
    pub fn complete<V>(&mut self, graph: &mut Graph<V>, decoded: Option<V>) -> (done: Completion)
        requires
            old(graph).wf(),
            old(self).state == FetchState::InFlight && decoded.is_some() ==> {
                &&& old(self).target < old(graph)@.len()
                &&& old(graph)@.kinds[old(self).target as int] == NodeKind::Cell
                &&& old(graph)@.versions[old(self).target as int] < u64::MAX
                &&& old(graph)@.writable(old(self).target)
            },
        ensures
            final(graph).wf(),
            final(self).target == old(self).target,
            final(self).caches == old(self).caches,
            old(self).state != FetchState::InFlight ==> {
                &&& done is Discarded
                &&& final(self).state == old(self).state
                &&& final(graph)@ == old(graph)@
            },
            old(self).state == FetchState::InFlight && decoded.is_none() ==> {
                &&& done is Discarded
                &&& final(self).state == FetchState::Failed
                &&& final(graph)@ == old(graph)@
            },
            old(self).state == FetchState::InFlight && decoded.is_some() ==> {
                &&& final(self).state == FetchState::Succeeded
                &&& final(graph)@ == old(graph)@.write_step(old(self).target, decoded.unwrap())
                &&& done matches Completion::Applied { effects, cache }
                &&& cache == old(self).caches
                &&& forall|e: usize| #[trigger]
                    effects@.contains(e) <==> old(graph)@.triggers(old(self).target, e)
                &&& forall|a: int, b: int| 0 <= a < b < effects@.len() ==> effects@[a] < effects@[b]
            },
    {
        if self.state != FetchState::InFlight {
            return Completion::Discarded;
        }
        match decoded {
            None => {
                self.state = FetchState::Failed;
                Completion::Discarded
            },
            Some(value) => {
                let effects = graph.write(self.target, value);
                self.state = FetchState::Succeeded;
                Completion::Applied { effects, cache: self.caches }
            },
        }
    }
}

} // verus!
