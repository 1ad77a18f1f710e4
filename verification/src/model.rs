//! The force-model capability: a strategy is bound to the edge matrix once,
//! then alternates a sequential `prepare` pass (which may update internal
//! scalars such as a cooling constant) with a pure per-node `step`.
//!
//! Each strategy describes itself with three specification functions, and
//! the executable methods promise to follow them. `run_iterations` is the
//! mathematical meaning of a whole run: what the iteration driver returns
//! is pinned to it, whatever the worker count.

use vstd::prelude::*;

verus! {

use crate::graph::{EdgeMatrix, Node};

/// A pluggable physics strategy.
///
/// `init` binds the model to the graph and the iteration budget, `prepare`
/// runs sequentially once per iteration and may mutate internal state, and
/// `step` computes one node's next position from the full current buffer
/// without mutating anything.
///
/// The three description functions say what the executable methods
/// compute. A verified strategy overrides them; a strategy written outside
/// the verified world may leave them at their default, in which case
/// nothing is known of its output beyond the driver's own guarantees.
pub trait ForceModel<S>: Sized {
    /// The model state after binding to an edge matrix, node count and
    /// iteration budget.
    open spec fn spec_init(self, edges: Seq<Seq<S>>, size: int, iterations: int) -> Self {
        arbitrary()
    }

    /// The model state after one sequential per-iteration pass over the
    /// current positions.
    open spec fn spec_prepare(self, current: Seq<Node<S>>) -> Self {
        arbitrary()
    }

    /// The position that `step` computes for node `i_node` from the current
    /// positions.
    open spec fn spec_step(self, current: Seq<Node<S>>, i_node: int) -> Node<S> {
        arbitrary()
    }

    /// One-time binding to the graph; may precompute per-node aggregates.
    fn init(&mut self, edges: &EdgeMatrix<S>, size: usize, iterations: usize)
        ensures
            *final(self) == old(self).spec_init(edges@, size as int, iterations as int),
    ;

    /// Sequential per-iteration pass, run before any step of that iteration.
    fn prepare(&mut self, current: &Vec<Node<S>>)
        ensures
            *final(self) == old(self).spec_prepare(current@),
    ;

    /// One node's new position; pure in the model and the buffer.
    fn step(&self, current: &Vec<Node<S>>, i_node: usize) -> (r: Node<S>)
        requires
            i_node < current@.len(),
        ensures
            r == self.spec_step(current@, i_node as int),
    ;
}

/// One whole step phase: every node's new position, computed from the same
/// current buffer.
pub open spec fn step_all<S, M: ForceModel<S>>(m: M, current: Seq<Node<S>>) -> Seq<Node<S>> {
    Seq::new(current.len(), |i: int| m.spec_step(current, i))
}

/// `k` full iterations from model state `m` and positions `current`: each
/// iteration prepares the model, then steps every node, then the new buffer
/// replaces the old. Returns the final model state and positions.
pub open spec fn run_iterations<S, M: ForceModel<S>>(m: M, current: Seq<Node<S>>, k: nat) -> (
    M,
    Seq<Node<S>>,
)
    decreases k,
{
    if k == 0 {
        (m, current)
    } else {
        let prepared = m.spec_prepare(current);
        run_iterations(prepared, step_all(prepared, current), (k - 1) as nat)
    }
}

/// A run of zero iterations returns the initial positions unchanged.
pub proof fn lemma_zero_iterations<S, M: ForceModel<S>>(m: M, current: Seq<Node<S>>)
    ensures
        run_iterations(m, current, 0) == (m, current),
{
}

/// Unfolds a run at its back: `k + 1` iterations are `k` iterations
/// followed by one more prepare-and-step phase.
pub proof fn lemma_run_iterations_unfold_back<S, M: ForceModel<S>>(
    m: M,
    current: Seq<Node<S>>,
    k: nat,
)
    ensures
        ({
            let r = run_iterations(m, current, k);
            let prepared = r.0.spec_prepare(r.1);
            run_iterations(m, current, k + 1) == (prepared, step_all(prepared, r.1))
        }),
    decreases k,
{
    let prepared = m.spec_prepare(current);
    let next = step_all(prepared, current);
    if k == 0 {
        assert(run_iterations(m, current, 1) == run_iterations(prepared, next, 0));
        assert(run_iterations(prepared, next, 0) == (prepared, next));
    } else {
        lemma_run_iterations_unfold_back(prepared, next, (k - 1) as nat);
    }
}

/// A probe model for exercising the iteration driver: `prepare` counts how
/// often it has run, and `step` stamps each node with its own index and the
/// count, so the output shows exactly how many prepare/step phases a run
/// performed.
pub struct CounterModel {
    pub counter: u64,
}

impl ForceModel<u64> for CounterModel {
    open spec fn spec_init(self, edges: Seq<Seq<u64>>, size: int, iterations: int) -> Self {
        self
    }

    open spec fn spec_prepare(self, current: Seq<Node<u64>>) -> Self {
        if self.counter < u64::MAX {
            CounterModel { counter: (self.counter + 1) as u64 }
        } else {
            self
        }
    }

    open spec fn spec_step(self, current: Seq<Node<u64>>, i_node: int) -> Node<u64> {
        Node { x: i_node as u64, y: self.counter }
    }

    fn init(&mut self, edges: &EdgeMatrix<u64>, size: usize, iterations: usize) {
    }

    fn prepare(&mut self, current: &Vec<Node<u64>>) {
        if self.counter < u64::MAX {
            self.counter = self.counter + 1;
        }
    }

    fn step(&self, current: &Vec<Node<u64>>, i_node: usize) -> (r: Node<u64>) {
        Node { x: i_node as u64, y: self.counter }
    }
}

/// The barrier law, shown on the probe model: after `k` iterations every
/// prepare phase ran before the step phase that read it, so each node `i`
/// ends at exactly `(i, starting count + k)` — no step of a later iteration
/// ever reads a stale count.
pub proof fn lemma_counter_model_run(m: CounterModel, init: Seq<Node<u64>>, k: nat)
    requires
        1 <= k,
        m.counter + k <= u64::MAX,
    ensures
        ({
            let r = run_iterations(m, init, k);
            &&& r.0.counter == m.counter + k
            &&& r.1.len() == init.len()
            &&& forall|i: int|
                0 <= i < init.len() ==> r.1[i] == (Node {
                    x: i as u64,
                    y: (m.counter + k) as u64,
                })
        }),
    decreases k,
{
    let prepared = m.spec_prepare(init);
    let next = step_all(prepared, init);
    if k == 1 {
        assert(run_iterations(m, init, 1) == run_iterations(prepared, next, 0));
        assert(run_iterations(prepared, next, 0) == (prepared, next));
        assert(forall|i: int|
            0 <= i < init.len() ==> next[i] == (Node { x: i as u64, y: prepared.counter }));
    } else {
        lemma_counter_model_run(prepared, next, (k - 1) as nat);
    }
}

} // verus!
