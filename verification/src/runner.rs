//! The iteration driver: owns the current/next position buffers, cuts the
//! node range into chunks, runs the prepare/step phases for a fixed number
//! of iterations, and swaps the buffers after every step phase.
//!
//! The driver's contract pins its output to `run_iterations` — a function
//! of the model, the initial positions and the iteration count alone — so
//! two runs from the same inputs return the same positions whatever the
//! worker count, and an embedder may execute the chunks of one iteration
//! in any order or in parallel without changing the result.

use vstd::prelude::*;

verus! {

use core::ops::Range;
use crate::LayoutError;
use crate::graph::{EdgeMatrix, Node, add_edge, new_edge_matrix};
use crate::model::{ForceModel, run_iterations, step_all, lemma_run_iterations_unfold_back};
use crate::utils::gen_chunks;

/// Computes the new positions for every node of one chunk, reading the
/// full current buffer: the work of one worker during one step phase.
pub fn step_chunk<S: Copy, M: ForceModel<S>>(
    model: &M,
    current: &Vec<Node<S>>,
    chunk_start: usize,
    chunk_end: usize,
) -> (updates: Vec<Node<S>>)
    requires
        chunk_start <= chunk_end,
        chunk_end <= current@.len(),
    ensures
        updates@.len() == chunk_end - chunk_start,
        forall|t: int|
            0 <= t < updates@.len() ==> updates@[t] == model.spec_step(
                current@,
                chunk_start + t,
            ),
{
    let mut updates: Vec<Node<S>> = Vec::new();
    let mut i = chunk_start;
    while i < chunk_end
        invariant
            chunk_start <= i <= chunk_end,
            chunk_end <= current@.len(),
            updates@.len() == i - chunk_start,
            forall|t: int|
                0 <= t < updates@.len() ==> updates@[t] == model.spec_step(
                    current@,
                    chunk_start + t,
                ),
        decreases chunk_end - i,
    {
        let update = model.step(current, i);
        updates.push(update);
        i += 1;
    }
    updates
}

/// An index-aligned copy of a position buffer.
fn copy_positions<S: Copy>(src: &Vec<Node<S>>) -> (out: Vec<Node<S>>)
    ensures
        out@ == src@,
{
    let mut out: Vec<Node<S>> = Vec::new();
    let mut i: usize = 0;
    while i < src.len()
        invariant
            i <= src@.len(),
            out@.len() == i,
            forall|j: int| 0 <= j < i ==> out@[j] == src@[j],
        decreases src@.len() - i,
    {
        out.push(src[i]);
        i += 1;
    }
    proof {
        assert(out@ =~= src@);
    }
    out
}

/// The iteration driver: a fixed iteration budget and a worker count.
pub struct Runner {
    pub iterations: usize,
    pub threads: usize,
}

impl Runner {
    /// A driver for `iterations` iterations on `threads` workers. A zero
    /// worker count falls back to a single worker: the driver computes the
    /// same positions whatever the worker count, so an embedder that wants
    /// hardware parallelism resolves it before constructing the `Runner`.
    pub fn new(iterations: usize, threads: usize) -> (r: Runner)
        ensures
            r.iterations == iterations,
            r.threads == if threads == 0 {
                1usize
            } else {
                threads
            },
    {
        if threads == 0 {
            Runner { iterations, threads: 1 }
        } else {
            Runner { iterations, threads }
        }
    }

    /// Runs the full relaxation: binds the model to the graph, then
    /// repeats `prepare` followed by a chunked step phase over a double
    /// buffer, and returns the final `(x, y)` pair of every node,
    /// index-aligned with the node ids.
    ///
    /// The result is pinned to `run_iterations(...)`, a function of the
    /// model, the edge matrix, the initial positions and the iteration
    /// count alone: the worker count never changes the returned values,
    /// and a run of zero iterations returns the initial positions.
    pub fn layout<S: Copy, M: ForceModel<S>>(
        &self,
        number_of_nodes: usize,
        edges: &EdgeMatrix<S>,
        model: &mut M,
        initial: &Vec<Node<S>>,
    ) -> (result: Vec<(S, S)>)
        requires
            edges.wf(),
            edges@.len() == number_of_nodes,
            initial@.len() == number_of_nodes,
        ensures
            ({
                let outcome = run_iterations(
                    old(model).spec_init(edges@, number_of_nodes as int, self.iterations as int),
                    initial@,
                    self.iterations as nat,
                );
                &&& *final(model) == outcome.0
                &&& result@.len() == number_of_nodes
                &&& forall|i: int|
                    0 <= i < number_of_nodes ==> result@[i] == (outcome.1[i].x, outcome.1[i].y)
                &&& self.iterations == 0 ==> forall|i: int|
                    0 <= i < number_of_nodes ==> result@[i] == (initial@[i].x, initial@[i].y)
            }),
    {
        let threads: usize = if self.threads == 0 {
            1
        } else {
            self.threads
        };
        model.init(edges, number_of_nodes, self.iterations);
        let ghost m0 = *model;
        let mut nodes = copy_positions(initial);
        let mut nodes_next = copy_positions(initial);
        let chunks = gen_chunks(number_of_nodes, threads);
        let mut epoch: usize = 0;
        while epoch < self.iterations
            invariant
                epoch <= self.iterations,
                nodes@.len() == number_of_nodes,
                nodes_next@.len() == number_of_nodes,
                chunks@.len() >= 1,
                chunks@[0].start == 0,
                chunks@[chunks@.len() - 1].end == number_of_nodes,
                forall|c: int|
                    0 <= c < chunks@.len() - 1 ==> #[trigger] chunks@[c].end == chunks@[c
                        + 1].start,
                forall|c: int|
                    0 <= c < chunks@.len() ==> #[trigger] chunks@[c].start <= chunks@[c].end
                        && chunks@[c].end <= number_of_nodes,
                run_iterations(m0, initial@, epoch as nat) == (*model, nodes@),
            decreases self.iterations - epoch,
        {
            proof {
                lemma_run_iterations_unfold_back(m0, initial@, epoch as nat);
            }
            model.prepare(&nodes);
            let mut c: usize = 0;
            while c < chunks.len()
                invariant
                    c <= chunks@.len(),
                    nodes@.len() == number_of_nodes,
                    nodes_next@.len() == number_of_nodes,
                    chunks@[0].start == 0,
                    chunks@[chunks@.len() - 1].end == number_of_nodes,
                    chunks@.len() >= 1,
                    forall|cc: int|
                        0 <= cc < chunks@.len() - 1 ==> #[trigger] chunks@[cc].end == chunks@[cc
                            + 1].start,
                    forall|cc: int|
                        0 <= cc < chunks@.len() ==> #[trigger] chunks@[cc].start
                            <= chunks@[cc].end && chunks@[cc].end <= number_of_nodes,
                    forall|j: int|
                        0 <= j < (if c < chunks@.len() {
                            chunks@[c as int].start as int
                        } else {
                            number_of_nodes as int
                        }) ==> #[trigger] nodes_next@[j] == model.spec_step(nodes@, j),
                decreases chunks@.len() - c,
            {
                let chunk_start = chunks[c].start;
                let chunk_end = chunks[c].end;
                let updates = step_chunk(model, &nodes, chunk_start, chunk_end);
                let mut t: usize = 0;
                while t < updates.len()
                    invariant
                        t <= updates@.len(),
                        updates@.len() == chunk_end - chunk_start,
                        chunk_start <= chunk_end <= number_of_nodes,
                        nodes@.len() == number_of_nodes,
                        nodes_next@.len() == number_of_nodes,
                        forall|u: int|
                            0 <= u < updates@.len() ==> #[trigger] updates@[u] == model.spec_step(
                                nodes@,
                                chunk_start + u,
                            ),
                        forall|j: int|
                            0 <= j < chunk_start ==> #[trigger] nodes_next@[j] == model.spec_step(
                                nodes@,
                                j,
                            ),
                        forall|j: int|
                            chunk_start <= j < chunk_start + t ==> #[trigger] nodes_next@[j]
                                == model.spec_step(nodes@, j),
                    decreases updates@.len() - t,
                {
                    let update = updates[t];
                    nodes_next.set(chunk_start + t, update);
                    t += 1;
                }
                c += 1;
                proof {
                    if c < chunks@.len() {
                        assert(chunks@[c - 1].end == chunks@[c as int].start);
                    }
                }
            }
            proof {
                assert(nodes_next@ =~= step_all(*model, nodes@));
            }
            core::mem::swap(&mut nodes, &mut nodes_next);
            epoch += 1;
        }
        let mut result: Vec<(S, S)> = Vec::new();
        let mut i: usize = 0;
        while i < number_of_nodes
            invariant
                i <= number_of_nodes,
                nodes@.len() == number_of_nodes,
                result@.len() == i,
                forall|j: int| 0 <= j < i ==> result@[j] == (nodes@[j].x, nodes@[j].y),
            decreases number_of_nodes - i,
        {
            let node = nodes[i];
            result.push((node.x, node.y));
            i += 1;
        }
        result
    }
}

/// The undirected pair `(i, j)` occurs somewhere in the edge list.
pub open spec fn edge_listed(edge_list: Seq<(u32, u32)>, i: int, j: int) -> bool {
    exists|k: int|
        0 <= k < edge_list.len() && (((#[trigger] edge_list[k]).0 == i && edge_list[k].1 == j) || (
        edge_list[k].0 == j && edge_list[k].1 == i))
}

/// The matrix an edge list denotes: entry `(i, j)` holds `edge_weight`
/// exactly when the list names the pair in either order, and `no_edge`
/// otherwise.
pub open spec fn edge_matrix_spec<S>(
    number_of_nodes: int,
    edge_list: Seq<(u32, u32)>,
    no_edge: S,
    edge_weight: S,
) -> Seq<Seq<S>> {
    Seq::new(
        number_of_nodes as nat,
        |i: int|
            Seq::new(
                number_of_nodes as nat,
                |j: int|
                    if edge_listed(edge_list, i, j) {
                        edge_weight
                    } else {
                        no_edge
                    },
            ),
    )
}

/// Builds the symmetric edge matrix of an edge list: entry `(i, j)` holds
/// `edge_weight` exactly when the list names the pair in either order, and
/// `no_edge` otherwise, so duplicate edges are idempotent. An edge naming a
/// node at or beyond `number_of_nodes` is rejected before any work starts.
pub fn edge_matrix_from_edge_list<S: Copy>(
    number_of_nodes: usize,
    edge_list: &Vec<(u32, u32)>,
    no_edge: S,
    edge_weight: S,
) -> (result: Result<EdgeMatrix<S>, LayoutError>)
    ensures
        match result {
            Ok(m) => {
                &&& forall|k: int|
                    0 <= k < edge_list@.len() ==> (#[trigger] edge_list@[k]).0 < number_of_nodes
                        && edge_list@[k].1 < number_of_nodes
                &&& m.wf()
                &&& m.symmetric()
                &&& m@.len() == number_of_nodes
                &&& m@ == edge_matrix_spec(number_of_nodes as int, edge_list@, no_edge, edge_weight)
                &&& forall|i: int, j: int|
                    0 <= i < number_of_nodes && 0 <= j < number_of_nodes
                        ==> #[trigger] m@[i][j] == if edge_listed(edge_list@, i, j) {
                        edge_weight
                    } else {
                        no_edge
                    }
            },
            Err(e) => {
                &&& e == LayoutError::EdgeEndpointOutOfRange
                &&& exists|k: int|
                    0 <= k < edge_list@.len() && ((#[trigger] edge_list@[k]).0 >= number_of_nodes
                        || edge_list@[k].1 >= number_of_nodes)
            },
        },
{
    let mut k: usize = 0;
    while k < edge_list.len()
        invariant
            k <= edge_list@.len(),
            forall|t: int|
                0 <= t < k ==> (#[trigger] edge_list@[t]).0 < number_of_nodes && edge_list@[t].1
                    < number_of_nodes,
        decreases edge_list@.len() - k,
    {
        let (a, b) = edge_list[k];
        if a as usize >= number_of_nodes || b as usize >= number_of_nodes {
            return Err(LayoutError::EdgeEndpointOutOfRange);
        }
        k += 1;
    }
    let mut matrix = new_edge_matrix(number_of_nodes, no_edge);
    let mut k: usize = 0;
    while k < edge_list.len()
        invariant
            k <= edge_list@.len(),
            forall|t: int|
                0 <= t < edge_list@.len() ==> (#[trigger] edge_list@[t]).0 < number_of_nodes
                    && edge_list@[t].1 < number_of_nodes,
            matrix.wf(),
            matrix@.len() == number_of_nodes,
            forall|i: int, j: int|
                0 <= i < number_of_nodes && 0 <= j < number_of_nodes ==> #[trigger] matrix@[i][j]
                    == if edge_listed(edge_list@.take(k as int), i, j) {
                    edge_weight
                } else {
                    no_edge
                },
        decreases edge_list@.len() - k,
    {
        let (a, b) = edge_list[k];
        let ghost before = matrix@;
        add_edge(&mut matrix, a as usize, b as usize, edge_weight);
        proof {
            let prefix = edge_list@.take(k as int);
            let grown = edge_list@.take(k as int + 1);
            assert(grown.len() == k + 1);
            assert(grown[k as int] == edge_list@[k as int]);
            assert(forall|t: int| 0 <= t < k ==> #[trigger] grown[t] == edge_list@[t]);
            assert(forall|t: int| 0 <= t < k ==> #[trigger] prefix[t] == edge_list@[t]);
            let a_i = a as int;
            let b_i = b as int;
            assert forall|i: int, j: int|
                0 <= i < number_of_nodes && 0 <= j < number_of_nodes implies #[trigger] matrix@[i][j]
                == if edge_listed(grown, i, j) {
                edge_weight
            } else {
                no_edge
            } by {
                if (i == a_i && j == b_i) || (i == b_i && j == a_i) {
                    assert(grown[k as int].0 == a_i && grown[k as int].1 == b_i);
                    assert(edge_listed(grown, i, j));
                } else {
                    assert(matrix@[i][j] == before[i][j]);
                    if edge_listed(grown, i, j) {
                        let t = choose|t: int|
                            0 <= t < grown.len() && (((#[trigger] grown[t]).0 == i && grown[t].1
                                == j) || (grown[t].0 == j && grown[t].1 == i));
                        assert(t < k);
                        assert(prefix[t] == grown[t]);
                        assert(edge_listed(prefix, i, j));
                    }
                    if edge_listed(prefix, i, j) {
                        let t = choose|t: int|
                            0 <= t < prefix.len() && (((#[trigger] prefix[t]).0 == i && prefix[t].1
                                == j) || (prefix[t].0 == j && prefix[t].1 == i));
                        assert(grown[t] == prefix[t]);
                        assert(edge_listed(grown, i, j));
                    }
                }
            }
        }
        k += 1;
    }
    proof {
        assert(edge_list@.take(edge_list@.len() as int) =~= edge_list@);
        let denoted = edge_matrix_spec(number_of_nodes as int, edge_list@, no_edge, edge_weight);
        assert forall|i: int| 0 <= i < number_of_nodes implies matrix@[i] =~= denoted[i] by {
            assert(forall|j: int| 0 <= j < number_of_nodes ==> matrix@[i][j] == denoted[i][j]);
        }
        assert(matrix@ =~= denoted);
    }
    Ok(matrix)
}

/// The step results of one chunk, as a sequence.
pub open spec fn chunk_updates<S, M: ForceModel<S>>(
    m: M,
    current: Seq<Node<S>>,
    chunk: Range<usize>,
) -> Seq<Node<S>> {
    if chunk.start <= chunk.end {
        Seq::new((chunk.end - chunk.start) as nat, |t: int| m.spec_step(current, chunk.start + t))
    } else {
        Seq::empty()
    }
}

/// The concatenated step results of a list of chunks, in list order.
pub open spec fn chunked_step_all<S, M: ForceModel<S>>(
    m: M,
    current: Seq<Node<S>>,
    chunks: Seq<Range<usize>>,
) -> Seq<Node<S>>
    decreases chunks.len(),
{
    if chunks.len() == 0 {
        Seq::empty()
    } else {
        chunk_updates(m, current, chunks[0]) + chunked_step_all(m, current, chunks.drop_first())
    }
}

/// Helper: a contiguous list of chunks from `lo` to `hi` computes the same
/// positions as one pass over `[lo, hi)`.
proof fn lemma_chunked_segment<S, M: ForceModel<S>>(
    m: M,
    current: Seq<Node<S>>,
    chunks: Seq<Range<usize>>,
    lo: int,
    hi: int,
)
    requires
        lo <= hi,
        chunks.len() == 0 ==> lo == hi,
        chunks.len() > 0 ==> chunks[0].start == lo && chunks[chunks.len() - 1].end == hi,
        forall|c: int|
            0 <= c < chunks.len() - 1 ==> #[trigger] chunks[c].end == chunks[c + 1].start,
        forall|c: int| 0 <= c < chunks.len() ==> #[trigger] chunks[c].start <= chunks[c].end,
        forall|c: int| 0 <= c < chunks.len() ==> #[trigger] chunks[c].end <= hi,
    ensures
        chunked_step_all(m, current, chunks) == Seq::new(
            (hi - lo) as nat,
            |t: int| m.spec_step(current, lo + t),
        ),
    decreases chunks.len(),
{
    let whole = Seq::new((hi - lo) as nat, |t: int| m.spec_step(current, lo + t));
    if chunks.len() == 0 {
        assert(chunked_step_all(m, current, chunks) =~= whole);
    } else {
        let mid = chunks[0].end as int;
        let head = chunk_updates(m, current, chunks[0]);
        let rest = chunks.drop_first();
        assert(rest.len() > 0 ==> rest[0].start == mid && rest[rest.len() - 1].end == hi);
        assert(rest.len() == 0 ==> mid == hi);
        assert(forall|c: int|
            0 <= c < rest.len() - 1 ==> #[trigger] rest[c].end == rest[c + 1].start);
        assert(forall|c: int| 0 <= c < rest.len() ==> #[trigger] rest[c].start <= rest[c].end);
        assert(forall|c: int| 0 <= c < rest.len() ==> #[trigger] rest[c].end <= hi);
        assert(chunks[0].end <= hi);
        lemma_chunked_segment(m, current, rest, mid, hi);
        let tail = Seq::new((hi - mid) as nat, |t: int| m.spec_step(current, mid + t));
        assert(head.len() == mid - lo);
        assert(chunked_step_all(m, current, chunks) == head + tail);
        assert forall|t: int| 0 <= t < hi - lo implies (head + tail)[t] == whole[t] by {
            if t < mid - lo {
                assert((head + tail)[t] == head[t]);
                assert(head[t] == m.spec_step(current, lo + t));
            } else {
                assert((head + tail)[t] == tail[t - (mid - lo)]);
                assert(tail[t - (mid - lo)] == m.spec_step(current, mid + (t - (mid - lo))));
            }
        }
        assert(chunked_step_all(m, current, chunks) =~= whole);
    }
}

/// The decomposition law behind deterministic output: however `[0, n)` is
/// cut into contiguous chunks — one worker per chunk — the concatenation of
/// the per-chunk step results is exactly the single whole-buffer step
/// phase, so the worker decomposition decides only which worker computes a
/// node, never the node's value.
pub proof fn lemma_chunked_step_all_eq<S, M: ForceModel<S>>(
    m: M,
    current: Seq<Node<S>>,
    chunks: Seq<Range<usize>>,
)
    requires
        chunks.len() >= 1,
        chunks[0].start == 0,
        chunks[chunks.len() - 1].end == current.len(),
        forall|c: int|
            0 <= c < chunks.len() - 1 ==> #[trigger] chunks[c].end == chunks[c + 1].start,
        forall|c: int| 0 <= c < chunks.len() ==> #[trigger] chunks[c].start <= chunks[c].end,
        forall|c: int| 0 <= c < chunks.len() ==> #[trigger] chunks[c].end <= current.len(),
    ensures
        chunked_step_all(m, current, chunks) == step_all(m, current),
{
    lemma_chunked_segment(m, current, chunks, 0, current.len() as int);
    assert(chunked_step_all(m, current, chunks) =~= step_all(m, current));
}

} // verus!
