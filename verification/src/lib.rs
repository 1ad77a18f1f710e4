//! Force-directed 2D graph layout: a node/edge data model, pluggable force
//! models, and a fixed-iteration relaxation driver that partitions the node
//! range into disjoint chunks.
//!
//! The library is generic over the scalar type of coordinates and edge
//! weights, so the numeric force models supply their own scalar while the
//! data model, the partitioner and the iteration driver are verified once
//! for every scalar.

use vstd::prelude::*;

pub mod graph;
pub mod model;
pub mod reader;
pub mod runner;
pub mod utils;

verus! {

use crate::graph::Node;
use crate::model::{ForceModel, run_iterations};
use crate::runner::{Runner, edge_matrix_from_edge_list, edge_matrix_spec};

/// A configuration error, reported synchronously before any work starts.
#[derive(Clone, Copy, PartialEq, Eq, Structural, Debug)]
pub enum LayoutError {
    /// The model name is not one of the known force models.
    UnknownModel,
    /// The caller-supplied initial positions do not have one entry per node.
    InitialPositionLength,
    /// An edge names a node index at or beyond the declared node count.
    EdgeEndpointOutOfRange,
}

/// The force-model strategies an embedder can ask for by name.
#[derive(Clone, Copy, PartialEq, Eq, Structural, Debug)]
pub enum ModelKind {
    /// The spring/repulsion model.
    SpringModel,
    /// The temperature-normalized model.
    NetworkXModel,
}

/// Resolves a model name: exactly `"spring_model"` and `"networkx_model"`
/// are known; any other name is reported, never silently defaulted.
pub fn pick_model(model: &str) -> (r: Result<ModelKind, LayoutError>)
    ensures
        model@ == "spring_model"@ ==> r == Ok::<ModelKind, LayoutError>(ModelKind::SpringModel),
        model@ == "networkx_model"@ ==> r == Ok::<ModelKind, LayoutError>(
            ModelKind::NetworkXModel,
        ),
        model@ != "spring_model"@ && model@ != "networkx_model"@ ==> r == Err::<
            ModelKind,
            LayoutError,
        >(LayoutError::UnknownModel),
{
    proof {
        reveal_strlit("spring_model");
        reveal_strlit("networkx_model");
        assert("spring_model"@.len() != "networkx_model"@.len());
        assert("spring_model"@ != "networkx_model"@);
    }
    if str_eq(model, "spring_model") {
        Ok(ModelKind::SpringModel)
    } else if str_eq(model, "networkx_model") {
        Ok(ModelKind::NetworkXModel)
    } else {
        Err(LayoutError::UnknownModel)
    }
}

/// The engine entry point for an edge list: validates the configuration,
/// builds the symmetric edge matrix, and runs the relaxation. Initial
/// positions must have one entry per node and every edge endpoint must lie
/// below the node count; either violation is reported before any work
/// starts, and the model is left untouched. On success the returned
/// positions are pinned to `run_iterations` over the matrix the edge list
/// denotes — a function of the model, the positions and the iteration
/// count alone, never of the worker count.
pub fn layout_from_edge_list<S: Copy, M: ForceModel<S>>(
    number_of_nodes: usize,
    edge_list: &Vec<(u32, u32)>,
    iterations: usize,
    threads: usize,
    model: &mut M,
    initial_pos: &Vec<Node<S>>,
    no_edge: S,
    edge_weight: S,
) -> (r: Result<Vec<(S, S)>, LayoutError>)
    ensures
        match r {
            Ok(result) => {
                &&& initial_pos@.len() == number_of_nodes
                &&& forall|k: int|
                    0 <= k < edge_list@.len() ==> (#[trigger] edge_list@[k]).0 < number_of_nodes
                        && edge_list@[k].1 < number_of_nodes
                &&& ({
                    let outcome = run_iterations(
                        old(model).spec_init(
                            edge_matrix_spec(
                                number_of_nodes as int,
                                edge_list@,
                                no_edge,
                                edge_weight,
                            ),
                            number_of_nodes as int,
                            iterations as int,
                        ),
                        initial_pos@,
                        iterations as nat,
                    );
                    &&& *final(model) == outcome.0
                    &&& result@.len() == number_of_nodes
                    &&& forall|i: int|
                        0 <= i < number_of_nodes ==> result@[i] == (
                        outcome.1[i].x,
                        outcome.1[i].y,
                        )
                })
            },
            Err(e) => {
                &&& *final(model) == *old(model)
                &&& match e {
                    LayoutError::InitialPositionLength => initial_pos@.len() != number_of_nodes,
                    LayoutError::EdgeEndpointOutOfRange => initial_pos@.len() == number_of_nodes
                        && exists|k: int|
                        0 <= k < edge_list@.len() && ((#[trigger] edge_list@[k]).0
                            >= number_of_nodes || edge_list@[k].1 >= number_of_nodes),
                    LayoutError::UnknownModel => false,
                }
            },
        },
{
    if initial_pos.len() != number_of_nodes {
        return Err(LayoutError::InitialPositionLength);
    }
    let matrix = match edge_matrix_from_edge_list(number_of_nodes, edge_list, no_edge, edge_weight)
        {
        Ok(m) => m,
        Err(e) => {
            return Err(e);
        },
    };
    let runner = Runner::new(iterations, threads);
    Ok(runner.layout(number_of_nodes, &matrix, model, initial_pos))
}

/// Relies on str's PartialEq: true exactly when the two strings hold the
/// same characters.
#[verifier::external_body]
fn str_eq(a: &str, b: &str) -> (r: bool)
    ensures
        r == (a@ == b@),
{
    a == b
}

/// Turns caller-supplied `(x, y)` pairs into a position buffer,
/// index-aligned; `None` stays `None`, leaving the seeding policy to the
/// caller.
pub fn initial_pos_to_node_vector<S: Copy>(initial_pos: &Option<Vec<(S, S)>>) -> (r: Option<
    Vec<Node<S>>,
>)
    ensures
        match r {
            Some(nodes) => {
                &&& initial_pos is Some
                &&& nodes@.len() == initial_pos->Some_0@.len()
                &&& forall|i: int|
                    0 <= i < nodes@.len() ==> #[trigger] nodes@[i] == (Node {
                        x: initial_pos->Some_0@[i].0,
                        y: initial_pos->Some_0@[i].1,
                    })
            },
            None => initial_pos is None,
        },
{
    match initial_pos {
        Some(pos) => {
            let mut nodes: Vec<Node<S>> = Vec::new();
            let mut i: usize = 0;
            while i < pos.len()
                invariant
                    i <= pos@.len(),
                    nodes@.len() == i,
                    forall|j: int|
                        0 <= j < i ==> #[trigger] nodes@[j] == (Node {
                            x: pos@[j].0,
                            y: pos@[j].1,
                        }),
                decreases pos@.len() - i,
            {
                let (x, y) = pos[i];
                nodes.push(Node { x, y });
                i += 1;
            }
            Some(nodes)
        },
        None => None,
    }
}

} // verus!
