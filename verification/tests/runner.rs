use graph_force::graph::{EdgeMatrix, Node};
use graph_force::model::{CounterModel, ForceModel};
use graph_force::runner::{edge_matrix_from_edge_list, Runner};

struct MockModel {
    counter: usize,
}

impl ForceModel<f32> for MockModel {
    fn init(&mut self, _edges: &EdgeMatrix<f32>, _size: usize, _iterations: usize) {}
    fn prepare(&mut self, _nodes: &Vec<Node<f32>>) {
        self.counter += 1;
    }
    fn step(&self, _nodes: &Vec<Node<f32>>, i_node: usize) -> Node<f32> {
        Node {
            x: i_node as f32,
            y: self.counter as f32,
        }
    }
}

/// A model with genuine position-dependent arithmetic, to observe that the
/// worker decomposition never changes the computed values.
struct PullModel;

impl ForceModel<f32> for PullModel {
    fn init(&mut self, _edges: &EdgeMatrix<f32>, _size: usize, _iterations: usize) {}
    fn prepare(&mut self, _nodes: &Vec<Node<f32>>) {}
    fn step(&self, nodes: &Vec<Node<f32>>, i_node: usize) -> Node<f32> {
        let mut x = nodes[i_node].x;
        let mut y = nodes[i_node].y;
        for (o, other) in nodes.iter().enumerate() {
            if o != i_node {
                x += 0.125 * (other.x - nodes[i_node].x);
                y += 0.125 * (other.y - nodes[i_node].y);
            }
        }
        Node { x, y }
    }
}

fn zero_positions(n: usize) -> Vec<Node<f32>> {
    vec![Node { x: 0.0, y: 0.0 }; n]
}

#[test]
fn test_edge_matrix_from_edge_list() {
    let edge_list = vec![(0, 1), (1, 2)];
    let matrix = edge_matrix_from_edge_list(3, &edge_list, 0.0f32, 1.0f32).unwrap();
    assert_eq!(matrix.weight(0, 1), 1.0);
    assert_eq!(matrix.weight(1, 0), 1.0);
    assert_eq!(matrix.weight(1, 2), 1.0);
    assert_eq!(matrix.weight(2, 1), 1.0);

    assert_eq!(matrix.weight(0, 0), 0.0);
    assert_eq!(matrix.weight(1, 1), 0.0);
    assert_eq!(matrix.weight(2, 2), 0.0);

    assert_eq!(matrix.weight(0, 2), 0.0);
    assert_eq!(matrix.weight(2, 0), 0.0);
}

#[test]
fn test_edge_matrix_from_edge_list_rejects_out_of_range() {
    let edge_list = vec![(0, 1), (1, 3)];
    let result = edge_matrix_from_edge_list(3, &edge_list, 0.0f32, 1.0f32);
    assert_eq!(result.err(), Some(graph_force::LayoutError::EdgeEndpointOutOfRange));
}

#[test]
fn test_layout() {
    let edge_list = vec![];
    let mut model = MockModel { counter: 0 };
    let runner = Runner::new(10, 1);
    let edges = edge_matrix_from_edge_list(3, &edge_list, 0.0f32, 1.0f32).unwrap();
    let initial = zero_positions(3);
    let result = runner.layout(3, &edges, &mut model, &initial);
    assert_eq!(result, vec![(0.0, 10.0), (1.0, 10.0), (2.0, 10.0)]);
}

#[test]
fn test_layout_barrier_any_worker_count() {
    for threads in 1..6 {
        let mut model = MockModel { counter: 0 };
        let runner = Runner::new(10, threads);
        let edges = edge_matrix_from_edge_list(4, &vec![], 0.0f32, 1.0f32).unwrap();
        let initial = zero_positions(4);
        let result = runner.layout(4, &edges, &mut model, &initial);
        for (i, pos) in result.iter().enumerate() {
            assert_eq!(*pos, (i as f32, 10.0));
        }
    }
}

#[test]
fn test_layout_counter_model_counts_iterations() {
    let mut model = CounterModel { counter: 0 };
    let runner = Runner::new(7, 2);
    let edges = edge_matrix_from_edge_list(3, &vec![(0u32, 1u32)], 0u64, 1u64).unwrap();
    let initial = vec![Node { x: 5u64, y: 5u64 }; 3];
    let result = runner.layout(3, &edges, &mut model, &initial);
    assert_eq!(result, vec![(0, 7), (1, 7), (2, 7)]);
    assert_eq!(model.counter, 7);
}

#[test]
fn test_layout_zero_iterations() {
    let mut model = PullModel;
    let runner = Runner::new(0, 3);
    let edges = edge_matrix_from_edge_list(3, &vec![(0, 1)], 0.0f32, 1.0f32).unwrap();
    let initial = vec![
        Node { x: 0.25, y: -1.5 },
        Node { x: 2.0, y: 0.5 },
        Node { x: -3.5, y: 4.0 },
    ];
    let result = runner.layout(3, &edges, &mut model, &initial);
    assert_eq!(result, vec![(0.25, -1.5), (2.0, 0.5), (-3.5, 4.0)]);
}

#[test]
fn test_layout_deterministic_across_worker_counts() {
    let initial = vec![
        Node { x: 0.5, y: -0.25 },
        Node { x: -0.125, y: 0.375 },
        Node { x: 0.75, y: 0.0625 },
        Node { x: -0.4375, y: -0.875 },
        Node { x: 0.203125, y: 0.59375 },
    ];
    let edge_list = vec![(0, 1), (1, 2), (3, 4)];
    let mut reference: Option<Vec<(f32, f32)>> = None;
    for threads in 1..7 {
        let mut model = PullModel;
        let runner = Runner::new(25, threads);
        let edges = edge_matrix_from_edge_list(5, &edge_list, 0.0f32, 1.0f32).unwrap();
        let result = runner.layout(5, &edges, &mut model, &initial);
        match &reference {
            None => reference = Some(result),
            Some(expected) => {
                // bit-identical, not merely approximately equal
                for (got, want) in result.iter().zip(expected.iter()) {
                    assert_eq!(got.0.to_bits(), want.0.to_bits());
                    assert_eq!(got.1.to_bits(), want.1.to_bits());
                }
            }
        }
    }
}
