use graph_force::graph::Node;
use graph_force::model::CounterModel;
use graph_force::{
    initial_pos_to_node_vector, layout_from_edge_list, pick_model, LayoutError, ModelKind,
};

#[test]
fn test_pick_model_spring() {
    assert_eq!(pick_model("spring_model"), Ok(ModelKind::SpringModel));
}

#[test]
fn test_pick_model_networkx() {
    assert_eq!(pick_model("networkx_model"), Ok(ModelKind::NetworkXModel));
}

#[test]
fn test_pick_model_unknown() {
    assert_eq!(pick_model("annealed"), Err(LayoutError::UnknownModel));
    assert_eq!(pick_model(""), Err(LayoutError::UnknownModel));
}

#[test]
fn test_initial_pos_to_node_vector_some() {
    let pos = Some(vec![(1.0f32, 2.0f32), (-0.5, 0.25)]);
    let nodes = initial_pos_to_node_vector(&pos).unwrap();
    assert_eq!(nodes.len(), 2);
    assert_eq!(nodes[0].x, 1.0);
    assert_eq!(nodes[0].y, 2.0);
    assert_eq!(nodes[1].x, -0.5);
    assert_eq!(nodes[1].y, 0.25);
}

#[test]
fn test_initial_pos_to_node_vector_none() {
    let pos: Option<Vec<(f32, f32)>> = None;
    assert!(initial_pos_to_node_vector(&pos).is_none());
}

#[test]
fn test_layout_from_edge_list_counts_iterations() {
    let mut model = CounterModel { counter: 0 };
    let initial = vec![Node { x: 9u64, y: 9u64 }; 3];
    let result = layout_from_edge_list(3, &vec![(0, 1)], 4, 2, &mut model, &initial, 0u64, 1u64)
        .unwrap();
    assert_eq!(result, vec![(0, 4), (1, 4), (2, 4)]);
}

#[test]
fn test_layout_from_edge_list_zero_iterations() {
    let mut model = CounterModel { counter: 0 };
    let initial = vec![Node { x: 3u64, y: 8u64 }, Node { x: 4u64, y: 6u64 }];
    let result = layout_from_edge_list(2, &vec![], 0, 1, &mut model, &initial, 0u64, 1u64)
        .unwrap();
    assert_eq!(result, vec![(3, 8), (4, 6)]);
}

#[test]
fn test_layout_from_edge_list_initial_length_mismatch() {
    let mut model = CounterModel { counter: 0 };
    let initial = vec![Node { x: 0u64, y: 0u64 }; 2];
    let result = layout_from_edge_list(3, &vec![], 5, 1, &mut model, &initial, 0u64, 1u64);
    assert_eq!(result, Err(LayoutError::InitialPositionLength));
}

#[test]
fn test_layout_from_edge_list_edge_out_of_range() {
    let mut model = CounterModel { counter: 0 };
    let initial = vec![Node { x: 0u64, y: 0u64 }; 3];
    let result = layout_from_edge_list(3, &vec![(0, 3)], 5, 1, &mut model, &initial, 0u64, 1u64);
    assert_eq!(result, Err(LayoutError::EdgeEndpointOutOfRange));
}
