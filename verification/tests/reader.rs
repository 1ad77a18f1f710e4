use graph_force::reader::{parse_graph_data, GraphDataError};

fn record(a: u32, b: u32, w: f32) -> Vec<u8> {
    let mut bytes = Vec::new();
    bytes.extend_from_slice(&a.to_le_bytes());
    bytes.extend_from_slice(&b.to_le_bytes());
    bytes.extend_from_slice(&w.to_le_bytes());
    bytes
}

#[test]
fn test_parse_graph_data() {
    let mut data = 3u32.to_le_bytes().to_vec();
    data.extend(record(0, 1, 1.0));
    data.extend(record(1, 2, 0.5));
    let (size, edges) = parse_graph_data(&data).unwrap();
    assert_eq!(size, 3);
    assert_eq!(edges, vec![(0, 1), (1, 2)]);
}

#[test]
fn test_parse_graph_data_ignores_trailing_partial_record() {
    let mut data = 2u32.to_le_bytes().to_vec();
    data.extend(record(0, 1, 1.0));
    data.extend_from_slice(&[7, 7, 7]); // an incomplete record at the end
    let (size, edges) = parse_graph_data(&data).unwrap();
    assert_eq!(size, 2);
    assert_eq!(edges, vec![(0, 1)]);
}

#[test]
fn test_parse_graph_data_header_only() {
    let data = 9u32.to_le_bytes().to_vec();
    let (size, edges) = parse_graph_data(&data).unwrap();
    assert_eq!(size, 9);
    assert!(edges.is_empty());
}

#[test]
fn test_parse_graph_data_short_header() {
    assert_eq!(parse_graph_data(&vec![]), Err(GraphDataError::MissingHeader));
    assert_eq!(parse_graph_data(&vec![1, 0, 0]), Err(GraphDataError::MissingHeader));
}

#[test]
fn test_parse_graph_data_little_endian_header() {
    let mut data = vec![0x01, 0x02, 0x00, 0x00]; // 0x0201 = 513 nodes
    data.extend(record(513, 0, 2.0));
    let (size, edges) = parse_graph_data(&data).unwrap();
    assert_eq!(size, 513);
    assert_eq!(edges, vec![(513, 0)]);
}
