use graph_force::utils::gen_chunks;

#[test]
fn test_gen_chunks() {
    let borders = gen_chunks(10, 3);
    assert_eq!(borders, vec![(0..4), (4..7), (7..10)]);
}

#[test]
fn test_gen_chunks2() {
    let borders = gen_chunks(10, 2);
    assert_eq!(borders, vec![(0..5), (5..10)]);
}

#[test]
fn test_gen_chunks3() {
    let borders = gen_chunks(10, 1);
    assert_eq!(borders, vec![(0..10)]);
}

#[test]
fn test_gen_chunks4() {
    let borders = gen_chunks(11, 3);
    assert_eq!(borders, vec![(0..4), (4..8), (8..11)]);
}

#[test]
fn test_gen_chunks_empty_range() {
    let borders = gen_chunks(0, 4);
    assert_eq!(borders, vec![(0..0), (0..0), (0..0), (0..0)]);
}

#[test]
fn test_gen_chunks_more_workers_than_nodes() {
    let borders = gen_chunks(2, 3);
    assert_eq!(borders, vec![(0..1), (1..2), (2..2)]);
}
