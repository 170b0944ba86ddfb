use riemann_graphs::edge::Edge;
use riemann_graphs::graph::Graph;

#[test]
fn new_u32_graph_has_all_vertices_and_no_edges() {
    let mut g = Graph::new(4);
    assert_eq!(g.size, 4);
    assert_eq!(g.vertices, vec![0, 1, 2, 3]);
    assert_eq!(g.edges.len(), 0);
    assert_eq!(g.adj_matrix.len(), 4);
    for row in &g.adj_matrix {
        assert_eq!(row, &vec![0, 0, 0, 0]);
    }
    assert!(g.contains_vertex(2));
    assert!(!g.contains_vertex(4));
}

#[test]
fn add_edge_records_orientation_and_symmetric_distance() {
    let mut g = Graph::new(3);
    g.add_edge(0, 1, 5);
    assert!(g.contains_edge(0, 1));
    assert!(!g.contains_edge(1, 0));
    assert_eq!(g.adj_matrix[0][1], 5);
    assert_eq!(g.adj_matrix[1][0], 5);
    assert_eq!(g.edges.len(), 1);
}

#[test]
fn add_edge_ignores_duplicates_and_out_of_range_endpoints() {
    let mut g = Graph::new(3);
    g.add_edge(0, 1, 5);
    g.add_edge(0, 1, 9);
    assert_eq!(g.edges.len(), 1);
    assert_eq!(g.adj_matrix[0][1], 5);
    g.add_edge(0, 3, 2);
    g.add_edge(3, 0, 2);
    assert_eq!(g.edges.len(), 1);
}

#[test]
fn randomize_connects_all_distinct_pairs_within_range() {
    let mut g = Graph::new(4);
    g.randomize(7, 8);
    for i in 0..4 {
        for j in 0..4 {
            if i != j {
                assert!(g.contains_edge(i, j));
                assert_eq!(g.adj_matrix[i as usize][j as usize], 7);
            } else {
                assert!(!g.contains_edge(i, j));
            }
        }
    }
    for e in &g.edges {
        assert_eq!(e.distance, 7);
        assert_ne!(e.v, e.w);
    }
}

#[test]
fn randomize_respects_wider_range() {
    let mut g = Graph::new(3);
    g.randomize(1, 4);
    for e in &g.edges {
        assert!(1 <= e.distance && e.distance < 4);
    }
}

#[test]
fn edge_new_is_zeroed() {
    let e = Edge::new();
    assert_eq!(e.v, 0);
    assert_eq!(e.w, 0);
    assert_eq!(e.distance, 0);
}

#[test]
fn edges_compare_by_distance_alone() {
    let a = Edge { v: 0, w: 1, distance: 3 };
    let b = Edge { v: 5, w: 6, distance: 3 };
    let c = Edge { v: 0, w: 1, distance: 4 };
    assert!(a == b);
    assert!(a != c);
    assert!(a < c);
    assert!(c > b);
    assert_eq!(a.partial_cmp(&b), Some(std::cmp::Ordering::Equal));
    assert_eq!(a.partial_cmp(&c), Some(std::cmp::Ordering::Less));
    assert_eq!(c.partial_cmp(&a), Some(std::cmp::Ordering::Greater));
}
