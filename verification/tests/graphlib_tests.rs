use riemann_graphs::graphlib::bfs::bfs;
use riemann_graphs::graphlib::graph::Graph;

#[test]
fn new_graph_has_empty_neighbor_lists() {
    let g = Graph::new(3);
    assert_eq!(g.size, 3);
    assert_eq!(g.vertices, vec![0, 1, 2]);
    assert!(!g.weighted);
    for row in &g.adj_list {
        assert!(row.is_empty());
    }
    assert!(g.get_neighbors(0).is_none());
}

#[test]
fn add_edge_links_both_neighbor_lists() {
    let mut g = Graph::new(3);
    g.add_edge(0, 1);
    assert!(g.contains_edge(0, 1));
    assert!(!g.contains_edge(1, 0));
    assert!(g.contains_neighbor(0, 1));
    assert!(g.contains_neighbor(1, 0));
    assert_eq!(g.adj_matrix[0][1], 1);
    assert_eq!(g.adj_matrix[1][0], 1);
    assert!(!g.weighted);
}

#[test]
fn add_weighted_edge_marks_graph_weighted() {
    let mut g = Graph::new(3);
    g.add_weighted_edge(0, 2, 9);
    assert!(g.weighted);
    assert_eq!(g.get_distance(0, 2), 9);
    assert_eq!(g.get_distance(2, 0), 0);
    assert_eq!(g.adj_matrix[0][2], 9);
    assert_eq!(g.adj_matrix[2][0], 9);
}

#[test]
fn add_directed_edge_links_one_way() {
    let mut g = Graph::new(3);
    g.add_directed_edge(1, 2);
    assert!(g.contains_edge(1, 2));
    assert!(g.contains_neighbor(1, 2));
    assert!(!g.contains_neighbor(2, 1));
    assert_eq!(g.adj_matrix[1][2], 1);
    assert_eq!(g.adj_matrix[2][1], 0);
}

#[test]
fn add_directed_weighted_edge_keeps_weight_in_matrix_only() {
    let mut g = Graph::new(3);
    g.add_directed_weighted_edge(0, 1, 6);
    assert_eq!(g.adj_matrix[0][1], 6);
    assert_eq!(g.get_distance(0, 1), 0);
    assert!(!g.weighted);
}

#[test]
fn get_edge_finds_the_first_match() {
    let mut g = Graph::new(4);
    g.add_weighted_edge(0, 1, 4);
    g.add_weighted_edge(1, 2, 7);
    let e = g.get_edge(1, 2).unwrap();
    assert_eq!(e.v, 1);
    assert_eq!(e.w, 2);
    assert_eq!(e.distance, 7);
    assert!(g.get_edge(2, 1).is_none());
    assert!(g.get_edge(0, 3).is_none());
}

#[test]
fn get_neighbors_lists_linked_vertices() {
    let mut g = Graph::new(4);
    g.add_edge(0, 1);
    g.add_edge(0, 2);
    let ns = g.get_neighbors(0).unwrap();
    assert_eq!(ns, &vec![1, 2]);
    assert!(g.get_neighbors(3).is_none());
}

#[test]
fn randomize_weights_connects_all_distinct_pairs() {
    let mut g = Graph::new(4);
    g.randomize_weights(3, 4);
    assert!(g.weighted);
    for i in 0..4 {
        for j in 0..4 {
            if i != j {
                assert!(g.contains_edge(i, j));
                assert_eq!(g.get_distance(i, j), 3);
            } else {
                assert!(!g.contains_edge(i, j));
            }
        }
    }
}

#[test]
fn randomize_directed_weights_covers_self_loops_with_zero_recorded_distance() {
    let mut g = Graph::new(3);
    g.randomize_directed_weights(2, 5);
    for i in 0..3 {
        for j in 0..3 {
            assert!(g.contains_edge(i, j));
            assert_eq!(g.get_distance(i, j), 0);
            assert!(2 <= g.adj_matrix[i][j] && g.adj_matrix[i][j] < 5);
        }
    }
}

#[test]
fn bfs_visits_reachable_vertices_in_level_order() {
    let mut g = Graph::new(4);
    g.add_directed_edge(0, 1);
    g.add_directed_edge(0, 2);
    g.add_directed_edge(1, 2);
    g.add_directed_edge(2, 0);
    g.add_directed_edge(2, 3);
    g.add_directed_edge(3, 3);
    let (dist, path) = bfs(g, 0).unwrap();
    assert_eq!(dist, 0);
    assert_eq!(path, vec![0, 1, 2, 3]);
}

#[test]
fn bfs_from_a_sink_visits_only_itself() {
    let mut g = Graph::new(4);
    g.add_directed_edge(0, 1);
    g.add_directed_edge(2, 3);
    g.add_directed_edge(3, 3);
    let (dist, path) = bfs(g, 3).unwrap();
    assert_eq!(dist, 0);
    assert_eq!(path, vec![3]);
}

#[test]
fn bfs_reports_nothing_for_a_missing_vertex() {
    let g = Graph::new(3);
    assert!(bfs(g, 7).is_none());
}

#[test]
fn bfs_adds_distances_along_the_path() {
    let mut g = Graph::new(3);
    g.add_weighted_edge(0, 1, 4);
    g.add_weighted_edge(1, 2, 6);
    let (dist, path) = bfs(g, 0).unwrap();
    assert_eq!(path, vec![0, 1, 2]);
    assert_eq!(dist, 10);
}

#[test]
fn bfs_reports_nothing_for_a_weighted_graph_with_zero_total() {
    let mut g = Graph::new(2);
    g.add_weighted_edge(0, 1, 0);
    assert!(bfs(g, 0).is_none());
}
