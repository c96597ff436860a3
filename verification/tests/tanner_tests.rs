use rustft8::peg::ldpc_peg;
use rustft8::tanner::{NodeType, TannerGraph};

fn small_matrix() -> Vec<Vec<u32>> {
    vec![
        vec![1, 0, 1, 0],
        vec![0, 1, 0, 1],
        vec![1, 1, 0, 0],
    ]
}

#[test]
fn tanner_graph_layout() {
    let g = TannerGraph::new(small_matrix());
    assert_eq!(g.checknode_len, 3);
    assert_eq!(g.nodes.len(), 7);
    assert!(!g.is_checknode(0));
    assert!(g.is_checknode(4));
    assert_eq!(g.get_symbolnode(2), 2);
    assert!(matches!(g.nodes[5], NodeType::CheckNode(1)));
}

#[test]
fn tanner_graph_edges_follow_the_matrix() {
    let g = TannerGraph::new(small_matrix());
    // Symbol 0 joins checks 0 and 2, which sit at node indexes 4 and 6.
    assert_eq!(g.neighbors(0), vec![4, 6]);
    // Check 1 at node 5 covers symbols 1 and 3.
    assert_eq!(g.neighbors(5), vec![1, 3]);
    assert_eq!(g.checknode_edge_len(5), 2);
}

#[test]
fn lowest_degree_checknode_is_found() {
    let mut m = small_matrix();
    m[2] = vec![0, 0, 0, 0];
    let g = TannerGraph::new(m);
    // Check 2 (node 6) has no edges at all.
    assert_eq!(g.get_checknode_with_lowest_degree(), 6);
}

#[test]
fn create_edge_updates_matrix_and_lists() {
    let mut g = TannerGraph::new(small_matrix());
    g.create_edge(2, 5);
    assert_eq!(g.matrix[1][2], 1);
    assert_eq!(g.neighbors(5), vec![1, 3, 2]);
    assert_eq!(g.neighbors(2), vec![4, 5]);
}

#[test]
fn subgraph_covers_reachable_checks() {
    let g = TannerGraph::new(small_matrix());
    let sub = g.get_subgraph(0, 0);
    // Depth 0 reaches only symbol 0's own checks.
    let covered = sub.covered_checknodes();
    assert!(covered.contains(&4));
    assert!(covered.contains(&6));
    assert!(!covered.contains(&5));
    assert!(!sub.all_checknodes_covered());
    let unc = g.get_uncovered_checknodes(&covered);
    assert_eq!(unc, vec![5]);
    assert_eq!(sub.get_uc_checknode_with_lowest_degree(), Some(5));
}

#[test]
fn peg_builds_a_matrix_with_the_requested_shape() {
    let degrees = vec![2usize, 2, 2, 2, 2, 2];
    let m = ldpc_peg(4, 6, degrees.clone());
    assert_eq!(m.len(), 4);
    for row in &m {
        assert_eq!(row.len(), 6);
    }
    for j in 0..6 {
        let col: u32 = (0..4).map(|i| m[i][j]).sum();
        assert!(col >= 1 && col <= degrees[j] as u32, "column {j} weight {col}");
    }
}
