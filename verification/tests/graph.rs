use codemap::graph::{DependencyGraph, EdgeKind};
use petgraph::algo::page_rank;

/// The scores of the files of a graph: the page rank, boosted by the number of importers.
fn compute_ranks(g: &DependencyGraph) -> Vec<(String, f64)> {
    let scores = page_rank(&g.graph, 0.85_f64, 100);
    let n = g.node_count();
    let bits: Vec<u64> = (0..n)
        .map(|i| {
            let importers = g.importer_count(i) as f64;
            (scores[i] * n as f64 * (importers + 2.0).log2()).to_bits()
        })
        .collect();
    g.rank_files(&bits).into_iter().map(|(path, score)| (path, f64::from_bits(score))).collect()
}

#[test]
fn add_file_is_idempotent() {
    let mut g = DependencyGraph::new();
    let idx1 = g.add_file("a.ts");
    let idx2 = g.add_file("a.ts");
    assert_eq!(idx1, idx2);
    assert_eq!(g.node_count(), 1);
}

#[test]
fn add_edge_creates_nodes_and_edge() {
    let mut g = DependencyGraph::new();
    g.add_edge("a.ts", "b.ts", EdgeKind::Import);
    assert_eq!(g.node_count(), 2);
    assert_eq!(g.edge_count(), 1);
}

#[test]
fn compute_ranks_single_node() {
    let mut g = DependencyGraph::new();
    g.add_file("a.ts");
    let ranks = compute_ranks(&g);
    assert_eq!(ranks.len(), 1);
    assert!(ranks[0].1 > 0.0);
}

#[test]
fn compute_ranks_star_topology() {
    // Many nodes importing one central node — center should rank highest
    let mut g = DependencyGraph::new();
    for i in 0..5 {
        g.add_edge(&format!("leaf{i}.ts"), "center.ts", EdgeKind::Import);
    }
    let ranks = compute_ranks(&g);
    assert_eq!(ranks[0].0, "center.ts");
}

#[test]
fn compute_ranks_chain() {
    // a -> b -> c: c should rank highest (most transitively imported)
    let mut g = DependencyGraph::new();
    g.add_edge("a.ts", "b.ts", EdgeKind::Import);
    g.add_edge("b.ts", "c.ts", EdgeKind::Import);
    let ranks = compute_ranks(&g);
    assert_eq!(ranks[0].0, "c.ts");
}

#[test]
fn compute_ranks_disconnected_equal() {
    let mut g = DependencyGraph::new();
    g.add_file("a.ts");
    g.add_file("b.ts");
    let ranks = compute_ranks(&g);
    assert_eq!(ranks.len(), 2);
    // Disconnected nodes should have equal rank
    assert!((ranks[0].1 - ranks[1].1).abs() < 1e-10);
}

#[test]
fn empty_graph() {
    let g = DependencyGraph::new();
    let ranks = compute_ranks(&g);
    assert!(ranks.is_empty());
}

#[test]
fn importers_are_counted_with_repetitions() {
    let mut g = DependencyGraph::new();
    g.add_edge("a.ts", "c.ts", EdgeKind::Import);
    g.add_edge("b.ts", "c.ts", EdgeKind::ReExport);
    g.add_edge("b.ts", "c.ts", EdgeKind::TypeImport);
    let c = g.add_file("c.ts");
    assert_eq!(c, 1);
    assert_eq!(g.importer_count(c), 3);
    assert_eq!(g.importer_count(0), 0);
}

#[test]
fn files_are_ranked_by_score_and_stay_in_order_otherwise() {
    let mut g = DependencyGraph::new();
    g.add_file("a.ts");
    g.add_file("b.ts");
    g.add_file("c.ts");
    let ranked = g.rank_files(&vec![1, 5, 1]);
    assert_eq!(
        ranked,
        vec![("b.ts".to_string(), 5), ("a.ts".to_string(), 1), ("c.ts".to_string(), 1)]
    );
}

#[test]
fn edge_kinds_have_names() {
    assert_eq!(EdgeKind::Import.name(), "Import");
    assert_eq!(EdgeKind::ReExport.name(), "ReExport");
    assert_eq!(EdgeKind::TypeImport.name(), "TypeImport");
}

#[test]
fn room_is_asked_for_what_is_new() {
    let mut g = DependencyGraph::new();
    assert!(g.fits_file("a.ts"));
    assert!(g.fits_edge("a.ts", "a.ts", EdgeKind::Import));
    g.add_edge("a.ts", "a.ts", EdgeKind::Import);
    assert_eq!((g.node_count(), g.edge_count()), (1, 1));
    assert!(g.fits_edge("a.ts", "b.ts", EdgeKind::ReExport));
}
