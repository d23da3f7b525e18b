use glayout::errors::GraphError;
use glayout::graph::{build_graph, generate_graph, Edge};
use rand::rngs::StdRng;
use rand::SeedableRng;

fn edge(src: usize, dst: usize) -> Edge {
    Edge { src, dst }
}

#[test]
fn generate_rejects_single_vertex() {
    let mut rng = StdRng::seed_from_u64(1);
    assert_eq!(generate_graph(1, 3, &mut rng), Err(GraphError::InvalidParameter));
}

#[test]
fn generate_rejects_zero_vertices() {
    let mut rng = StdRng::seed_from_u64(1);
    assert_eq!(generate_graph(0, 3, &mut rng), Err(GraphError::InvalidParameter));
}

#[test]
fn generate_rejects_small_degree_bound() {
    let mut rng = StdRng::seed_from_u64(1);
    assert_eq!(generate_graph(5, 1, &mut rng), Err(GraphError::InvalidParameter));
    let mut rng = StdRng::seed_from_u64(1);
    assert_eq!(generate_graph(5, 0, &mut rng), Err(GraphError::InvalidParameter));
}

#[test]
fn generate_shape_invariants() {
    let mut rng = StdRng::seed_from_u64(7);
    let edges = generate_graph(30, 4, &mut rng).unwrap();
    for e in &edges {
        assert!(e.src < e.dst, "self-loop or non-canonical pair: {:?}", e);
        assert!(e.dst < 30, "endpoint out of range: {:?}", e);
    }
    for i in 0..edges.len() {
        for j in 0..i {
            assert_ne!(edges[i], edges[j], "duplicate pair");
        }
    }
}

#[test]
fn generate_degree_bound() {
    let mut rng = StdRng::seed_from_u64(11);
    let n = 25;
    let m = 3;
    let edges = generate_graph(n, m, &mut rng).unwrap();
    let mut degrees = vec![0usize; n];
    for e in &edges {
        degrees[e.src] += 1;
        degrees[e.dst] += 1;
    }
    for v in 0..n {
        assert!(degrees[v] <= m, "vertex {} has degree {}", v, degrees[v]);
    }
}

#[test]
fn generate_deterministic_given_seed() {
    let mut rng_a = StdRng::seed_from_u64(99);
    let mut rng_b = StdRng::seed_from_u64(99);
    let edges_a = generate_graph(12, 4, &mut rng_a).unwrap();
    let edges_b = generate_graph(12, 4, &mut rng_b).unwrap();
    assert_eq!(edges_a, edges_b);
}

#[test]
fn generate_always_yields_an_edge() {
    // with two vertices the only candidate pair is (0, 1), and the first
    // attempt always lands it, whatever the seed
    for seed in 0..20 {
        let mut rng = StdRng::seed_from_u64(seed);
        let edges = generate_graph(2, 2, &mut rng).unwrap();
        assert_eq!(edges, vec![edge(0, 1)]);
    }
}

#[test]
fn build_graph_single_edge() {
    let targets = vec![1, 1];
    let picks = vec![0, 0, 0, 0, 0, 0];
    let edges = build_graph(2, 2, &targets, &picks);
    assert_eq!(edges, vec![edge(0, 1)]);
}

#[test]
fn build_graph_duplicate_and_rejection() {
    // vertex 0 draws vertex 3 twice: one edge, two counter bumps;
    // vertices 2 and 3 then find vertex 0 saturated and under-deliver
    let targets = vec![2, 1, 1, 1];
    let picks = vec![2, 2, 0, 0, 0, 0, 0, 0, 0, 0, 0, 0];
    let edges = build_graph(4, 3, &targets, &picks);
    assert_eq!(edges, vec![edge(0, 3), edge(0, 1)]);
}

#[test]
fn scenario_generate_golden() {
    let mut rng = StdRng::seed_from_u64(42);
    let edges = generate_graph(5, 3, &mut rng).unwrap();
    assert_eq!(
        edges,
        vec![edge(0, 3), edge(0, 1), edge(0, 2), edge(3, 4)]
    );
}
