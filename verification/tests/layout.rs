use glayout::errors::GraphError;
use glayout::graph::Edge;
use glayout::matrix::{fill_matrix, sample_positions, PositionMatrix};
use glayout::solver::adjacency;
use rand::rngs::StdRng;
use rand::SeedableRng;

fn edge(src: usize, dst: usize) -> Edge {
    Edge { src, dst }
}

#[test]
fn adjacency_lists_neighbors_in_order() {
    let edges = vec![edge(0, 1), edge(1, 2)];
    let adj = adjacency(&edges, 3).unwrap();
    assert_eq!(adj, vec![vec![1], vec![0, 2], vec![1]]);
}

#[test]
fn adjacency_of_empty_edge_list() {
    let edges: Vec<Edge> = Vec::new();
    let adj = adjacency(&edges, 2).unwrap();
    assert_eq!(adj, vec![Vec::<usize>::new(), Vec::<usize>::new()]);
}

#[test]
fn adjacency_row_length_matches_degree() {
    let mut rng = StdRng::seed_from_u64(21);
    let n = 15;
    let m = 4;
    let edges = glayout::graph::generate_graph(n, m, &mut rng).unwrap();
    let adj = adjacency(&edges, n).unwrap();
    let mut degrees = vec![0usize; n];
    for e in &edges {
        degrees[e.src] += 1;
        degrees[e.dst] += 1;
    }
    for v in 0..n {
        assert_eq!(adj[v].len(), degrees[v]);
        assert!(adj[v].len() <= m);
    }
}

#[test]
fn adjacency_rejects_out_of_bounds_endpoint() {
    // an edge referencing a vertex index equal to the row count
    let edges = vec![edge(0, 3)];
    assert_eq!(adjacency(&edges, 3), Err(GraphError::InvalidParameter));
}

#[test]
fn fill_matrix_row_major() {
    let words = vec![10u64, 11, 12, 20, 21, 22];
    let pm = fill_matrix(2, 3, &words);
    assert_eq!(pm.n_rows(), 2);
    assert_eq!(pm.n_dims(), 3);
    assert_eq!(pm.row(0).unwrap(), vec![10u64, 11, 12]);
    assert_eq!(pm.row(1).unwrap(), vec![20u64, 21, 22]);
}

#[test]
fn row_accessor_rejects_out_of_range() {
    let words = vec![1u64, 2, 3, 4];
    let pm = fill_matrix(2, 2, &words);
    assert_eq!(pm.row(2), Err(GraphError::IndexOutOfBounds));
}

#[test]
fn from_rows_accepts_rectangular() {
    let pm = PositionMatrix::from_rows(vec![vec![1u64, 2], vec![3, 4]], 2).unwrap();
    assert_eq!(pm.n_rows(), 2);
    assert_eq!(pm.n_dims(), 2);
    assert_eq!(pm.row(1).unwrap(), vec![3u64, 4]);
}

#[test]
fn from_rows_rejects_ragged() {
    let r = PositionMatrix::from_rows(vec![vec![1u64, 2], vec![3]], 2);
    assert_eq!(r.err(), Some(GraphError::InvalidParameter));
}

#[test]
fn from_rows_rejects_zero_dimensions() {
    let r = PositionMatrix::from_rows(Vec::new(), 0);
    assert_eq!(r.err(), Some(GraphError::InvalidParameter));
}

#[test]
fn sample_positions_shape() {
    let mut rng = StdRng::seed_from_u64(3);
    let pm = sample_positions(4, 3, &mut rng).unwrap();
    assert_eq!(pm.n_rows(), 4);
    assert_eq!(pm.n_dims(), 3);
    for i in 0..4 {
        assert_eq!(pm.row(i).unwrap().len(), 3);
    }
}

#[test]
fn sample_positions_rejects_zero_dimensions() {
    let mut rng = StdRng::seed_from_u64(3);
    assert_eq!(
        sample_positions(4, 0, &mut rng).err(),
        Some(GraphError::InvalidParameter)
    );
}

#[test]
fn sample_positions_deterministic_given_seed() {
    let mut rng_a = StdRng::seed_from_u64(5);
    let mut rng_b = StdRng::seed_from_u64(5);
    let pm_a = sample_positions(3, 2, &mut rng_a).unwrap();
    let pm_b = sample_positions(3, 2, &mut rng_b).unwrap();
    for i in 0..3 {
        assert_eq!(pm_a.row(i).unwrap(), pm_b.row(i).unwrap());
    }
}

#[test]
fn scenario_sample_golden() {
    let mut rng = StdRng::seed_from_u64(42);
    let pm = sample_positions(5, 2, &mut rng).unwrap();
    let mut rows: Vec<Vec<u64>> = Vec::new();
    for i in 0..5 {
        rows.push(pm.row(i).unwrap());
    }
    assert_eq!(
        rows,
        vec![
            vec![9713269763989775522u64, 10011513049433592189],
            vec![11740708795755607249, 7487565853151867058],
            vec![633513173585076202, 7654602743214997928],
            vec![13603079691933612283, 15665927001465599799],
            vec![2421668070752551774, 59990589126097438],
        ]
    );
}
