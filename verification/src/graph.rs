//! Degree-bounded random graph generation.
//!
//! A graph is an edge list over vertices `0 .. n`. Each edge is stored
//! canonically with the smaller index first, the list holds no self-loop
//! and no duplicate pair, and rejection sampling with a small fixed
//! attempt budget keeps every vertex's degree at or below the requested
//! bound (possibly below its drawn target; the generator favors
//! termination over exactness).

use vstd::prelude::*;

use crate::errors::GraphError;
use crate::randomness::gen_index;

verus! {

/// An undirected edge between two vertex indices, stored with
/// `src < dst` once canonicalized.
#[derive(Clone, Copy, Debug, PartialEq, Eq, Structural)]
pub struct Edge {
    pub src: usize,
    pub dst: usize,
}

/// A canonical edge: smaller endpoint first (hence no self-loop), both
/// endpoints below the vertex count.
pub open spec fn edge_ok(e: Edge, n: int) -> bool {
    e.src < e.dst && e.dst < n
}

/// A well-formed edge list: every edge canonical and in bounds, and no
/// two list entries equal (so no duplicate unordered pair).
pub open spec fn edges_wf(s: Seq<Edge>, n: int) -> bool {
    &&& forall|i: int| 0 <= i < s.len() ==> edge_ok(#[trigger] s[i], n)
    &&& forall|i: int, j: int| 0 <= i < j < s.len() ==> s[i] != s[j]
}

/// Whether an edge touches vertex `v`.
pub open spec fn touches(e: Edge, v: int) -> bool {
    e.src == v || e.dst == v
}

/// Realized degree of vertex `v` in an edge list: how many edges touch it.
pub open spec fn degree(s: Seq<Edge>, v: int) -> int
    decreases s.len(),
{
    if s.len() == 0 {
        0
    } else {
        degree(s.drop_last(), v) + (if touches(s.last(), v) { 1int } else { 0int })
    }
}

/// The pair `(a, b)` as a canonical edge.
pub open spec fn canonical_pair(a: usize, b: usize) -> Edge {
    if a <= b {
        Edge { src: a, dst: b }
    } else {
        Edge { src: b, dst: a }
    }
}

/// Maps a raw draw from `0 .. n - 1` to a destination in `0 .. n` distinct
/// from `src`: the draw is uniform over the candidates that remain after
/// ruling out a self-loop.
pub open spec fn skip_self(src: usize, raw: usize) -> usize {
    if raw >= src {
        (raw + 1) as usize
    } else {
        raw
    }
}

/// One insertion attempt from `src` toward `dst` over the state
/// (degree counters, edge list). A destination whose counter has reached
/// the bound is rejected; otherwise the canonical pair enters the list
/// unless already present, and both counters grow either way.
pub open spec fn attempt_step(m: int, src: usize, dst: usize, degs: Seq<int>, edges: Seq<Edge>) -> (Seq<
    int,
>, Seq<Edge>) {
    if degs[dst as int] >= m {
        (degs, edges)
    } else {
        let e = canonical_pair(src, dst);
        let grown = if edges.contains(e) {
            edges
        } else {
            edges.push(e)
        };
        (
            degs.update(src as int, degs[src as int] + 1).update(dst as int, degs[dst as int] + 1),
            grown,
        )
    }
}

/// Attempts `a .. 3` for vertex `src` with target degree `t`: each attempt
/// consumes one pre-drawn pick, and the round stops early once the
/// vertex's counter reaches its target.
pub open spec fn run_attempts(
    m: int,
    src: usize,
    t: int,
    picks: Seq<usize>,
    a: int,
    degs: Seq<int>,
    edges: Seq<Edge>,
) -> (Seq<int>, Seq<Edge>)
    decreases 3 - a,
{
    if a < 0 || a >= 3 {
        (degs, edges)
    } else if degs[src as int] >= t {
        (degs, edges)
    } else {
        let dst = skip_self(src, picks[3 * src + a]);
        let stepped = attempt_step(m, src, dst, degs, edges);
        run_attempts(m, src, t, picks, a + 1, stepped.0, stepped.1)
    }
}

/// Rounds for vertices `src .. n`, each running its three attempts.
pub open spec fn run_vertices(
    n: int,
    m: int,
    targets: Seq<usize>,
    picks: Seq<usize>,
    src: int,
    degs: Seq<int>,
    edges: Seq<Edge>,
) -> (Seq<int>, Seq<Edge>)
    decreases n - src,
{
    if src < 0 || src >= n {
        (degs, edges)
    } else {
        let started = run_attempts(m, src as usize, targets[src] as int, picks, 0, degs, edges);
        run_vertices(n, m, targets, picks, src + 1, started.0, started.1)
    }
}

/// All-zero degree counters for `n` vertices.
pub open spec fn init_degs(n: int) -> Seq<int> {
    Seq::new(n as nat, |i: int| 0)
}

/// The edge list built from `n` vertices, degree bound `m`, drawn degree
/// targets, and drawn destination picks (three per vertex).
pub open spec fn spec_build(n: usize, m: usize, targets: Seq<usize>, picks: Seq<usize>) -> Seq<
    Edge,
> {
    run_vertices(n as int, m as int, targets, picks, 0, init_degs(n as int), Seq::empty()).1
}

/// Drawn randomness in range for `n` vertices and degree bound `m`: one
/// degree target per vertex from `1 .. m`, and three destination picks
/// per vertex, each below `n - 1`.
pub open spec fn valid_draws(n: usize, m: usize, ts: Seq<usize>, ps: Seq<usize>) -> bool {
    &&& ts.len() == n
    &&& ps.len() == 3 * n
    &&& forall|i: int| 0 <= i < n ==> 1 <= #[trigger] ts[i] < m
    &&& forall|k: int| 0 <= k < ps.len() ==> #[trigger] ps[k] < n - 1
}

/// Degree counters as mathematical integers.
pub open spec fn deg_view(s: Seq<usize>) -> Seq<int> {
    s.map_values(|x: usize| x as int)
}

proof fn lemma_deg_view_update(s: Seq<usize>, i: int, x: usize)
    requires
        0 <= i < s.len(),
    ensures
        deg_view(s.update(i, x)) == deg_view(s).update(i, x as int),
{
    assert(deg_view(s.update(i, x)) =~= deg_view(s).update(i, x as int));
}

proof fn lemma_degree_push(s: Seq<Edge>, e: Edge, v: int)
    ensures
        degree(s.push(e), v) == degree(s, v) + (if touches(e, v) {
            1int
        } else {
            0int
        }),
{
    assert(s.push(e).drop_last() =~= s);
    assert(s.push(e).last() == e);
}

/// Whether `e` occurs in the edge list held so far.
fn edge_list_contains(edges: &Vec<Edge>, e: Edge) -> (r: bool)
    ensures
        r == edges@.contains(e),
{
    let mut k: usize = 0;
    while k < edges.len()
        invariant
            k <= edges@.len(),
            forall|i: int| 0 <= i < k ==> edges@[i] != e,
        decreases edges@.len() - k,
    {
        if edges[k] == e {
            assert(edges@[k as int] == e);
            return true;
        }
        k = k + 1;
    }
    false
}

/// Builds the edge list from pre-drawn randomness: one degree target per
/// vertex and three destination picks per vertex. The result is exactly
/// `spec_build` of the draws, is well-formed, and respects the degree
/// bound.
#[verifier::loop_isolation(false)]
pub fn build_graph(n_vertices: usize, max_degree: usize, targets: &Vec<usize>, picks: &Vec<usize>) -> (edges: Vec<
    Edge,
>)
    requires
        2 <= n_vertices,
        2 <= max_degree,
        valid_draws(n_vertices, max_degree, targets@, picks@),
    ensures
        edges@ == spec_build(n_vertices, max_degree, targets@, picks@),
        edges_wf(edges@, n_vertices as int),
        forall|v: int| 0 <= v < n_vertices ==> degree(edges@, v) <= max_degree,
{
    let n = n_vertices;
    let m = max_degree;
    // three picks per vertex fit in one vector, so 3 * src + a cannot wrap
    let picks_len = picks.len();
    assert(3 * (n as int) == picks_len as int);

    let mut degrees: Vec<usize> = Vec::new();
    while degrees.len() < n
        invariant
            degrees@.len() <= n,
            forall|i: int| 0 <= i < degrees@.len() ==> degrees@[i] == 0,
        decreases n - degrees@.len(),
    {
        degrees.push(0);
    }

    let mut edges: Vec<Edge> = Vec::new();
    let ghost goal = run_vertices(
        n as int,
        m as int,
        targets@,
        picks@,
        0,
        init_degs(n as int),
        Seq::empty(),
    );
    proof {
        assert(deg_view(degrees@) =~= init_degs(n as int));
    }

    let mut src: usize = 0;
    while src < n
        invariant
            src <= n,
            degrees@.len() == n,
            forall|v: int| 0 <= v < n ==> #[trigger] degrees@[v] <= m,
            edges_wf(edges@, n as int),
            forall|v: int| 0 <= v < n ==> degree(edges@, v) <= degrees@[v],
            run_vertices(n as int, m as int, targets@, picks@, src as int, deg_view(degrees@), edges@)
                == goal,
        decreases n - src,
    {
        let t = targets[src];
        let ghost inner_goal = run_attempts(
            m as int,
            src as usize,
            t as int,
            picks@,
            0,
            deg_view(degrees@),
            edges@,
        );
        proof {
            assert(run_vertices(
                n as int,
                m as int,
                targets@,
                picks@,
                src as int,
                deg_view(degrees@),
                edges@,
            ) == run_vertices(
                n as int,
                m as int,
                targets@,
                picks@,
                src as int + 1,
                inner_goal.0,
                inner_goal.1,
            ));
        }
        let mut a: usize = 0;
        while a < 3 && degrees[src] < t
            invariant
                a <= 3,
                degrees@.len() == n,
                forall|v: int| 0 <= v < n ==> #[trigger] degrees@[v] <= m,
                edges_wf(edges@, n as int),
                forall|v: int| 0 <= v < n ==> degree(edges@, v) <= degrees@[v],
                run_attempts(m as int, src, t as int, picks@, a as int, deg_view(degrees@), edges@)
                    == inner_goal,
            decreases 3 - a,
        {
            let raw = picks[3 * src + a];
            let dst = if raw >= src {
                raw + 1
            } else {
                raw
            };
            assert(dst == skip_self(src, picks@[3 * (src as int) + (a as int)]));
            assert(dst != src && dst < n);
            let ds = degrees[src];
            let dd = degrees[dst];
            let ghost pre_dvec = degrees@;
            let ghost pre_degs = deg_view(degrees@);
            let ghost pre_edges = edges@;
            if dd < m {
                let e = if src < dst {
                    Edge { src: src, dst: dst }
                } else {
                    Edge { src: dst, dst: src }
                };
                assert(e == canonical_pair(src, dst));
                if !edge_list_contains(&edges, e) {
                    edges.push(e);
                    proof {
                        assert forall|v: int| 0 <= v < n implies degree(edges@, v) <= pre_dvec[v]
                            + (if touches(e, v) {
                            1int
                        } else {
                            0int
                        }) by {
                            lemma_degree_push(pre_edges, e, v);
                        }
                    }
                }
                degrees[src] = ds + 1;
                degrees[dst] = dd + 1;
                proof {
                    lemma_deg_view_update(pre_dvec, src as int, (ds + 1) as usize);
                    lemma_deg_view_update(
                        pre_dvec.update(src as int, (ds + 1) as usize),
                        dst as int,
                        (dd + 1) as usize,
                    );
                    assert(deg_view(degrees@) == pre_degs.update(src as int, ds + 1).update(
                        dst as int,
                        dd + 1,
                    ));
                    assert(pre_degs[src as int] == ds as int && pre_degs[dst as int] == dd as int);
                    assert(attempt_step(m as int, src, dst, pre_degs, pre_edges) == (deg_view(
                        degrees@,
                    ), edges@));
                }
            } else {
                proof {
                    assert(attempt_step(m as int, src, dst, pre_degs, pre_edges) == (pre_degs,
                    pre_edges));
                }
            }
            a = a + 1;
            proof {
                assert(run_attempts(
                    m as int,
                    src,
                    t as int,
                    picks@,
                    a as int,
                    deg_view(degrees@),
                    edges@,
                ) == inner_goal);
            }
        }
        proof {
            assert(run_attempts(m as int, src, t as int, picks@, a as int, deg_view(degrees@), edges@)
                == (deg_view(degrees@), edges@));
        }
        src = src + 1;
    }
    proof {
        assert(run_vertices(n as int, m as int, targets@, picks@, n as int, deg_view(degrees@), edges@)
            == (deg_view(degrees@), edges@));
    }
    edges
}

proof fn lemma_run_attempts_len(
    m: int,
    src: usize,
    t: int,
    picks: Seq<usize>,
    a: int,
    degs: Seq<int>,
    edges: Seq<Edge>,
)
    ensures
        run_attempts(m, src, t, picks, a, degs, edges).1.len() >= edges.len(),
    decreases 3 - a,
{
    if a < 0 || a >= 3 {
    } else if degs[src as int] >= t {
    } else {
        let dst = skip_self(src, picks[3 * src + a]);
        let stepped = attempt_step(m, src, dst, degs, edges);
        assert(stepped.1.len() >= edges.len());
        lemma_run_attempts_len(m, src, t, picks, a + 1, stepped.0, stepped.1);
    }
}

proof fn lemma_run_vertices_len(
    n: int,
    m: int,
    targets: Seq<usize>,
    picks: Seq<usize>,
    src: int,
    degs: Seq<int>,
    edges: Seq<Edge>,
)
    ensures
        run_vertices(n, m, targets, picks, src, degs, edges).1.len() >= edges.len(),
    decreases n - src,
{
    if src < 0 || src >= n {
    } else {
        let started = run_attempts(m, src as usize, targets[src] as int, picks, 0, degs, edges);
        lemma_run_attempts_len(m, src as usize, targets[src] as int, picks, 0, degs, edges);
        lemma_run_vertices_len(n, m, targets, picks, src + 1, started.0, started.1);
    }
}

/// Over in-range draws the build never comes back empty: vertex 0's
/// first attempt starts with every counter at zero, so its pick is
/// always inserted, and later rounds only add edges.
pub proof fn lemma_spec_build_nonempty(n: usize, m: usize, ts: Seq<usize>, ps: Seq<usize>)
    requires
        n >= 2,
        m >= 2,
        valid_draws(n, m, ts, ps),
    ensures
        spec_build(n, m, ts, ps).len() >= 1,
{
    let degs0 = init_degs(n as int);
    let raw = ps[0];
    assert(raw < n - 1);
    let dst = skip_self(0, raw);
    assert(dst == raw + 1 && 1 <= dst < n);
    assert(degs0[dst as int] == 0 && degs0[0] == 0);
    assert(1 <= ts[0]);
    let e = canonical_pair(0, dst);
    assert(!Seq::<Edge>::empty().contains(e));
    let st1 = attempt_step(m as int, 0, dst, degs0, Seq::empty());
    assert(st1.1.len() == 1);
    let inner = run_attempts(m as int, 0, ts[0] as int, ps, 0, degs0, Seq::empty());
    assert(inner == run_attempts(m as int, 0, ts[0] as int, ps, 1, st1.0, st1.1));
    lemma_run_attempts_len(m as int, 0, ts[0] as int, ps, 1, st1.0, st1.1);
    let outer = run_vertices(n as int, m as int, ts, ps, 0, degs0, Seq::empty());
    assert(outer == run_vertices(n as int, m as int, ts, ps, 1, inner.0, inner.1));
    lemma_run_vertices_len(n as int, m as int, ts, ps, 1, inner.0, inner.1);
    assert(spec_build(n, m, ts, ps) == outer.1);
}

/// Generates a random degree-bounded graph: per vertex one degree target
/// drawn from `1 .. max_degree` and three destination picks, then the
/// deterministic build over those draws. Fails exactly when no valid edge
/// can exist (`n_vertices < 2`) or the target range is empty
/// (`max_degree < 2`); a successful result is the build over some
/// in-range draws — so a well-formed edge list with realized degrees
/// never above `max_degree`, and never empty. The vertex count is
/// bounded only so the pick buffer's length fits a machine word.
pub fn generate_graph(n_vertices: usize, max_degree: usize, rng: &mut rand::rngs::StdRng) -> (r:
    Result<Vec<Edge>, GraphError>)
    requires
        n_vertices <= usize::MAX / 3,
    ensures
        match r {
            Ok(edges) => {
                &&& n_vertices >= 2 && max_degree >= 2
                &&& edges_wf(edges@, n_vertices as int)
                &&& forall|v: int| 0 <= v < n_vertices ==> degree(edges@, v) <= max_degree
                &&& edges@.len() >= 1
                &&& exists|ts: Seq<usize>, ps: Seq<usize>|
                    valid_draws(n_vertices, max_degree, ts, ps) && edges@ == spec_build(
                        n_vertices,
                        max_degree,
                        ts,
                        ps,
                    )
            },
            Err(e) => e == GraphError::InvalidParameter && (n_vertices < 2 || max_degree < 2),
        },
{
    if n_vertices < 2 || max_degree < 2 {
        return Err(GraphError::InvalidParameter);
    }
    let mut targets: Vec<usize> = Vec::new();
    let mut picks: Vec<usize> = Vec::new();
    let mut v: usize = 0;
    while v < n_vertices
        invariant
            v <= n_vertices,
            2 <= n_vertices <= usize::MAX / 3,
            2 <= max_degree,
            targets@.len() == v,
            picks@.len() == 3 * v,
            forall|i: int| 0 <= i < v ==> 1 <= #[trigger] targets@[i] < max_degree,
            forall|k: int| 0 <= k < picks@.len() ==> #[trigger] picks@[k] < n_vertices - 1,
        decreases n_vertices - v,
    {
        let t = gen_index(rng, max_degree - 1);
        targets.push(t + 1);
        let p0 = gen_index(rng, n_vertices - 1);
        picks.push(p0);
        let p1 = gen_index(rng, n_vertices - 1);
        picks.push(p1);
        let p2 = gen_index(rng, n_vertices - 1);
        picks.push(p2);
        v = v + 1;
    }
    let edges = build_graph(n_vertices, max_degree, &targets, &picks);
    proof {
        lemma_spec_build_nonempty(n_vertices, max_degree, targets@, picks@);
        assert(valid_draws(n_vertices, max_degree, targets@, picks@) && edges@ == spec_build(
            n_vertices,
            max_degree,
            targets@,
            picks@,
        ));
    }
    Ok(edges)
}

/// Shape of a well-formed edge list: no self-loop, endpoints in range,
/// and no unordered pair occurs twice in either orientation.
pub proof fn lemma_edge_list_shape(s: Seq<Edge>, n: int)
    requires
        edges_wf(s, n),
    ensures
        forall|k: int| 0 <= k < s.len() ==> (#[trigger] s[k]).src != s[k].dst,
        forall|k: int| 0 <= k < s.len() ==> (#[trigger] s[k]).src < n && s[k].dst < n,
        forall|i: int, j: int|
            0 <= i < j < s.len() ==> !((s[i].src == s[j].src && s[i].dst == s[j].dst) || (s[i].src
                == s[j].dst && s[i].dst == s[j].src)),
{
}

/// Determinism of graph construction: two builds over the same vertex
/// count, degree bound, and drawn randomness yield the same edge list.
pub proof fn lemma_build_deterministic(
    n: usize,
    m: usize,
    targets: Seq<usize>,
    picks: Seq<usize>,
    e1: Seq<Edge>,
    e2: Seq<Edge>,
)
    requires
        e1 == spec_build(n, m, targets, picks),
        e2 == spec_build(n, m, targets, picks),
    ensures
        e1 == e2,
{
}

} // verus!
