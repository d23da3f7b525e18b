//! Solver-side graph bookkeeping: validating that an edge list fits a
//! position matrix and deriving the adjacency index the relaxation pass
//! walks. The force arithmetic itself is floating point and lives with
//! the caller; everything the pass decides by — which rows exist, who
//! neighbors whom, and how many neighbors share a vertex's spring
//! budget — is established here.

use vstd::prelude::*;

use crate::errors::GraphError;
use crate::graph::degree;
use crate::graph::touches;
use crate::graph::Edge;

verus! {

/// Every endpoint of every edge indexes a row below `n`.
pub open spec fn edges_in_bounds(s: Seq<Edge>, n: int) -> bool {
    forall|k: int| 0 <= k < s.len() ==> (#[trigger] s[k]).src < n && s[k].dst < n
}

/// The neighbors of vertex `v`, in edge-list order: an edge contributes
/// its far endpoint to each of its endpoints' rows.
pub open spec fn spec_neighbors(s: Seq<Edge>, v: int) -> Seq<usize>
    decreases s.len(),
{
    if s.len() == 0 {
        Seq::empty()
    } else {
        let rest = spec_neighbors(s.drop_last(), v);
        let e = s.last();
        let with_dst = if e.src == v {
            rest.push(e.dst)
        } else {
            rest
        };
        if e.dst == v {
            with_dst.push(e.src)
        } else {
            with_dst
        }
    }
}

/// An edge joins vertices `v` and `w`, in either orientation.
pub open spec fn connects(e: Edge, v: int, w: int) -> bool {
    (e.src == v && e.dst == w) || (e.src == w && e.dst == v)
}

/// Builds the adjacency index for vertices `0 .. n_vertices`: row `v`
/// lists the neighbors of `v` in edge-list order. Fails exactly when some
/// edge endpoint is out of bounds, so a successful result also certifies
/// the edge list against a matrix with `n_vertices` rows.
#[verifier::loop_isolation(false)]
pub fn adjacency(edges: &Vec<Edge>, n_vertices: usize) -> (r: Result<Vec<Vec<usize>>, GraphError>)
    ensures
        match r {
            Ok(adj) => {
                &&& edges_in_bounds(edges@, n_vertices as int)
                &&& adj@.len() == n_vertices
                &&& forall|v: int|
                    0 <= v < n_vertices ==> (#[trigger] adj@[v])@ == spec_neighbors(edges@, v)
            },
            Err(e) => e == GraphError::InvalidParameter && !edges_in_bounds(
                edges@,
                n_vertices as int,
            ),
        },
{
    let mut k: usize = 0;
    while k < edges.len()
        invariant
            k <= edges@.len(),
            forall|i: int|
                0 <= i < k ==> (#[trigger] edges@[i]).src < n_vertices && edges@[i].dst
                    < n_vertices,
        decreases edges@.len() - k,
    {
        if edges[k].src >= n_vertices || edges[k].dst >= n_vertices {
            assert(!edges_in_bounds(edges@, n_vertices as int));
            return Err(GraphError::InvalidParameter);
        }
        k = k + 1;
    }
    let mut adj: Vec<Vec<usize>> = Vec::new();
    let mut v: usize = 0;
    while v < n_vertices
        invariant
            v <= n_vertices,
            adj@.len() == v,
            forall|w: int| 0 <= w < v ==> (#[trigger] adj@[w])@ == spec_neighbors(edges@, w),
        decreases n_vertices - v,
    {
        let mut row: Vec<usize> = Vec::new();
        let mut i: usize = 0;
        while i < edges.len()
            invariant
                i <= edges@.len(),
                row@ == spec_neighbors(edges@.take(i as int), v as int),
            decreases edges@.len() - i,
        {
            proof {
                assert(edges@.take(i + 1).drop_last() =~= edges@.take(i as int));
                assert(edges@.take(i + 1).last() == edges@[i as int]);
            }
            if edges[i].src == v {
                row.push(edges[i].dst);
            }
            if edges[i].dst == v {
                row.push(edges[i].src);
            }
            i = i + 1;
        }
        proof {
            assert(edges@.take(edges@.len() as int) =~= edges@);
        }
        adj.push(row);
        v = v + 1;
    }
    Ok(adj)
}

/// The adjacency index is exactly the edge relation: a vertex `w` stands
/// in the neighbor row of `v` precisely when some edge joins `v` and `w`.
pub proof fn lemma_neighbors_iff(s: Seq<Edge>, v: int, w: usize)
    ensures
        spec_neighbors(s, v).contains(w) <==> exists|k: int|
            0 <= k < s.len() && connects(#[trigger] s[k], v, w as int),
    decreases s.len(),
{
    if s.len() == 0 {
    } else {
        let prefix = s.drop_last();
        let e = s.last();
        lemma_neighbors_iff(prefix, v, w);
        assert(forall|k: int| 0 <= k < prefix.len() ==> prefix[k] == s[k]);
        let rest = spec_neighbors(prefix, v);
        let with_dst = if e.src == v {
            rest.push(e.dst)
        } else {
            rest
        };
        let whole = spec_neighbors(s, v);
        // membership in a pushed sequence is membership in the base or
        // equality with the new last element
        if e.src == v {
            assert(forall|x: usize| rest.push(e.dst).contains(x) <==> rest.contains(x) || x == e.dst)
                by {
                lemma_push_contains(rest, e.dst);
            }
        }
        if e.dst == v {
            assert(forall|x: usize|
                with_dst.push(e.src).contains(x) <==> with_dst.contains(x) || x == e.src) by {
                lemma_push_contains(with_dst, e.src);
            }
        }
        if whole.contains(w) {
            if rest.contains(w) {
                let k = choose|k: int| 0 <= k < prefix.len() && connects(prefix[k], v, w as int);
                assert(connects(s[k], v, w as int));
            } else {
                assert(connects(s[s.len() - 1], v, w as int));
            }
        }
        if exists|k: int| 0 <= k < s.len() && connects(#[trigger] s[k], v, w as int) {
            let k = choose|k: int| 0 <= k < s.len() && connects(#[trigger] s[k], v, w as int);
            if k < s.len() - 1 {
                assert(connects(prefix[k], v, w as int));
                assert(rest.contains(w));
                assert(whole.contains(w));
            } else {
                assert(connects(e, v, w as int));
                assert(whole.contains(w));
            }
        }
    }
}

/// Every entry of a neighbor row indexes a row of the matrix: the
/// relaxation pass may dereference neighbors without a further check.
pub proof fn lemma_neighbors_in_bounds(s: Seq<Edge>, v: int, n: int)
    requires
        edges_in_bounds(s, n),
    ensures
        forall|i: int|
            0 <= i < spec_neighbors(s, v).len() ==> #[trigger] spec_neighbors(s, v)[i] < n,
    decreases s.len(),
{
    if s.len() == 0 {
    } else {
        let prefix = s.drop_last();
        assert(forall|k: int| 0 <= k < prefix.len() ==> prefix[k] == s[k]);
        lemma_neighbors_in_bounds(prefix, v, n);
        let e = s.last();
        assert(e.src < n && e.dst < n);
        let rest = spec_neighbors(prefix, v);
        let whole = spec_neighbors(s, v);
        assert forall|i: int| 0 <= i < whole.len() implies #[trigger] whole[i] < n by {
            if i < rest.len() {
                assert(whole[i] == rest[i]);
                assert(rest[i] < n);
            }
        }
    }
}

/// In a list without self-loops, a vertex's neighbor row is exactly as
/// long as its realized degree: the spring force's per-neighbor share is
/// divided by the degree.
pub proof fn lemma_neighbor_count_is_degree(s: Seq<Edge>, v: int)
    requires
        forall|k: int| 0 <= k < s.len() ==> (#[trigger] s[k]).src != s[k].dst,
    ensures
        spec_neighbors(s, v).len() == degree(s, v),
    decreases s.len(),
{
    if s.len() == 0 {
    } else {
        let prefix = s.drop_last();
        assert(forall|k: int| 0 <= k < prefix.len() ==> prefix[k] == s[k]);
        lemma_neighbor_count_is_degree(prefix, v);
        assert(touches(s.last(), v) == (s.last().src == v || s.last().dst == v));
    }
}

proof fn lemma_push_contains(s: Seq<usize>, x: usize)
    ensures
        forall|y: usize| s.push(x).contains(y) <==> s.contains(y) || y == x,
{
    assert forall|y: usize| s.push(x).contains(y) implies s.contains(y) || y == x by {
        let k = choose|k: int| 0 <= k < s.push(x).len() && s.push(x)[k] == y;
        if k < s.len() {
            assert(s[k] == y);
        }
    }
    assert forall|y: usize| s.contains(y) || y == x implies s.push(x).contains(y) by {
        if s.contains(y) {
            let k = choose|k: int| 0 <= k < s.len() && s[k] == y;
            assert(s.push(x)[k] == y);
        } else {
            assert(s.push(x)[s.len() as int] == y);
        }
    }
}

} // verus!
