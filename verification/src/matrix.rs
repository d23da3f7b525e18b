//! The position matrix: one coordinate row per vertex, every row of the
//! same dimension. Rows hold coordinates as opaque 64-bit words; the
//! numeric interpretation of a word lives with the caller, while the
//! shape invariant and row addressing are established here.

use vstd::prelude::*;

use crate::errors::GraphError;
use crate::randomness::next_word;

verus! {

/// An `n x d` ordered collection of coordinate words: row `i` is the
/// position of vertex `i`, and row order is the sole link between a
/// vertex index and its coordinates.
pub struct PositionMatrix {
    rows: Vec<Vec<u64>>,
    dims: usize,
}

impl PositionMatrix {
    /// The rows as mathematical sequences.
    pub closed spec fn spec_rows(self) -> Seq<Seq<u64>> {
        self.rows@.map_values(|r: Vec<u64>| r@)
    }

    /// The common row length.
    pub closed spec fn spec_dims(self) -> int {
        self.dims as int
    }

    /// Shape invariant: at least one dimension, and every row has
    /// exactly `spec_dims` entries.
    pub open spec fn wf(self) -> bool {
        &&& self.spec_dims() >= 1
        &&& forall|i: int|
            0 <= i < self.spec_rows().len() ==> (#[trigger] self.spec_rows()[i]).len()
                == self.spec_dims()
    }

    /// Number of rows (vertices).
    pub fn n_rows(&self) -> (r: usize)
        ensures
            r == self.spec_rows().len(),
    {
        self.rows.len()
    }

    /// Number of columns (dimensions).
    pub fn n_dims(&self) -> (r: usize)
        ensures
            r == self.spec_dims(),
    {
        self.dims
    }

    /// The coordinate row of vertex `i`, for the caller that pushes
    /// positions onward; asking past the last row is the one accessor
    /// misuse and is reported as such.
    pub fn row(&self, i: usize) -> (r: Result<Vec<u64>, GraphError>)
        ensures
            match r {
                Ok(row) => i < self.spec_rows().len() && row@ == self.spec_rows()[i as int],
                Err(e) => e == GraphError::IndexOutOfBounds && i >= self.spec_rows().len(),
            },
    {
        if i >= self.rows.len() {
            return Err(GraphError::IndexOutOfBounds);
        }
        let source = &self.rows[i];
        let mut out: Vec<u64> = Vec::new();
        let mut j: usize = 0;
        while j < source.len()
            invariant
                j <= source@.len(),
                out@.len() == j,
                forall|k: int| 0 <= k < j ==> out@[k] == source@[k],
            decreases source@.len() - j,
        {
            out.push(source[j]);
            j = j + 1;
        }
        proof {
            assert(out@ =~= source@);
        }
        Ok(out)
    }

    /// Packs caller-supplied rows into a matrix, refusing a dimension
    /// count of zero or any row of the wrong length.
    pub fn from_rows(rows: Vec<Vec<u64>>, n_dimensions: usize) -> (r: Result<
        PositionMatrix,
        GraphError,
    >)
        ensures
            match r {
                Ok(pm) => {
                    &&& n_dimensions >= 1
                    &&& pm.wf()
                    &&& pm.spec_dims() == n_dimensions
                    &&& pm.spec_rows().len() == rows@.len()
                    &&& forall|i: int|
                        0 <= i < rows@.len() ==> pm.spec_rows()[i] == (#[trigger] rows@[i])@
                },
                Err(e) => {
                    &&& e == GraphError::InvalidParameter
                    &&& (n_dimensions < 1 || exists|i: int|
                        0 <= i < rows@.len() && (#[trigger] rows@[i])@.len() != n_dimensions)
                },
            },
    {
        if n_dimensions < 1 {
            return Err(GraphError::InvalidParameter);
        }
        let mut i: usize = 0;
        while i < rows.len()
            invariant
                i <= rows@.len(),
                forall|k: int| 0 <= k < i ==> (#[trigger] rows@[k])@.len() == n_dimensions,
            decreases rows@.len() - i,
        {
            if rows[i].len() != n_dimensions {
                assert((rows@[i as int])@.len() != n_dimensions);
                return Err(GraphError::InvalidParameter);
            }
            i = i + 1;
        }
        Ok(PositionMatrix { rows, dims: n_dimensions })
    }
}

/// Lays `n_vertices * n_dimensions` coordinate words out as a matrix in
/// row-major order: row `i`, column `j` holds word `i * n_dimensions + j`.
#[verifier::loop_isolation(false)]
pub fn fill_matrix(n_vertices: usize, n_dimensions: usize, words: &Vec<u64>) -> (pm: PositionMatrix)
    requires
        n_dimensions >= 1,
        words@.len() == n_vertices * n_dimensions,
    ensures
        pm.wf(),
        pm.spec_dims() == n_dimensions,
        pm.spec_rows().len() == n_vertices,
        forall|i: int, j: int|
            0 <= i < n_vertices && 0 <= j < n_dimensions ==> #[trigger] pm.spec_rows()[i][j]
                == words@[i * n_dimensions + j],
{
    let words_len = words.len();
    let mut rows: Vec<Vec<u64>> = Vec::new();
    let mut i: usize = 0;
    while i < n_vertices
        invariant
            i <= n_vertices,
            rows@.len() == i,
            forall|k: int| 0 <= k < i ==> (#[trigger] rows@[k])@.len() == n_dimensions,
            forall|k: int, j: int|
                0 <= k < i && 0 <= j < n_dimensions ==> #[trigger] rows@[k]@[j] == words@[k
                    * n_dimensions + j],
        decreases n_vertices - i,
    {
        let mut row: Vec<u64> = Vec::new();
        let mut j: usize = 0;
        proof {
            assert(i * n_dimensions + n_dimensions <= n_vertices * n_dimensions) by (nonlinear_arith)
                requires
                    i < n_vertices,
                    n_dimensions >= 1,
            ;
        }
        while j < n_dimensions
            invariant
                j <= n_dimensions,
                row@.len() == j,
                i < n_vertices,
                i * n_dimensions + n_dimensions <= words@.len(),
                forall|k: int| 0 <= k < j ==> #[trigger] row@[k] == words@[i * n_dimensions + k],
            decreases n_dimensions - j,
        {
            row.push(words[i * n_dimensions + j]);
            j = j + 1;
        }
        rows.push(row);
        i = i + 1;
    }
    let pm = PositionMatrix { rows, dims: n_dimensions };
    proof {
        assert forall|a: int, b: int|
            0 <= a < n_vertices && 0 <= b < n_dimensions implies #[trigger] pm.spec_rows()[a][b]
            == words@[a * n_dimensions + b] by {
            assert(pm.spec_rows()[a] == rows@[a]@);
        }
    }
    pm
}

/// Samples an initial position matrix: every coordinate is an
/// independently drawn word from the injected random source. Only the
/// shape is meaningful here; the matrix seeds the iterative solver.
/// Fails exactly when the dimension count is zero. The counts are
/// bounded only so the total number of coordinates fits a machine word.
pub fn sample_positions(n_vertices: usize, n_dimensions: usize, rng: &mut rand::rngs::StdRng) -> (r:
    Result<PositionMatrix, GraphError>)
    requires
        n_vertices * n_dimensions <= usize::MAX,
    ensures
        match r {
            Ok(pm) => {
                &&& n_dimensions >= 1
                &&& pm.wf()
                &&& pm.spec_dims() == n_dimensions
                &&& pm.spec_rows().len() == n_vertices
            },
            Err(e) => e == GraphError::InvalidParameter && n_dimensions < 1,
        },
{
    if n_dimensions < 1 {
        return Err(GraphError::InvalidParameter);
    }
    let total = n_vertices * n_dimensions;
    let mut words: Vec<u64> = Vec::new();
    let mut k: usize = 0;
    while k < total
        invariant
            k <= total,
            words@.len() == k,
        decreases total - k,
    {
        words.push(next_word(rng));
        k = k + 1;
    }
    Ok(fill_matrix(n_vertices, n_dimensions, &words))
}

/// Determinism of matrix layout: two row collections that both lay the
/// same word sequence out in row-major order are equal row for row.
pub proof fn lemma_fill_deterministic(
    n: int,
    d: int,
    words: Seq<u64>,
    a: Seq<Seq<u64>>,
    b: Seq<Seq<u64>>,
)
    requires
        d >= 1,
        a.len() == n,
        b.len() == n,
        forall|i: int| 0 <= i < n ==> (#[trigger] a[i]).len() == d,
        forall|i: int| 0 <= i < n ==> (#[trigger] b[i]).len() == d,
        forall|i: int, j: int| 0 <= i < n && 0 <= j < d ==> #[trigger] a[i][j] == words[i * d + j],
        forall|i: int, j: int| 0 <= i < n && 0 <= j < d ==> #[trigger] b[i][j] == words[i * d + j],
    ensures
        a == b,
{
    assert forall|i: int| 0 <= i < n implies a[i] == b[i] by {
        assert(a[i] =~= b[i]);
    }
    assert(a =~= b);
}

} // verus!
