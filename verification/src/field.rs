//! The scalar density field: a dense, immutable 3D array of fixed-point
//! samples addressed by integer grid coordinates.

use vstd::prelude::*;
use crate::SAMPLE_MAX;

verus! {

/// Largest per-axis sample count a field may declare.
pub const DIM_MAX: usize = 1024;

/// A dense 3D array of density samples, addressed `[i][j][k]` with `i`
/// varying slowest (row-major). Samples are 16-bit-fraction fixed-point
/// values. The field is built once and only read afterwards, so it can be
/// shared freely across concurrent chunk extractions.
#[derive(Debug)]
pub struct ScalarField {
    pub d0: usize,
    pub d1: usize,
    pub d2: usize,
    pub data: Vec<i64>,
}

impl ScalarField {
    /// The storage holds exactly one sample per grid point, the per-axis
    /// counts are small enough that flat indices cannot overflow, and every
    /// sample magnitude is bounded so that downstream interpolation
    /// arithmetic stays exact.
    pub open spec fn wf(self) -> bool {
        &&& self.data@.len() == (self.d0 * self.d1) * self.d2
        &&& 1 <= self.d0 <= DIM_MAX
        &&& 1 <= self.d1 <= DIM_MAX
        &&& 1 <= self.d2 <= DIM_MAX
        &&& forall|i: int|
            0 <= i < self.data@.len() ==> -SAMPLE_MAX <= #[trigger] self.data@[i] <= SAMPLE_MAX
    }

    /// The sample stored for grid point `(i, j, k)`.
    pub open spec fn spec_sample(self, i: int, j: int, k: int) -> i64 {
        self.data@[i * (self.d1 * self.d2) + j * self.d2 + k]
    }

    /// Builds a field after checking every well-formedness condition;
    /// returns `None` exactly when one of them fails.
    pub fn new(d0: usize, d1: usize, d2: usize, data: Vec<i64>) -> (r: Option<ScalarField>)
        ensures
            match r {
                Some(f) => {
                    &&& f == (ScalarField { d0, d1, d2, data })
                    &&& f.wf()
                },
                None => !(ScalarField { d0, d1, d2, data }).wf(),
            },
    {
        if d0 < 1 || d0 > DIM_MAX || d1 < 1 || d1 > DIM_MAX || d2 < 1 || d2 > DIM_MAX {
            return None;
        }
        proof {
            lemma_dims_product_bounds(d0 as int, d1 as int, d2 as int);
        }
        let n01: usize = d0 * d1;
        let n: usize = n01 * d2;
        if data.len() != n {
            return None;
        }
        let mut i: usize = 0;
        while i < data.len()
            invariant
                i <= data@.len(),
                forall|j: int| 0 <= j < i ==> -SAMPLE_MAX <= #[trigger] data@[j] <= SAMPLE_MAX,
            decreases data@.len() - i,
        {
            let s = data[i];
            if s < -SAMPLE_MAX || s > SAMPLE_MAX {
                return None;
            }
            i += 1;
        }
        Some(ScalarField { d0, d1, d2, data })
    }

    /// Reads the sample at `(i, j, k)`. Out-of-range coordinates are ruled
    /// out by contract: a lookup past the declared extent is a caller error,
    /// never a silent clamp.
    pub fn sample(&self, i: usize, j: usize, k: usize) -> (s: i64)
        requires
            self.wf(),
            i < self.d0,
            j < self.d1,
            k < self.d2,
        ensures
            s == self.spec_sample(i as int, j as int, k as int),
            -SAMPLE_MAX <= s <= SAMPLE_MAX,
    {
        proof {
            lemma_dims_product_bounds(self.d0 as int, self.d1 as int, self.d2 as int);
            lemma_flat_index_in_range(self.d0 as int, self.d1 as int, self.d2 as int,
                i as int, j as int, k as int);
        }
        let d12: usize = self.d1 * self.d2;
        self.data[i * d12 + j * self.d2 + k]
    }
}

/// Per-axis counts below `DIM_MAX` keep the total sample count far below
/// the addressable range, in either association order.
pub proof fn lemma_dims_product_bounds(d0: int, d1: int, d2: int)
    requires
        1 <= d0 <= DIM_MAX,
        1 <= d1 <= DIM_MAX,
        1 <= d2 <= DIM_MAX,
    ensures
        (d0 * d1) * d2 == d0 * (d1 * d2),
        d0 * d1 <= 0x100000,
        d1 * d2 <= 0x100000,
        d0 * (d1 * d2) <= 0x40000000,
{
    assert((d0 * d1) * d2 == d0 * (d1 * d2)) by (nonlinear_arith);
    assert(d0 * d1 <= 0x100000) by (nonlinear_arith)
        requires 1 <= d0 <= 1024 && 1 <= d1 <= 1024;
    assert(d1 * d2 <= 0x100000) by (nonlinear_arith)
        requires 1 <= d1 <= 1024 && 1 <= d2 <= 1024;
    assert(d0 * (d1 * d2) <= 0x40000000) by (nonlinear_arith)
        requires 1 <= d0 <= 1024 && 1 <= d1 <= 1024 && 1 <= d2 <= 1024;
}

/// Row-major flattening stays inside the array: for in-range coordinates the
/// flat index is nonnegative and below the total sample count.
pub proof fn lemma_flat_index_in_range(d0: int, d1: int, d2: int, i: int, j: int, k: int)
    requires
        0 <= i < d0,
        0 <= j < d1,
        0 <= k < d2,
    ensures
        0 <= i * (d1 * d2),
        0 <= j * d2,
        i * (d1 * d2) + j * d2 + k < d0 * (d1 * d2),
{
    assert(0 <= i * (d1 * d2) && 0 <= j * d2 && i * (d1 * d2) + j * d2 + k < d0 * (d1 * d2))
        by (nonlinear_arith)
        requires 0 <= i < d0 && 0 <= j < d1 && 0 <= k < d2;
}

} // verus!
