//! Shape discipline of a dynamics evaluation.
//!
//! The vector field `dX/dt = UAF(W * Z + H)` is elementwise
//! floating-point work done outside this crate.  What can be pinned
//! down exactly is owned here: the broadcast-compatibility rule that
//! guards every evaluation (surfaced as `ShapeMismatch`), and the
//! column-major index arithmetic of the `[neurons, batch, time]` state
//! and trajectory tensors.

use vstd::prelude::*;

use crate::errors::EngineError;
use crate::sparse::CsrMatrix;
use crate::sparse::check_cols_in_range;

verus! {

/// The sizes a dynamics evaluation runs over.
#[derive(Clone, Copy, Debug, PartialEq, Eq, Structural)]
pub struct DynamicsShape {
    /// Active neurons: row and column count of `W`, and length of the
    /// bias and of each activation parameter vector.
    pub neuron_count: usize,
    /// External input width: the state `X` is embedded into the rows
    /// `0 .. input_count` of the working buffer `Z`.
    pub input_count: usize,
    /// Batch columns, broadcast over by the bias and the parameters.
    pub batch_size: usize,
}

impl DynamicsShape {
    /// The input rows fit inside the working buffer.
    pub open spec fn wf(self) -> bool {
        self.input_count <= self.neuron_count
    }
}

/// The broadcast-compatibility rule of one evaluation: the matrix is
/// square over the active neurons with every edge endpoint in range,
/// and the bias and the five activation parameter vectors each hold
/// one entry per neuron.
pub open spec fn shapes_compatible(
    shape: DynamicsShape,
    w: CsrMatrix,
    bias_len: int,
    a_len: int,
    b_len: int,
    c_len: int,
    d_len: int,
    e_len: int,
) -> bool {
    &&& shape.wf()
    &&& w.num_rows() == shape.neuron_count
    &&& w.cols_in_range(shape.neuron_count as int)
    &&& bias_len == shape.neuron_count
    &&& a_len == shape.neuron_count
    &&& b_len == shape.neuron_count
    &&& c_len == shape.neuron_count
    &&& d_len == shape.neuron_count
    &&& e_len == shape.neuron_count
}

/// Checks the operands of one evaluation against the broadcast rule.
/// Returns `Ok` exactly when they are compatible, and `ShapeMismatch`
/// otherwise — the evaluation is rejected before any arithmetic runs.
pub fn validate_dynamics_shapes(
    shape: DynamicsShape,
    w: &CsrMatrix,
    bias_len: usize,
    a_len: usize,
    b_len: usize,
    c_len: usize,
    d_len: usize,
    e_len: usize,
) -> (result: Result<(), EngineError>)
    ensures
        result is Ok <==> shapes_compatible(
            shape,
            *w,
            bias_len as int,
            a_len as int,
            b_len as int,
            c_len as int,
            d_len as int,
            e_len as int,
        ),
        result is Err ==> result == Err::<(), EngineError>(EngineError::ShapeMismatch),
{
    if shape.input_count > shape.neuron_count {
        return Err(EngineError::ShapeMismatch);
    }
    if w.row_ptr.len() < 1 || w.row_ptr.len() - 1 != shape.neuron_count {
        return Err(EngineError::ShapeMismatch);
    }
    if !check_cols_in_range(w, shape.neuron_count) {
        return Err(EngineError::ShapeMismatch);
    }
    if bias_len != shape.neuron_count || a_len != shape.neuron_count || b_len
        != shape.neuron_count || c_len != shape.neuron_count || d_len != shape.neuron_count
        || e_len != shape.neuron_count {
        return Err(EngineError::ShapeMismatch);
    }
    Ok(())
}

/// Position of the element `(i, j, k)` of a `[d0, d1, d2]` tensor laid
/// out column-major, the layout of the state and trajectory buffers:
/// the first axis varies fastest.
pub open spec fn spec_column_major_index(d0: int, d1: int, i: int, j: int, k: int) -> int {
    i + d0 * j + d0 * d1 * k
}

/// Flat position of the element `(i, j, k)` of a `[d0, d1, d2]`
/// column-major tensor.
pub fn column_major_index(d0: usize, d1: usize, d2: usize, i: usize, j: usize, k: usize) -> (idx:
    usize)
    requires
        i < d0,
        j < d1,
        k < d2,
        d0 * d1 * d2 <= usize::MAX,
    ensures
        idx == spec_column_major_index(d0 as int, d1 as int, i as int, j as int, k as int),
        idx < d0 * d1 * d2,
{
    proof {
        assert(i + d0 * j + d0 * d1 * k < d0 * d1 * d2) by (nonlinear_arith)
            requires
                i < d0,
                j < d1,
                k < d2,
        ;
        assert(d0 * j <= d0 * d1 * d2 && d0 * d1 <= d0 * d1 * d2 && d0 * d1 * k <= d0 * d1 * d2)
            by (nonlinear_arith)
            requires
                i < d0,
                j < d1,
                k < d2,
        ;
    }
    i + d0 * j + d0 * d1 * k
}

/// Layout law: the column-major index is injective — distinct elements
/// of the tensor never share a flat position.
pub proof fn lemma_column_major_injective(
    d0: int,
    d1: int,
    i1: int,
    j1: int,
    k1: int,
    i2: int,
    j2: int,
    k2: int,
)
    requires
        0 <= i1 < d0,
        0 <= j1 < d1,
        0 <= k1,
        0 <= i2 < d0,
        0 <= j2 < d1,
        0 <= k2,
        spec_column_major_index(d0, d1, i1, j1, k1) == spec_column_major_index(
            d0,
            d1,
            i2,
            j2,
            k2,
        ),
    ensures
        i1 == i2,
        j1 == j2,
        k1 == k2,
{
    assert(i1 == i2 && j1 + d1 * k1 == j2 + d1 * k2) by (nonlinear_arith)
        requires
            0 <= i1 < d0,
            0 <= j1 < d1,
            0 <= k1,
            0 <= i2 < d0,
            0 <= j2 < d1,
            0 <= k2,
            i1 + d0 * j1 + d0 * d1 * k1 == i2 + d0 * j2 + d0 * d1 * k2,
    ;
    assert(j1 == j2 && k1 == k2) by (nonlinear_arith)
        requires
            0 <= j1 < d1,
            0 <= k1,
            0 <= j2 < d1,
            0 <= k2,
            j1 + d1 * k1 == j2 + d1 * k2,
    ;
}

} // verus!
