use raybnn_core::dynamics::{column_major_index, validate_dynamics_shapes, DynamicsShape};
use raybnn_core::errors::EngineError;
use raybnn_core::sparse::CsrMatrix;

fn square(n: usize) -> CsrMatrix {
    // The identity pattern on n neurons.
    let mut row_ptr = vec![0];
    let mut col_idx = Vec::new();
    let mut values = Vec::new();
    for i in 0..n {
        row_ptr.push(i + 1);
        col_idx.push(i);
        values.push(1);
    }
    CsrMatrix { row_ptr, col_idx, values }
}

#[test]
fn compatible_operands_pass() {
    let shape = DynamicsShape { neuron_count: 4, input_count: 2, batch_size: 3 };
    let w = square(4);
    assert_eq!(validate_dynamics_shapes(shape, &w, 4, 4, 4, 4, 4, 4), Ok(()));
}

#[test]
fn input_wider_than_network_is_rejected() {
    let shape = DynamicsShape { neuron_count: 4, input_count: 5, batch_size: 1 };
    let w = square(4);
    assert_eq!(
        validate_dynamics_shapes(shape, &w, 4, 4, 4, 4, 4, 4),
        Err(EngineError::ShapeMismatch)
    );
}

#[test]
fn wrong_matrix_height_is_rejected() {
    let shape = DynamicsShape { neuron_count: 4, input_count: 1, batch_size: 1 };
    let w = square(3);
    assert_eq!(
        validate_dynamics_shapes(shape, &w, 4, 4, 4, 4, 4, 4),
        Err(EngineError::ShapeMismatch)
    );
}

#[test]
fn out_of_range_column_is_rejected() {
    let shape = DynamicsShape { neuron_count: 2, input_count: 1, batch_size: 1 };
    let w = CsrMatrix { row_ptr: vec![0, 1, 2], col_idx: vec![0, 2], values: vec![1, 1] };
    assert_eq!(
        validate_dynamics_shapes(shape, &w, 2, 2, 2, 2, 2, 2),
        Err(EngineError::ShapeMismatch)
    );
}

#[test]
fn wrong_parameter_length_is_rejected() {
    let shape = DynamicsShape { neuron_count: 4, input_count: 1, batch_size: 1 };
    let w = square(4);
    assert_eq!(
        validate_dynamics_shapes(shape, &w, 4, 4, 3, 4, 4, 4),
        Err(EngineError::ShapeMismatch)
    );
}

#[test]
fn column_major_positions() {
    // A [2, 3, 4] tensor: the first axis varies fastest.
    assert_eq!(column_major_index(2, 3, 4, 0, 0, 0), 0);
    assert_eq!(column_major_index(2, 3, 4, 1, 0, 0), 1);
    assert_eq!(column_major_index(2, 3, 4, 0, 1, 0), 2);
    assert_eq!(column_major_index(2, 3, 4, 0, 0, 1), 6);
    assert_eq!(column_major_index(2, 3, 4, 1, 2, 3), 23);
}

#[test]
fn error_descriptions_name_the_failure() {
    assert_eq!(EngineError::InvalidIndex.describe(), "invalid sparse index");
    assert_eq!(EngineError::ShapeMismatch.describe(), "tensor shapes do not broadcast");
    assert_eq!(
        EngineError::IntegrationStalled.describe(),
        "integration step size collapsed"
    );
}
