use raybnn_core::errors::EngineError;
use raybnn_core::sparse::{
    check_cols_in_range, check_csr_wf, coo_to_csr, csr_to_coo, CooMatrix, CsrMatrix,
};

fn triples_of_row(coo: &CooMatrix, r: usize) -> Vec<(usize, usize, u32)> {
    let mut out = Vec::new();
    for k in 0..coo.row_idx.len() {
        if coo.row_idx[k] == r {
            out.push((coo.row_idx[k], coo.col_idx[k], coo.values[k]));
        }
    }
    out
}

fn sorted(mut v: Vec<(usize, usize, u32)>) -> Vec<(usize, usize, u32)> {
    v.sort();
    v
}

#[test]
fn groups_rows_with_counting_sort() {
    // Triples arrive in scrambled row order; within each row the
    // original order must be kept.
    let coo = CooMatrix {
        row_idx: vec![2, 0, 2, 1, 0],
        col_idx: vec![3, 1, 0, 2, 4],
        values: vec![30, 1, 31, 20, 2],
    };
    let csr = coo_to_csr(&coo, 3).unwrap();
    assert_eq!(csr.row_ptr, vec![0, 2, 3, 5]);
    assert_eq!(csr.col_idx, vec![1, 4, 2, 3, 0]);
    assert_eq!(csr.values, vec![1, 2, 20, 30, 31]);
}

#[test]
fn keeps_empty_rows() {
    let coo = CooMatrix { row_idx: vec![3], col_idx: vec![0], values: vec![7] };
    let csr = coo_to_csr(&coo, 5).unwrap();
    assert_eq!(csr.row_ptr, vec![0, 0, 0, 0, 1, 1]);
    assert_eq!(csr.col_idx, vec![0]);
    assert_eq!(csr.values, vec![7]);
}

#[test]
fn empty_matrix_converts_both_ways() {
    let coo = CooMatrix { row_idx: vec![], col_idx: vec![], values: vec![] };
    let csr = coo_to_csr(&coo, 4).unwrap();
    assert_eq!(csr.row_ptr, vec![0, 0, 0, 0, 0]);
    let back = csr_to_coo(&csr);
    assert!(back.row_idx.is_empty());
    assert!(back.col_idx.is_empty());
    assert!(back.values.is_empty());
}

#[test]
fn rejects_out_of_range_row() {
    let coo = CooMatrix { row_idx: vec![0, 3], col_idx: vec![0, 1], values: vec![1, 2] };
    assert_eq!(coo_to_csr(&coo, 3), Err(EngineError::InvalidIndex));
    // The same triples are fine once the matrix is declared taller.
    assert!(coo_to_csr(&coo, 4).is_ok());
}

#[test]
fn expands_row_pointers_to_explicit_rows() {
    let csr = CsrMatrix {
        row_ptr: vec![0, 2, 2, 4],
        col_idx: vec![1, 2, 0, 2],
        values: vec![10, 11, 12, 13],
    };
    let coo = csr_to_coo(&csr);
    assert_eq!(coo.row_idx, vec![0, 0, 2, 2]);
    assert_eq!(coo.col_idx, vec![1, 2, 0, 2]);
    assert_eq!(coo.values, vec![10, 11, 12, 13]);
}

#[test]
fn coo_round_trip_is_row_sorted_equal() {
    // A COO in scrambled order: the round trip groups rows but keeps,
    // per row, the same multiset of triples.
    let coo = CooMatrix {
        row_idx: vec![1, 0, 1, 2, 0, 1],
        col_idx: vec![5, 2, 0, 1, 0, 3],
        values: vec![15, 2, 10, 21, 1, 13],
    };
    let csr = coo_to_csr(&coo, 3).unwrap();
    let back = csr_to_coo(&csr);
    assert_eq!(back.row_idx.len(), coo.row_idx.len());
    for r in 0..3 {
        assert_eq!(
            sorted(triples_of_row(&back, r)),
            sorted(triples_of_row(&coo, r)),
            "row {} differs",
            r
        );
        // Stronger: the stable sort keeps the original order per row.
        assert_eq!(triples_of_row(&back, r), triples_of_row(&coo, r));
    }
}

#[test]
fn csr_round_trip_is_identical() {
    let csr = CsrMatrix {
        row_ptr: vec![0, 1, 1, 3, 4],
        col_idx: vec![2, 3, 0, 1],
        values: vec![5, 6, 7, 8],
    };
    let back = coo_to_csr(&csr_to_coo(&csr), 4).unwrap();
    assert_eq!(back.row_ptr, csr.row_ptr);
    assert_eq!(back.col_idx, csr.col_idx);
    assert_eq!(back.values, csr.values);
}

#[test]
fn value_words_move_bit_for_bit() {
    // Values are opaque 32-bit words; a scalar stored as its bit
    // pattern comes back bit-identical through both conversions.
    let weights: Vec<f32> = vec![0.1, -2.5, 3.25e-7, f32::MIN_POSITIVE];
    let coo = CooMatrix {
        row_idx: vec![1, 0, 1, 0],
        col_idx: vec![0, 1, 1, 0],
        values: weights.iter().map(|w| w.to_bits()).collect(),
    };
    let back = csr_to_coo(&coo_to_csr(&coo, 2).unwrap());
    let mut recovered: Vec<(usize, usize, f32)> = Vec::new();
    for k in 0..back.row_idx.len() {
        recovered.push((back.row_idx[k], back.col_idx[k], f32::from_bits(back.values[k])));
    }
    assert_eq!(recovered, vec![(0, 1, -2.5), (0, 0, f32::MIN_POSITIVE), (1, 0, 0.1), (1, 1, 3.25e-7)]);
}

#[test]
fn wf_checker_accepts_a_proper_csr() {
    let good = CsrMatrix {
        row_ptr: vec![0, 1, 3],
        col_idx: vec![0, 1, 0],
        values: vec![1, 2, 3],
    };
    assert!(check_csr_wf(&good));
    // A conversion result is always well-formed.
    let coo = CooMatrix { row_idx: vec![1, 0], col_idx: vec![0, 1], values: vec![5, 6] };
    assert!(check_csr_wf(&coo_to_csr(&coo, 2).unwrap()));
}

#[test]
fn wf_checker_rejects_malformed_pointers() {
    // Does not start at zero.
    let bad_start = CsrMatrix { row_ptr: vec![1, 2], col_idx: vec![0, 1], values: vec![1, 2] };
    assert!(!check_csr_wf(&bad_start));
    // Decreasing row pointer.
    let bad_order = CsrMatrix {
        row_ptr: vec![0, 2, 1],
        col_idx: vec![0],
        values: vec![1],
    };
    assert!(!check_csr_wf(&bad_order));
    // Final pointer disagrees with the number of stored values.
    let bad_total = CsrMatrix { row_ptr: vec![0, 1], col_idx: vec![0, 1], values: vec![1, 2] };
    assert!(!check_csr_wf(&bad_total));
    // Parallel arrays disagree in length.
    let bad_parallel = CsrMatrix { row_ptr: vec![0, 1], col_idx: vec![0, 1], values: vec![1] };
    assert!(!check_csr_wf(&bad_parallel));
}

#[test]
fn column_range_check() {
    let csr = CsrMatrix {
        row_ptr: vec![0, 1, 2],
        col_idx: vec![1, 4],
        values: vec![1, 2],
    };
    assert!(check_cols_in_range(&csr, 5));
    assert!(!check_cols_in_range(&csr, 4));
}
