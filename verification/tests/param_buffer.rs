use raybnn_core::errors::EngineError;
use raybnn_core::params::{pack_params, split_params, ParamLayout, ParamParts};

#[test]
fn infers_the_layout_from_buffer_and_weight_count() {
    // 4 weights plus six windows of 2: a 16-word buffer.
    let layout = ParamLayout::infer(16, 4).unwrap();
    assert_eq!(layout.nnz, 4);
    assert_eq!(layout.per_neuron, 2);
}

#[test]
fn rejects_weight_count_beyond_buffer() {
    assert_eq!(ParamLayout::infer(3, 4), Err(EngineError::ShapeMismatch));
}

#[test]
fn rejects_remainder_not_divisible_into_six_windows() {
    assert_eq!(ParamLayout::infer(17, 4), Err(EngineError::ShapeMismatch));
}

#[test]
fn splits_at_the_window_boundaries() {
    let buf: Vec<u32> = (0..16).collect();
    let layout = ParamLayout::infer(16, 4).unwrap();
    let parts = split_params(&buf, layout);
    assert_eq!(parts.weights, vec![0, 1, 2, 3]);
    assert_eq!(parts.bias, vec![4, 5]);
    assert_eq!(parts.a, vec![6, 7]);
    assert_eq!(parts.b, vec![8, 9]);
    assert_eq!(parts.c, vec![10, 11]);
    assert_eq!(parts.d, vec![12, 13]);
    assert_eq!(parts.e, vec![14, 15]);
}

#[test]
fn pack_inverts_split() {
    let buf: Vec<u32> = vec![9, 8, 7, 100, 101, 102, 103, 104, 105];
    let layout = ParamLayout::infer(9, 3).unwrap();
    let parts = split_params(&buf, layout);
    assert_eq!(pack_params(&parts), buf);
}

#[test]
fn split_inverts_pack_after_a_resize() {
    // The slice-and-reassign idiom: cut, shrink the weight window,
    // repack, and cut again — every untouched value survives.
    let buf: Vec<u32> = (100..118).collect();
    let layout = ParamLayout::infer(18, 6).unwrap();
    let mut parts = split_params(&buf, layout);
    parts.weights.truncate(3);
    let repacked = pack_params(&parts);
    assert_eq!(repacked.len(), 15);
    let layout2 = ParamLayout::infer(15, 3).unwrap();
    let parts2 = split_params(&repacked, layout2);
    assert_eq!(parts2.weights, vec![100, 101, 102]);
    assert_eq!(parts2.bias, vec![106, 107]);
    assert_eq!(parts2.e, vec![116, 117]);
}

#[test]
fn packs_parts_in_layout_order() {
    let parts = ParamParts {
        weights: vec![1, 2],
        bias: vec![3],
        a: vec![4],
        b: vec![5],
        c: vec![6],
        d: vec![7],
        e: vec![8],
    };
    assert_eq!(pack_params(&parts), vec![1, 2, 3, 4, 5, 6, 7, 8]);
}
