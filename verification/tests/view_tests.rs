use tensor_core::operations::lanes::read_lane;
use tensor_core::operations::view::{
    execute_copy_reshape, execute_expand, execute_tile, execute_transpose_2d,
    execute_slice_with_offsets,
};
use tensor_core::types::{WasmDType, WasmTensorMeta};
use tensor_core::view_descriptor::{ViewType, WasmViewDescriptor};

fn f32s_to_bytes(values: &[f32]) -> Vec<u8> {
    let mut out = Vec::new();
    for v in values {
        for b in v.to_bits().to_le_bytes() {
            out.push(b);
        }
    }
    out
}

fn bytes_to_f32s(bytes: &Vec<u8>) -> Vec<f32> {
    let mut out = Vec::new();
    let n = bytes.len() / 4;
    for k in 0..n {
        out.push(f32::from_bits(read_lane(bytes, 4, k) as u32));
    }
    out
}

#[test]
fn test_transpose_2d_f32() {
    let input = f32s_to_bytes(&[1.0, 2.0, 3.0, 4.0]);
    let out = execute_transpose_2d(&input, 4, 2, 2, 2, 1).unwrap();
    assert_eq!(bytes_to_f32s(&out), vec![1.0, 3.0, 2.0, 4.0]);
}

#[test]
fn test_tile_1d_f32() {
    let input = f32s_to_bytes(&[1.0, 2.0, 3.0]);
    let out = execute_tile(&input, 4, &vec![3], &vec![1], &vec![6]).unwrap();
    assert_eq!(bytes_to_f32s(&out), vec![1.0, 2.0, 3.0, 1.0, 2.0, 3.0]);
}

#[test]
fn test_tile_2d_f32() {
    let input = f32s_to_bytes(&[1.0, 2.0, 3.0, 4.0]);
    let out = execute_tile(&input, 4, &vec![2, 2], &vec![2, 1], &vec![2, 4]).unwrap();
    assert_eq!(bytes_to_f32s(&out), vec![1.0, 2.0, 1.0, 2.0, 3.0, 4.0, 3.0, 4.0]);
}

#[test]
fn test_slice_2d_with_offsets() {
    let input = f32s_to_bytes(&[1.0, 2.0, 3.0, 4.0, 5.0, 6.0, 7.0, 8.0, 9.0]);
    let out = execute_slice_with_offsets(&input, 4, &vec![3, 1], &vec![2, 2], 1, 1).unwrap();
    assert_eq!(bytes_to_f32s(&out), vec![5.0, 6.0, 8.0, 9.0]);
}

#[test]
fn test_expand_f32() {
    let input = f32s_to_bytes(&[1.0, 2.0, 3.0]);
    let out = execute_expand(&input, 4, &vec![3, 1], &vec![1, 1], &vec![3, 4]).unwrap();
    assert_eq!(
        bytes_to_f32s(&out),
        vec![1.0, 1.0, 1.0, 1.0, 2.0, 2.0, 2.0, 2.0, 3.0, 3.0, 3.0, 3.0]
    );
}

#[test]
fn test_transpose_involution_f32() {
    let input = f32s_to_bytes(&[1.0, 2.0, 3.0, 4.0, 5.0, 6.0]);
    let once = execute_transpose_2d(&input, 4, 2, 3, 3, 1).unwrap();
    let twice = execute_transpose_2d(&once, 4, 3, 2, 2, 1).unwrap();
    assert_eq!(twice, input);
}

#[test]
fn test_reshape_round_trip() {
    let input = f32s_to_bytes(&[1.0, 2.0, 3.0, 4.0, 5.0, 6.0]);
    let once = execute_copy_reshape(&input, 6, 6).unwrap();
    let back = execute_copy_reshape(&once, 6, 6).unwrap();
    assert_eq!(back, input);
    assert!(execute_copy_reshape(&input, 6, 5).is_err());
}

#[test]
fn test_reshape_valid() {
    let meta = WasmTensorMeta::new(WasmDType::Float32, vec![2, 3, 4], vec![12, 4, 1], 24, 0);
    let view = WasmViewDescriptor::new_base(1, meta);

    assert!(view.reshape(vec![6, 4]).is_ok());
    assert!(view.reshape(vec![24]).is_ok());
    assert!(view.reshape(vec![4, 6]).is_ok());

    assert!(view.reshape(vec![5, 5]).is_err());
    assert!(view.reshape(vec![2, 2]).is_err());
}

#[test]
fn test_transpose() {
    let meta = WasmTensorMeta::new(WasmDType::Float32, vec![2, 3], vec![3, 1], 6, 0);
    let view = WasmViewDescriptor::new_base(1, meta);
    let transposed = view.transpose().unwrap();

    assert_eq!(transposed.meta.shape(), vec![3, 2]);
    assert_eq!(transposed.meta.strides(), vec![1, 3]);
    assert_eq!(transposed.view_type, ViewType::Transpose);
}

#[test]
fn test_squeeze() {
    let meta1 = WasmTensorMeta::new(
        WasmDType::Float32,
        vec![1, 3, 1, 4, 1],
        vec![12, 4, 4, 1, 1],
        12,
        0,
    );
    let view = WasmViewDescriptor::new_base(1, meta1);

    let squeezed = view.squeeze(None).unwrap();
    assert_eq!(squeezed.meta.shape(), vec![3, 4]);

    let meta2 = WasmTensorMeta::new(
        WasmDType::Float32,
        vec![1, 3, 1, 4, 1],
        vec![12, 4, 4, 1, 1],
        12,
        0,
    );
    let view2 = WasmViewDescriptor::new_base(1, meta2);
    let squeezed2 = view2.squeeze(Some(vec![0, 2])).unwrap();
    assert_eq!(squeezed2.meta.shape(), vec![3, 4, 1]);
}

#[test]
fn test_expand() {
    let meta = WasmTensorMeta::new(WasmDType::Float32, vec![3, 1], vec![1, 1], 3, 0);
    let view = WasmViewDescriptor::new_base(1, meta);
    let expanded = view.expand(vec![3, 4]).unwrap();

    assert_eq!(expanded.meta.shape(), vec![3, 4]);
    assert_eq!(expanded.meta.strides(), vec![1, 0]);
}

#[test]
fn test_permute_and_unsqueeze() {
    let meta = WasmTensorMeta::new(WasmDType::Float32, vec![2, 3, 4], vec![12, 4, 1], 24, 0);
    let view = WasmViewDescriptor::new_base(1, meta);
    let permuted = view.permute(vec![2, 0, 1]).unwrap();
    assert_eq!(permuted.meta.shape(), vec![4, 2, 3]);
    assert_eq!(permuted.meta.strides(), vec![1, 12, 4]);
    assert!(view.permute(vec![0, 0, 1]).is_err());

    let unsqueezed = view.unsqueeze(0).unwrap();
    assert_eq!(unsqueezed.meta.shape(), vec![1, 2, 3, 4]);
}

#[test]
fn test_is_contiguous() {
    let meta = WasmTensorMeta::new(WasmDType::Float32, vec![2, 3], vec![3, 1], 6, 0);
    let view = WasmViewDescriptor::new_base(1, meta);
    assert!(view.is_contiguous());
    let meta2 = WasmTensorMeta::new(WasmDType::Float32, vec![2, 3], vec![1, 2], 6, 0);
    let view2 = WasmViewDescriptor::new_base(1, meta2);
    assert!(!view2.is_contiguous());
}

#[test]
fn test_slice_out_of_range_refused() {
    let input = f32s_to_bytes(&[1.0, 2.0, 3.0, 4.0]);
    let r = execute_slice_with_offsets(&input, 4, &vec![2, 1], &vec![2, 2], 5, 0);
    assert!(r.is_err());
}
