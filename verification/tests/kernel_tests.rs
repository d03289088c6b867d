use tensor_core::operations::matmul::matmul_pair_indices;
use tensor_core::operations::reduction::execute_axis_reduction_i32;
use tensor_core::operations::lanes::{combine_lanes, fold_lanes, map_lanes, read_lane};
use tensor_core::operations::binary::{execute_binary_i32, identity_map};
use tensor_core::operations::reduction::{
    execute_full_reduction_i32, partition_axes, reduction_group_indices,
};
use tensor_core::operations::softmax::{resolve_axis, softmax_slice_indices};
use tensor_core::operations::unary::execute_unary_i32;
use tensor_core::types::{WasmError, WasmOperation};

fn f32s_to_bytes(values: &[f32]) -> Vec<u8> {
    let mut out = Vec::new();
    for v in values {
        for b in v.to_bits().to_le_bytes() {
            out.push(b);
        }
    }
    out
}

fn bytes_to_f32s(bytes: &Vec<u8>) -> Vec<f32> {
    let mut out = Vec::new();
    let n = bytes.len() / 4;
    for k in 0..n {
        out.push(f32::from_bits(read_lane(bytes, 4, k) as u32));
    }
    out
}

fn i32s_to_bytes(values: &[i32]) -> Vec<u8> {
    let mut out = Vec::new();
    for v in values {
        for b in v.to_le_bytes() {
            out.push(b);
        }
    }
    out
}

fn bytes_to_i32s(bytes: &Vec<u8>) -> Vec<i32> {
    let mut out = Vec::new();
    let n = bytes.len() / 4;
    for k in 0..n {
        out.push(read_lane(bytes, 4, k) as u32 as i32);
    }
    out
}

fn f32_bin(op: fn(f32, f32) -> f32) -> impl Fn(u64, u64) -> u64 {
    move |x: u64, y: u64| {
        op(f32::from_bits(x as u32), f32::from_bits(y as u32)).to_bits() as u64
    }
}

fn f32_un(op: fn(f32) -> f32) -> impl Fn(u64) -> u64 {
    move |x: u64| op(f32::from_bits(x as u32)).to_bits() as u64
}

#[test]
fn test_binary_add_f32() {
    let a = f32s_to_bytes(&[1.0, 2.0, 3.0, 4.0]);
    let b = f32s_to_bytes(&[0.5, 1.5, 2.5, 3.5]);
    let ids = identity_map(4);
    let out = combine_lanes(&a, &b, 4, &ids, &ids, &f32_bin(|x, y| x + y));
    assert_eq!(bytes_to_f32s(&out), vec![1.5, 3.5, 5.5, 7.5]);
}

#[test]
fn test_binary_mul_f32() {
    let a = f32s_to_bytes(&[1.0, 2.0, 3.0, 4.0]);
    let b = f32s_to_bytes(&[2.0, 3.0, 4.0, 5.0]);
    let ids = identity_map(4);
    let out = combine_lanes(&a, &b, 4, &ids, &ids, &f32_bin(|x, y| x * y));
    assert_eq!(bytes_to_f32s(&out), vec![2.0, 6.0, 12.0, 20.0]);
}

#[test]
fn test_binary_div_f32() {
    let a = f32s_to_bytes(&[4.0, 6.0, 8.0, 10.0]);
    let b = f32s_to_bytes(&[2.0, 3.0, 4.0, 5.0]);
    let ids = identity_map(4);
    let out = combine_lanes(&a, &b, 4, &ids, &ids, &f32_bin(|x, y| x / y));
    assert_eq!(bytes_to_f32s(&out), vec![2.0, 2.0, 2.0, 2.0]);
}

#[test]
fn test_execute_binary_elementwise() {
    let a = f32s_to_bytes(&[1.0, 2.0, 3.0, 4.0]);
    let b = f32s_to_bytes(&[5.0, 6.0, 7.0, 8.0]);
    let ids = identity_map(4);
    let out = combine_lanes(&a, &b, 4, &ids, &ids, &f32_bin(|x, y| x + y));
    assert_eq!(bytes_to_f32s(&out), vec![6.0, 8.0, 10.0, 12.0]);
}

#[test]
fn test_unary_neg_f32() {
    let input = f32s_to_bytes(&[1.0, -2.0, 3.0, -4.0]);
    let out = map_lanes(&input, 4, 4, &f32_un(|x| -x));
    assert_eq!(bytes_to_f32s(&out), vec![-1.0, 2.0, -3.0, 4.0]);
}

#[test]
fn test_unary_abs_f32() {
    let input = f32s_to_bytes(&[1.0, -2.0, 3.0, -4.0]);
    let out = map_lanes(&input, 4, 4, &f32_un(|x| x.abs()));
    assert_eq!(bytes_to_f32s(&out), vec![1.0, 2.0, 3.0, 4.0]);
}

#[test]
fn test_unary_square_f32() {
    let input = f32s_to_bytes(&[1.0, 2.0, 3.0, 4.0]);
    let out = map_lanes(&input, 4, 4, &f32_un(|x| x * x));
    assert_eq!(bytes_to_f32s(&out), vec![1.0, 4.0, 9.0, 16.0]);
}

fn fold_f32(data: &Vec<u8>, count: usize, init: f32, op: fn(f32, f32) -> f32) -> f32 {
    let ids = identity_map(count);
    let f = move |acc: u64, x: u64| {
        op(f32::from_bits(acc as u32), f32::from_bits(x as u32)).to_bits() as u64
    };
    let r = fold_lanes(data, 4, &ids, init.to_bits() as u64, &f);
    f32::from_bits(r as u32)
}

#[test]
fn test_sum_f32() {
    let input = f32s_to_bytes(&[1.0, 2.0, 3.0, 4.0, 5.0]);
    assert_eq!(fold_f32(&input, 5, 0.0, |a, b| a + b), 15.0);
}

#[test]
fn test_mean_f32() {
    let input = f32s_to_bytes(&[1.0, 2.0, 3.0, 4.0, 5.0]);
    let sum = fold_f32(&input, 5, 0.0, |a, b| a + b);
    assert_eq!(sum / 5.0, 3.0);
}

#[test]
fn test_max_f32() {
    let input = f32s_to_bytes(&[1.0, 5.0, 2.0, 8.0, 3.0]);
    assert_eq!(fold_f32(&input, 5, f32::NEG_INFINITY, |a, b| if b > a { b } else { a }), 8.0);
}

#[test]
fn test_min_f32() {
    let input = f32s_to_bytes(&[5.0, 1.0, 8.0, 2.0, 3.0]);
    assert_eq!(fold_f32(&input, 5, f32::INFINITY, |a, b| if b < a { b } else { a }), 1.0);
}

#[test]
fn test_prod_f32() {
    let input = f32s_to_bytes(&[1.0, 2.0, 3.0, 4.0]);
    assert_eq!(fold_f32(&input, 4, 1.0, |a, b| a * b), 24.0);
}

fn matmul_f32(a: &[f32], b: &[f32], m: usize, k: usize, n: usize) -> Vec<f32> {
    let a_bytes = f32s_to_bytes(a);
    let b_bytes = f32s_to_bytes(b);
    let mut out = Vec::new();
    for i in 0..m {
        for j in 0..n {
            let mut map_a = Vec::new();
            let mut map_b = Vec::new();
            for p in 0..k {
                map_a.push(i * k + p);
                map_b.push(p * n + j);
            }
            let products = combine_lanes(&a_bytes, &b_bytes, 4, &map_a, &map_b, &f32_bin(|x, y| x * y));
            let ids = identity_map(k);
            let f = |acc: u64, x: u64| {
                (f32::from_bits(acc as u32) + f32::from_bits(x as u32)).to_bits() as u64
            };
            let cell = fold_lanes(&products, 4, &ids, 0.0f32.to_bits() as u64, &f);
            out.push(f32::from_bits(cell as u32));
        }
    }
    out
}

#[test]
fn test_dot_product() {
    let out = matmul_f32(&[1.0, 2.0, 3.0], &[4.0, 5.0, 6.0], 1, 3, 1);
    assert_eq!(out[0], 32.0);
}

#[test]
fn test_matrix_vector_multiply() {
    let out = matmul_f32(&[1.0, 2.0, 3.0, 4.0], &[5.0, 6.0], 2, 2, 1);
    assert_eq!(out, vec![17.0, 39.0]);
}

#[test]
fn test_matrix_matrix_multiply() {
    let out = matmul_f32(&[1.0, 2.0, 3.0, 4.0], &[5.0, 6.0, 7.0, 8.0], 2, 2, 2);
    assert_eq!(out, vec![19.0, 22.0, 43.0, 50.0]);
}

fn softmax_f32(input: &[f32], shape: Vec<usize>, strides: Vec<usize>, axis: i32) -> Vec<f32> {
    let bytes = f32s_to_bytes(input);
    let ndim = shape.len();
    let ax = resolve_axis(axis, ndim).unwrap();
    let mut slices = 1usize;
    for (i, d) in shape.iter().enumerate() {
        if i != ax {
            slices *= d;
        }
    }
    let mut out = vec![0.0f32; input.len()];
    for s in 0..slices {
        let idx = softmax_slice_indices(&shape, &strides, ax, s, bytes.len(), 4).unwrap();
        let vals: Vec<f32> = idx
            .iter()
            .map(|&p| f32::from_bits(read_lane(&bytes, 4, p) as u32))
            .collect();
        let mut max_val = f32::NEG_INFINITY;
        for &v in &vals {
            if v > max_val {
                max_val = v;
            }
        }
        let exps: Vec<f32> = vals.iter().map(|&v| (v - max_val).exp()).collect();
        let total: f32 = exps.iter().sum();
        for (j, &p) in idx.iter().enumerate() {
            out[p] = exps[j] / total;
        }
    }
    out
}

#[test]
fn test_softmax_2d_axis0() {
    let out = softmax_f32(&[1.0, 2.0, 3.0, 4.0], vec![2, 2], vec![2, 1], 0);
    assert!((out[0] + out[2] - 1.0).abs() < 1e-5);
    assert!((out[1] + out[3] - 1.0).abs() < 1e-5);
    assert!((out[0] - 0.11920292).abs() < 1e-5);
    assert!((out[1] - 0.11920292).abs() < 1e-5);
    assert!((out[2] - 0.8807971).abs() < 1e-5);
    assert!((out[3] - 0.8807971).abs() < 1e-5);
}

#[test]
fn test_softmax_2d_axis1() {
    let out = softmax_f32(&[1.0, 2.0, 3.0, 4.0], vec![2, 2], vec![2, 1], 1);
    assert!((out[0] + out[1] - 1.0).abs() < 1e-5);
    assert!((out[2] + out[3] - 1.0).abs() < 1e-5);
    assert!((out[0] - 0.26894142).abs() < 1e-5);
    assert!((out[1] - 0.73105858).abs() < 1e-5);
    assert!((out[2] - 0.26894142).abs() < 1e-5);
    assert!((out[3] - 0.73105858).abs() < 1e-5);
}

#[test]
fn test_unary_i32_exact() {
    let input = i32s_to_bytes(&[1, -2, 3, i32::MIN]);
    let neg = execute_unary_i32(WasmOperation::Neg, &input, 4).unwrap();
    assert_eq!(bytes_to_i32s(&neg), vec![-1, 2, -3, i32::MIN]);
    let abs = execute_unary_i32(WasmOperation::Abs, &input, 4).unwrap();
    assert_eq!(bytes_to_i32s(&abs), vec![1, 2, 3, i32::MIN]);
    let sq = execute_unary_i32(WasmOperation::Square, &input, 4).unwrap();
    assert_eq!(bytes_to_i32s(&sq), vec![1, 4, 9, 0]);
    assert!(execute_unary_i32(WasmOperation::Sin, &input, 4).is_err());
}

#[test]
fn test_binary_i32_exact() {
    let a = i32s_to_bytes(&[7, -7, i32::MAX, 10]);
    let b = i32s_to_bytes(&[2, 2, 1, 0]);
    let add = execute_binary_i32(WasmOperation::Add, &a, &b, 4).unwrap();
    assert_eq!(bytes_to_i32s(&add), vec![9, -5, i32::MIN, 10]);
    let div = execute_binary_i32(WasmOperation::Div, &a, &b, 4).unwrap();
    assert_eq!(bytes_to_i32s(&div), vec![3, -3, i32::MAX, i32::MAX]);
    let c = i32s_to_bytes(&[-10]);
    let z = i32s_to_bytes(&[0]);
    let clamped = execute_binary_i32(WasmOperation::Div, &c, &z, 1).unwrap();
    assert_eq!(bytes_to_i32s(&clamped), vec![i32::MIN]);
}

#[test]
fn test_reduction_i32_exact() {
    let input = i32s_to_bytes(&[1, 2, 3, 4, 5]);
    let sum = execute_full_reduction_i32(WasmOperation::Sum, &input, 5).unwrap();
    assert_eq!(bytes_to_i32s(&sum), vec![15]);
    let mean = execute_full_reduction_i32(WasmOperation::Mean, &input, 5).unwrap();
    assert_eq!(bytes_to_i32s(&mean), vec![3]);
    let max = execute_full_reduction_i32(WasmOperation::Max, &input, 5).unwrap();
    assert_eq!(bytes_to_i32s(&max), vec![5]);
    let min = execute_full_reduction_i32(WasmOperation::Min, &input, 5).unwrap();
    assert_eq!(bytes_to_i32s(&min), vec![1]);
    let prod = execute_full_reduction_i32(WasmOperation::Prod, &input, 5).unwrap();
    assert_eq!(bytes_to_i32s(&prod), vec![120]);
}

#[test]
fn test_reduction_i32_mean_truncates_and_clamps() {
    let neg = i32s_to_bytes(&[-7, 2]);
    let mean = execute_full_reduction_i32(WasmOperation::Mean, &neg, 2).unwrap();
    assert_eq!(bytes_to_i32s(&mean), vec![-2]);
    let big = i32s_to_bytes(&[i32::MAX, i32::MAX, i32::MAX]);
    let sum = execute_full_reduction_i32(WasmOperation::Sum, &big, 3).unwrap();
    assert_eq!(bytes_to_i32s(&sum), vec![i32::MAX]);
}

fn axis_sum_f32(input: &[f32], shape: Vec<usize>, strides: Vec<usize>, axes: Vec<usize>) -> Vec<f32> {
    let bytes = f32s_to_bytes(input);
    let (kept_shape, kept_strides, red_shape, red_strides) =
        partition_axes(&shape, &strides, &axes).unwrap();
    let slots: usize = kept_shape.iter().product();
    let mut out = Vec::new();
    for slot in 0..slots {
        let group = reduction_group_indices(
            &kept_shape,
            &kept_strides,
            &red_shape,
            &red_strides,
            slot,
            bytes.len(),
            4,
        )
        .unwrap();
        let mut s = 0.0f32;
        for &p in &group {
            s += f32::from_bits(read_lane(&bytes, 4, p) as u32);
        }
        out.push(s);
    }
    out
}

#[test]
fn test_axis_reduction_sum_f32() {
    // [[1,2,3],[4,5,6]]: summing the first axis gives the column totals,
    // summing the second the row totals.
    let input = [1.0f32, 2.0, 3.0, 4.0, 5.0, 6.0];
    let cols = axis_sum_f32(&input, vec![2, 3], vec![3, 1], vec![0]);
    assert_eq!(cols, vec![5.0, 7.0, 9.0]);
    let rows = axis_sum_f32(&input, vec![2, 3], vec![3, 1], vec![1]);
    assert_eq!(rows, vec![6.0, 15.0]);
}

#[test]
fn test_sum_all_axes_equals_full_sum_f32() {
    let input = [1.5f32, -2.0, 3.25, 4.0, 0.5, -1.25];
    let all = axis_sum_f32(&input, vec![2, 3], vec![3, 1], vec![0, 1]);
    assert_eq!(all.len(), 1);
    let bytes = f32s_to_bytes(&input);
    let full = fold_f32(&bytes, 6, 0.0, |a, b| a + b);
    assert!((all[0] - full).abs() < 1e-5);
}

#[test]
fn test_mean_is_sum_over_size_f32() {
    let input = [2.0f32, 4.0, 6.0, 8.0, 10.0, 12.0];
    let sums = axis_sum_f32(&input, vec![2, 3], vec![3, 1], vec![1]);
    let means: Vec<f32> = sums.iter().map(|s| s / 3.0).collect();
    assert_eq!(means, vec![4.0, 10.0]);
}

#[test]
fn test_matmul_pair_indices_values() {
    // a is 2x3 row-major, b is 3x4 row-major; cell (1, 2).
    let (ma, mb) = matmul_pair_indices(1, 2, 3, 3, 1, 4, 1, 24, 48, 4).unwrap();
    assert_eq!(ma, vec![3, 4, 5]);
    assert_eq!(mb, vec![2, 6, 10]);
}

#[test]
fn test_matmul_pair_indices_out_of_bounds_refused() {
    // The same maps against a buffer too short for element 5.
    assert_eq!(
        matmul_pair_indices(1, 2, 3, 3, 1, 4, 1, 20, 48, 4),
        Err(WasmError::InvalidInput)
    );
}

#[test]
fn test_axis_reduction_i32_direct() {
    let mut bytes = Vec::new();
    for v in [1i32, 2, 3, 4, 5, 6] {
        bytes.extend_from_slice(&v.to_le_bytes());
    }
    // 2x3 row-major, reduce the column axis: kept [2] stride [3], red [3] stride [1].
    let out = execute_axis_reduction_i32(
        WasmOperation::Sum,
        &bytes,
        &vec![2],
        &vec![3],
        &vec![3],
        &vec![1],
    )
    .unwrap();
    assert_eq!(out.len(), 8);
    let lane0 = i32::from_le_bytes([out[0], out[1], out[2], out[3]]);
    let lane1 = i32::from_le_bytes([out[4], out[5], out[6], out[7]]);
    assert_eq!((lane0, lane1), (6, 15));
}
