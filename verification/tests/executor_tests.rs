use tensor_core::executor::WasmExecutor;
use tensor_core::operations::lanes::read_lane;
use tensor_core::pattern::{AllocationRequirement, OperationDesc, PatternBuilder};
use tensor_core::operations::matmul::matmul_output_shape;
use tensor_core::types::{WasmDType, WasmError, WasmOperation};

fn f32s_to_bytes(values: &[f32]) -> Vec<u8> {
    let mut out = Vec::new();
    for v in values {
        for b in v.to_bits().to_le_bytes() {
            out.push(b);
        }
    }
    out
}

fn bytes_to_f32s(bytes: &Vec<u8>) -> Vec<f32> {
    let mut out = Vec::new();
    let n = bytes.len() / 4;
    for k in 0..n {
        out.push(f32::from_bits(read_lane(bytes, 4, k) as u32));
    }
    out
}

fn i32s_to_bytes(values: &[i32]) -> Vec<u8> {
    let mut out = Vec::new();
    for v in values {
        for b in v.to_le_bytes() {
            out.push(b);
        }
    }
    out
}

fn bytes_to_i32s(bytes: &Vec<u8>) -> Vec<i32> {
    let mut out = Vec::new();
    let n = bytes.len() / 4;
    for k in 0..n {
        out.push(read_lane(bytes, 4, k) as u32 as i32);
    }
    out
}

#[test]
fn test_executor_creation() {
    let executor = WasmExecutor::new();
    let stats = executor.memory_stats();
    assert!(stats.arena_capacity() > 0);
    assert_eq!(stats.persistent_count(), 0);
}

#[test]
fn test_tensor_allocation() {
    let mut executor = WasmExecutor::new();

    let temp_tensor = executor.alloc_temp_tensor(WasmDType::Float32, vec![10, 20]).unwrap();
    assert!(temp_tensor.is_temporary());
    assert_eq!(temp_tensor.byte_size(), 10 * 20 * 4);

    let persistent_tensor = executor.alloc_persistent_tensor(WasmDType::Float64, vec![5, 5])
        .unwrap();
    assert!(!persistent_tensor.is_temporary());
    assert_eq!(persistent_tensor.byte_size(), 5 * 5 * 8);

    let stats = executor.memory_stats();
    assert!(stats.arena_used() > 0);
    assert_eq!(stats.persistent_count(), 1);
}

#[test]
fn test_memory_checkpoint_restore() {
    let mut executor = WasmExecutor::new();

    let _tensor1 = executor.alloc_temp_tensor(WasmDType::Float32, vec![100]).unwrap();
    let checkpoint = executor.checkpoint();
    let _tensor2 = executor.alloc_temp_tensor(WasmDType::Float32, vec![200]).unwrap();

    let stats_before = executor.memory_stats();
    executor.restore(checkpoint).unwrap();
    let stats_after = executor.memory_stats();

    assert!(stats_after.arena_used() <= stats_before.arena_used());
}

#[test]
fn test_checkpoint_restore_scenario() {
    let mut executor = WasmExecutor::new();
    let _first = executor.alloc_temp_tensor(WasmDType::Float32, vec![100]).unwrap();
    let used_after_first = executor.memory_stats().arena_used();
    let cp = executor.checkpoint();
    let _second = executor.alloc_temp_tensor(WasmDType::Float32, vec![200]).unwrap();
    executor.restore(cp).unwrap();
    assert!(executor.memory_stats().arena_used() <= used_after_first);
    assert_eq!(executor.memory_stats().arena_used(), used_after_first);
}

#[test]
fn test_tensor_from_data_round_trip() {
    let mut executor = WasmExecutor::new();
    let data = f32s_to_bytes(&[1.5, -2.25, 3.75, 0.0, 42.0, -0.5]);
    let tensor = executor
        .tensor_from_data(data.clone(), WasmDType::Float32, vec![2, 3])
        .unwrap();
    let back = executor.copy_tensor_data_to_host(&tensor).unwrap();
    assert_eq!(back, data);
}

#[test]
fn test_tensor_from_data_size_mismatch_refused() {
    let mut executor = WasmExecutor::new();
    let data = vec![0u8; 10];
    let r = executor.tensor_from_data(data, WasmDType::Float32, vec![2, 3]);
    assert!(r.is_err());
}

#[test]
fn test_copy_host_data_to_tensor_and_back() {
    let mut executor = WasmExecutor::new();
    let tensor = executor.alloc_temp_tensor(WasmDType::Int32, vec![4]).unwrap();
    let data = i32s_to_bytes(&[10, -20, 30, -40]);
    executor.copy_host_data_to_tensor(&tensor, &data).unwrap();
    let back = executor.copy_tensor_data_to_host(&tensor).unwrap();
    assert_eq!(back, data);
}

#[test]
fn test_executor_binary_i32_add() {
    let mut executor = WasmExecutor::new();
    let a = executor
        .tensor_from_data(i32s_to_bytes(&[1, 2, 3, 4]), WasmDType::Int32, vec![4])
        .unwrap();
    let b = executor
        .tensor_from_data(i32s_to_bytes(&[10, 20, 30, 40]), WasmDType::Int32, vec![4])
        .unwrap();
    let out = executor.alloc_persistent_tensor(WasmDType::Int32, vec![4]).unwrap();
    executor.execute_binary(WasmOperation::Add, &a, &b, &out).unwrap();
    let bytes = executor.copy_tensor_data_to_host(&out).unwrap();
    assert_eq!(bytes_to_i32s(&bytes), vec![11, 22, 33, 44]);
}

#[test]
fn test_executor_unary_i32_neg() {
    let mut executor = WasmExecutor::new();
    let input = executor
        .tensor_from_data(i32s_to_bytes(&[5, -6, 7]), WasmDType::Int32, vec![3])
        .unwrap();
    let out = executor.alloc_persistent_tensor(WasmDType::Int32, vec![3]).unwrap();
    executor.execute_unary(WasmOperation::Neg, &input, &out).unwrap();
    let bytes = executor.copy_tensor_data_to_host(&out).unwrap();
    assert_eq!(bytes_to_i32s(&bytes), vec![-5, 6, -7]);
}

#[test]
fn test_executor_unary_invalid_on_integer() {
    let mut executor = WasmExecutor::new();
    let input = executor
        .tensor_from_data(i32s_to_bytes(&[1, 2]), WasmDType::Int32, vec![2])
        .unwrap();
    let out = executor.alloc_persistent_tensor(WasmDType::Int32, vec![2]).unwrap();
    let r = executor.execute_unary(WasmOperation::Sin, &input, &out);
    assert!(r.is_err());
}

#[test]
fn test_executor_slice_f32() {
    let mut executor = WasmExecutor::new();
    let input = executor
        .tensor_from_data(
            f32s_to_bytes(&[1.0, 2.0, 3.0, 4.0, 5.0, 6.0, 7.0, 8.0, 9.0]),
            WasmDType::Float32,
            vec![3, 3],
        )
        .unwrap();
    let out = executor.alloc_persistent_tensor(WasmDType::Float32, vec![2, 2]).unwrap();
    executor.execute_slice(&input, &out, 1, 1).unwrap();
    let bytes = executor.copy_tensor_data_to_host(&out).unwrap();
    assert_eq!(bytes_to_f32s(&bytes), vec![5.0, 6.0, 8.0, 9.0]);
}

#[test]
fn test_executor_transpose_f32() {
    let mut executor = WasmExecutor::new();
    let input = executor
        .tensor_from_data(
            f32s_to_bytes(&[1.0, 2.0, 3.0, 4.0]),
            WasmDType::Float32,
            vec![2, 2],
        )
        .unwrap();
    let out = executor.alloc_persistent_tensor(WasmDType::Float32, vec![2, 2]).unwrap();
    executor.execute_unary(WasmOperation::Transpose, &input, &out).unwrap();
    let bytes = executor.copy_tensor_data_to_host(&out).unwrap();
    assert_eq!(bytes_to_f32s(&bytes), vec![1.0, 3.0, 2.0, 4.0]);
}

#[test]
fn test_executor_reduction_i32_sum_all_axes() {
    let mut executor = WasmExecutor::new();
    let input = executor
        .tensor_from_data(i32s_to_bytes(&[1, 2, 3, 4, 5, 6]), WasmDType::Int32, vec![2, 3])
        .unwrap();
    let out_full = executor.alloc_persistent_tensor(WasmDType::Int32, vec![1]).unwrap();
    executor.execute_reduction(WasmOperation::Sum, &input, &out_full, None, false).unwrap();
    let out_axes = executor.alloc_persistent_tensor(WasmDType::Int32, vec![1]).unwrap();
    executor
        .execute_reduction(WasmOperation::Sum, &input, &out_axes, Some(vec![0, 1]), false)
        .unwrap();
    let full = executor.copy_tensor_data_to_host(&out_full).unwrap();
    let axes = executor.copy_tensor_data_to_host(&out_axes).unwrap();
    assert_eq!(bytes_to_i32s(&full), vec![21]);
    assert_eq!(full, axes);
}

#[test]
fn test_executor_reduction_i32_mean_is_sum_div() {
    let mut executor = WasmExecutor::new();
    let input = executor
        .tensor_from_data(i32s_to_bytes(&[3, 5, 8, 13]), WasmDType::Int32, vec![4])
        .unwrap();
    let out_sum = executor.alloc_persistent_tensor(WasmDType::Int32, vec![1]).unwrap();
    let out_mean = executor.alloc_persistent_tensor(WasmDType::Int32, vec![1]).unwrap();
    executor.execute_reduction(WasmOperation::Sum, &input, &out_sum, None, false).unwrap();
    executor.execute_reduction(WasmOperation::Mean, &input, &out_mean, None, false).unwrap();
    let s = bytes_to_i32s(&executor.copy_tensor_data_to_host(&out_sum).unwrap())[0];
    let m = bytes_to_i32s(&executor.copy_tensor_data_to_host(&out_mean).unwrap())[0];
    assert_eq!(m, s / 4);
}

#[test]
fn test_bulk_allocation_pattern() {
    let mut executor = WasmExecutor::new();

    let mut builder = PatternBuilder::new();
    builder.add_operation(OperationDesc {
        operation: WasmOperation::Add,
        input_shapes: vec![vec![16, 16]],
        input_dtypes: vec![WasmDType::Float32],
        output_shape: vec![16, 16],
        output_dtype: WasmDType::Float32,
    });
    builder.add_allocation(AllocationRequirement { size_bytes: 1024, alignment: 16, is_output: false });
    builder.add_allocation(AllocationRequirement { size_bytes: 2048, alignment: 16, is_output: true });
    let cache = tensor_core::pattern::PatternCache::new(10, 100);
    let pattern = builder.build(&cache);

    let tensors = executor.bulk_allocate_for_pattern(&pattern).unwrap();
    assert_eq!(tensors.len(), 2);
    assert!(tensors[0].is_temporary());
    assert!(tensors[1].is_temporary());

    let mut big = PatternBuilder::new();
    big.add_operation(OperationDesc {
        operation: WasmOperation::Matmul,
        input_shapes: vec![vec![1]],
        input_dtypes: vec![WasmDType::Float32],
        output_shape: vec![1],
        output_dtype: WasmDType::Float32,
    });
    big.add_allocation(AllocationRequirement {
        size_bytes: 1024 * 1024 * 1024,
        alignment: 16,
        is_output: true,
    });
    let big_pattern = big.build(&cache);
    assert!(executor.bulk_allocate_for_pattern(&big_pattern).is_err());
}

#[test]
fn test_matmul_shape_validation() {
    assert_eq!(matmul_output_shape(&vec![3], &vec![3]).unwrap(), vec![1]);
    assert_eq!(matmul_output_shape(&vec![3], &vec![3, 4]).unwrap(), vec![4]);
    assert_eq!(matmul_output_shape(&vec![2, 3], &vec![3]).unwrap(), vec![2]);
    assert_eq!(matmul_output_shape(&vec![2, 3], &vec![3, 4]).unwrap(), vec![2, 4]);
    assert!(matmul_output_shape(&vec![2, 3], &vec![4, 2]).is_err());
    assert_eq!(
        matmul_output_shape(&vec![2, 1, 3, 4], &vec![1, 5, 4, 6]).unwrap(),
        vec![2, 5, 3, 6]
    );
}

#[test]
fn test_pattern_recording_and_lookup() {
    let mut executor = WasmExecutor::new();
    let a = executor
        .tensor_from_data(i32s_to_bytes(&[1, 2, 3, 4]), WasmDType::Int32, vec![4])
        .unwrap();
    let b = executor
        .tensor_from_data(i32s_to_bytes(&[4, 3, 2, 1]), WasmDType::Int32, vec![4])
        .unwrap();
    let out = executor.alloc_persistent_tensor(WasmDType::Int32, vec![4]).unwrap();

    assert_eq!(executor.pattern_cache_stats().pattern_count(), 0);
    executor.execute_binary(WasmOperation::Add, &a, &b, &out).unwrap();
    assert_eq!(executor.pattern_cache_stats().pattern_count(), 1);

    let hit = executor.try_pattern_execution(WasmOperation::Add, &vec![&a, &b]);
    assert!(hit.is_some());

    executor.set_pattern_optimization(false);
    let miss = executor.try_pattern_execution(WasmOperation::Add, &vec![&a, &b]);
    assert!(miss.is_none());
    executor.set_pattern_optimization(true);

    executor.clear_pattern_cache();
    assert_eq!(executor.pattern_cache_stats().pattern_count(), 0);
}

#[test]
fn test_gc_persistent_tensors() {
    let mut executor = WasmExecutor::new();
    let t = executor.alloc_persistent_tensor(WasmDType::Int32, vec![8]).unwrap();
    assert_eq!(executor.memory_stats().persistent_count(), 1);
    assert_eq!(executor.gc(), 0);
    assert!(executor.release_tensor(&t));
    assert_eq!(executor.gc(), 1);
    assert_eq!(executor.memory_stats().persistent_count(), 0);
}

#[test]
fn test_executor_reduction_i32_axis_rows_and_cols() {
    let mut executor = WasmExecutor::new();
    let input = executor
        .tensor_from_data(i32s_to_bytes(&[1, 2, 3, 4, 5, 6]), WasmDType::Int32, vec![2, 3])
        .unwrap();
    let out_rows = executor.alloc_persistent_tensor(WasmDType::Int32, vec![2]).unwrap();
    executor
        .execute_reduction(WasmOperation::Sum, &input, &out_rows, Some(vec![1]), false)
        .unwrap();
    assert_eq!(
        bytes_to_i32s(&executor.copy_tensor_data_to_host(&out_rows).unwrap()),
        vec![6, 15]
    );
    let out_cols = executor.alloc_persistent_tensor(WasmDType::Int32, vec![3]).unwrap();
    executor
        .execute_reduction(WasmOperation::Sum, &input, &out_cols, Some(vec![0]), false)
        .unwrap();
    assert_eq!(
        bytes_to_i32s(&executor.copy_tensor_data_to_host(&out_cols).unwrap()),
        vec![5, 7, 9]
    );
    let out_max = executor.alloc_persistent_tensor(WasmDType::Int32, vec![2]).unwrap();
    executor
        .execute_reduction(WasmOperation::Max, &input, &out_max, Some(vec![1]), true)
        .unwrap();
    assert_eq!(
        bytes_to_i32s(&executor.copy_tensor_data_to_host(&out_max).unwrap()),
        vec![3, 6]
    );
}

#[test]
fn test_executor_reduction_i32_axis_out_of_range_refused() {
    let mut executor = WasmExecutor::new();
    let input = executor
        .tensor_from_data(i32s_to_bytes(&[1, 2, 3, 4]), WasmDType::Int32, vec![2, 2])
        .unwrap();
    let out = executor.alloc_persistent_tensor(WasmDType::Int32, vec![2]).unwrap();
    assert!(executor
        .execute_reduction(WasmOperation::Sum, &input, &out, Some(vec![5]), false)
        .is_err());
}

#[test]
fn test_executor_matmul_error_kinds() {
    let mut executor = WasmExecutor::new();
    let a = executor
        .tensor_from_data(f32s_to_bytes(&[1.0; 6]), WasmDType::Float32, vec![2, 3])
        .unwrap();
    let bad = executor
        .tensor_from_data(f32s_to_bytes(&[1.0; 8]), WasmDType::Float32, vec![4, 2])
        .unwrap();
    let out = executor.alloc_persistent_tensor(WasmDType::Float32, vec![2, 2]).unwrap();
    assert_eq!(executor.execute_matmul(&a, &bad, &out), Err(WasmError::InvalidShape));
    let vec_in = executor
        .tensor_from_data(f32s_to_bytes(&[1.0, 2.0]), WasmDType::Float32, vec![2])
        .unwrap();
    let cube = executor
        .tensor_from_data(f32s_to_bytes(&[1.0; 8]), WasmDType::Float32, vec![2, 2, 2])
        .unwrap();
    assert_eq!(executor.execute_matmul(&vec_in, &cube, &out), Err(WasmError::NotImplemented));
    let good_b = executor
        .tensor_from_data(f32s_to_bytes(&[1.0; 6]), WasmDType::Float32, vec![3, 2])
        .unwrap();
    assert_eq!(executor.execute_matmul(&a, &good_b, &out), Err(WasmError::NotImplemented));
}

#[test]
fn test_memory_stats_total_bytes() {
    let mut executor = WasmExecutor::new();
    let _t = executor.alloc_persistent_tensor(WasmDType::Int32, vec![8]).unwrap();
    let _u = executor.alloc_temp_tensor(WasmDType::Int32, vec![4]).unwrap();
    let stats = executor.memory_stats();
    assert_eq!(stats.total_bytes(), stats.arena_used() + stats.persistent_bytes());
    assert!(stats.persistent_bytes() >= 32);
    assert!(stats.arena_used() >= 16);
}

#[test]
fn test_restore_unknown_id_refused() {
    let mut executor = WasmExecutor::new();
    let cp = executor.checkpoint();
    assert!(executor.restore(cp + 1000).is_err());
    assert!(executor.restore(cp).is_ok());
}
