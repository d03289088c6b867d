use tensor_core::pattern::{
    AllocationRequirement, OperationDesc, PatternBuilder, PatternCache, PatternSignature,
};
use tensor_core::types::{WasmDType, WasmOperation};

#[test]
fn test_pattern_cache_basic() {
    let mut cache = PatternCache::new(10, 100);

    let mut builder = PatternBuilder::new();
    builder.add_operation(OperationDesc {
        operation: WasmOperation::Add,
        input_shapes: vec![vec![10, 20], vec![10, 20]],
        input_dtypes: vec![WasmDType::Float32, WasmDType::Float32],
        output_shape: vec![10, 20],
        output_dtype: WasmDType::Float32,
    });
    builder.add_allocation(AllocationRequirement { size_bytes: 800, alignment: 16, is_output: true });

    let pattern = builder.build(&cache);
    let pattern_id = pattern.pattern_id;

    cache.store_pattern(pattern).unwrap();

    let retrieved = cache.get_pattern(pattern_id).unwrap();
    assert_eq!(retrieved.pattern_id, pattern_id);

    let stats = cache.cache_stats();
    assert_eq!(stats.pattern_count(), 1);
    assert_eq!(stats.total_hits(), 1);
}

#[test]
fn test_pattern_hashing() {
    let cache = PatternCache::new(10, 100);

    let op1 = OperationDesc {
        operation: WasmOperation::Add,
        input_shapes: vec![vec![10, 20]],
        input_dtypes: vec![WasmDType::Float32],
        output_shape: vec![10, 20],
        output_dtype: WasmDType::Float32,
    };

    let op2 = OperationDesc {
        operation: WasmOperation::Mul,
        input_shapes: vec![vec![10, 20]],
        input_dtypes: vec![WasmDType::Float32],
        output_shape: vec![10, 20],
        output_dtype: WasmDType::Float32,
    };

    let hash1 = cache.hash_operation_sequence(&vec![op1.clone()]);
    let hash2 = cache.hash_operation_sequence(&vec![op2]);
    let hash3 = cache.hash_operation_sequence(&vec![op1]);

    assert_eq!(hash1, hash3);
    assert_ne!(hash1, hash2);
}

fn simple_pattern(cache: &PatternCache, rows: usize) -> tensor_core::pattern::OperationPattern {
    let mut builder = PatternBuilder::new();
    builder.add_operation(OperationDesc {
        operation: WasmOperation::Add,
        input_shapes: vec![vec![rows, 10]],
        input_dtypes: vec![WasmDType::Float32],
        output_shape: vec![rows, 10],
        output_dtype: WasmDType::Float32,
    });
    builder.add_allocation(AllocationRequirement { size_bytes: 100, alignment: 16, is_output: true });
    builder.build(cache)
}

#[test]
fn test_lru_eviction() {
    let mut cache = PatternCache::new(2, 100);

    let p0 = simple_pattern(&cache, 1);
    let p1 = simple_pattern(&cache, 2);
    let p2 = simple_pattern(&cache, 3);
    let (id0, id1, id2) = (p0.pattern_id, p1.pattern_id, p2.pattern_id);

    cache.store_pattern(p0).unwrap();
    cache.store_pattern(p1).unwrap();
    assert_eq!(cache.cache_stats().pattern_count(), 2);

    cache.get_pattern(id0);

    cache.store_pattern(p2).unwrap();
    assert_eq!(cache.cache_stats().pattern_count(), 2);

    assert!(cache.get_pattern(id0).is_some());
    assert!(cache.get_pattern(id1).is_none());
    assert!(cache.get_pattern(id2).is_some());
}

#[test]
fn test_lookup_idempotent_and_hits_monotone() {
    let mut cache = PatternCache::new(10, 100);
    let p = simple_pattern(&cache, 4);
    cache.store_pattern(p).unwrap();

    let sig = PatternSignature::new(
        WasmOperation::Add,
        vec![vec![4, 10]],
        vec![WasmDType::Float32],
    );
    let first = cache.find_matching_pattern(&sig);
    let hits_after_first = cache.cache_stats().total_hits();
    let second = cache.find_matching_pattern(&sig);
    let hits_after_second = cache.cache_stats().total_hits();

    assert!(first.is_some());
    assert_eq!(first, second);
    assert!(hits_after_second >= hits_after_first);
    assert_eq!(hits_after_first, 1);
    assert_eq!(hits_after_second, 2);
}

#[test]
fn test_store_refused_when_over_budget() {
    let mut cache = PatternCache::new(10, 0);
    let mut builder = PatternBuilder::new();
    builder.add_operation(OperationDesc {
        operation: WasmOperation::Add,
        input_shapes: vec![vec![10, 10]],
        input_dtypes: vec![WasmDType::Float32],
        output_shape: vec![10, 10],
        output_dtype: WasmDType::Float32,
    });
    builder.add_allocation(AllocationRequirement { size_bytes: 1024, alignment: 16, is_output: true });
    let pattern = builder.build(&cache);

    let result = cache.store_pattern(pattern);
    assert!(result.is_err());

    let stats = cache.cache_stats();
    assert_eq!(stats.pattern_count(), 0);
    assert_eq!(stats.memory_usage_bytes(), 0);
}

#[test]
fn test_estimated_speedup_range() {
    let cache = PatternCache::new(10, 100);
    let p = simple_pattern(&cache, 2);
    assert!(p.estimated_speedup >= 1500);
    assert!(p.estimated_speedup <= 4500);
    // one operation with 20 input elements: one-and-a-half plus a tenth.
    assert_eq!(p.estimated_speedup, 1600);
}

#[test]
fn test_update_pattern_stats_changes_speedup() {
    let mut cache = PatternCache::new(10, 100);
    let p = simple_pattern(&cache, 5);
    let id = p.pattern_id;
    let initial = p.estimated_speedup;
    cache.store_pattern(p).unwrap();
    cache.update_pattern_stats(id, 10_000);
    let updated = cache.get_pattern(id).unwrap().estimated_speedup;
    assert!(updated != initial);
    // nine tenths of the old estimate plus a tenth of its reciprocal.
    assert_eq!(updated, (9 * 1600 + 1_000_000 / 1600) / 10);
}

#[test]
fn test_clear_empties_cache() {
    let mut cache = PatternCache::new(10, 100);
    let p = simple_pattern(&cache, 6);
    cache.store_pattern(p).unwrap();
    cache.clear();
    let stats = cache.cache_stats();
    assert_eq!(stats.pattern_count(), 0);
    assert_eq!(stats.total_hits(), 0);
    assert_eq!(stats.memory_usage_bytes(), 0);
}
