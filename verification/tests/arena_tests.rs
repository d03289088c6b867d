use tensor_core::arena::TempArena;
use tensor_core::storage::{PersistentStorage, PersistentTensor};
use tensor_core::utils::{align_size, ranges_overlap};

#[test]
fn test_arena_basic_allocation() {
    let mut arena = TempArena::new();

    let offset1 = arena.allocate(64).unwrap();
    let offset2 = arena.allocate(128).unwrap();

    assert_eq!(offset1.size(), 64);
    assert_eq!(offset2.size(), 128);
    assert!(offset2.offset() >= offset1.offset() + align_size(64, 16));
}

#[test]
fn test_arena_checkpoint_restore() {
    let mut arena = TempArena::new();

    let _offset1 = arena.allocate(64).unwrap();
    let checkpoint = arena.checkpoint();
    let _offset2 = arena.allocate(128).unwrap();

    let (used_before, _) = arena.memory_usage();
    arena.restore(checkpoint).unwrap();
    let (used_after, _) = arena.memory_usage();

    assert!(used_after < used_before);
}

#[test]
fn test_simd_alignment() {
    let mut arena = TempArena::new();

    let offset = arena.allocate(17).unwrap();

    assert_eq!(offset.offset() % 16, 0);
}

#[test]
fn test_persistent_storage() {
    let mut storage = PersistentStorage::new();

    let tensor = PersistentTensor::new(1024);
    let id = storage.store(tensor);

    let retrieved = storage.get(id).unwrap();
    assert_eq!(retrieved.size(), 1024);

    let (count, bytes) = storage.storage_stats();
    assert_eq!(count, 1);
    assert_eq!(bytes, 1024);
}

#[test]
fn test_align_size() {
    assert_eq!(align_size(10, 8), 16);
    assert_eq!(align_size(16, 8), 16);
    assert_eq!(align_size(17, 8), 24);
}

#[test]
fn test_ranges_overlap() {
    assert!(ranges_overlap(0, 10, 5, 10));
    assert!(!ranges_overlap(0, 5, 10, 5));
    assert!(ranges_overlap(10, 5, 0, 15));
}

#[test]
fn test_arena_allocations_aligned_and_disjoint() {
    let mut arena = TempArena::new();
    let mut ranges: Vec<(usize, usize)> = Vec::new();
    for size in [1usize, 16, 17, 100, 255, 4096] {
        let off = arena.allocate(size).unwrap();
        assert_eq!(off.offset() % 16, 0);
        for (s, l) in &ranges {
            assert!(!ranges_overlap(*s, *l, off.offset(), off.size()));
        }
        ranges.push((off.offset(), off.size()));
    }
}

#[test]
fn test_checkpoint_restore_returns_used_exactly() {
    let mut arena = TempArena::new();
    let _a = arena.allocate(48).unwrap();
    let (used_at_checkpoint, _) = arena.memory_usage();
    let cp = arena.checkpoint();
    let _b = arena.allocate(160).unwrap();
    let _c = arena.allocate(320).unwrap();
    arena.restore(cp).unwrap();
    let (used_after, _) = arena.memory_usage();
    assert_eq!(used_after, used_at_checkpoint);
}

#[test]
fn test_reset_clears_everything() {
    let mut arena = TempArena::new();
    let _a = arena.allocate(64).unwrap();
    let _cp = arena.checkpoint();
    let _b = arena.allocate(64).unwrap();
    arena.reset();
    let (used, _) = arena.memory_usage();
    assert_eq!(used, 0);
    assert_eq!(arena.checkpoint_count(), 0);
    assert_eq!(arena.total_allocated(), 0);
}

#[test]
fn test_arena_zero_allocation_sentinel() {
    let mut arena = TempArena::new();
    let (used_before, _) = arena.memory_usage();
    let off = arena.allocate(0).unwrap();
    assert_eq!(off.offset(), 0);
    assert_eq!(off.size(), 0);
    let (used_after, _) = arena.memory_usage();
    assert_eq!(used_after, used_before);
}

#[test]
fn test_arena_too_large_allocation_refused() {
    let mut arena = TempArena::new();
    let r = arena.allocate(512 * 1024 * 1024 + 1);
    assert!(r.is_err());
}

#[test]
fn test_restore_unknown_checkpoint_refused() {
    let mut arena = TempArena::new();
    let cp = arena.checkpoint();
    // Restoring truncates the stack to the checkpoint itself, so the same id
    // stays valid, while an id never handed out is refused.
    arena.restore(cp).unwrap();
    arena.restore(cp).unwrap();
    let mut empty = TempArena::new();
    let probe = empty.checkpoint();
    empty.restore(probe).unwrap();
    let mut executor = tensor_core::executor::WasmExecutor::new();
    assert!(executor.restore(12345).is_err());
}

#[test]
fn test_storage_gc_and_release() {
    let mut storage = PersistentStorage::new();
    let id1 = storage.store(PersistentTensor::new(64));
    let id2 = storage.store(PersistentTensor::new(128));
    assert!(storage.retain(id1));
    // id1 has an outside holder, id2 does not: the sweep removes only id2.
    let removed = storage.gc();
    assert_eq!(removed, 1);
    let (count, _) = storage.storage_stats();
    assert_eq!(count, 1);
    assert!(storage.get(id1).is_some());
    assert!(storage.get(id2).is_none());
    assert!(storage.release(id1));
    let removed2 = storage.gc();
    assert_eq!(removed2, 1);
}
