//! The memory system: composes the bump arena and the persistent store, and
//! is the only surface the kernels see. Tensors are handles of metadata plus
//! an owner — an arena range or a persistent id.

use vstd::prelude::*;
use crate::arena::{TempArena, ArenaOffset, CheckpointId, ArenaError, alloc_post};
use crate::storage::{PersistentStorage, PersistentTensor, TensorId, spec_index_of};
use crate::types::{WasmDType, WasmTensorMeta, WasmError, spec_byte_size};
use crate::shape::{
    spec_product, suffix_products_fit, try_strides_and_count, spec_row_major_of,
};
use crate::pattern::{OperationPattern, AllocationRequirement};
use crate::utils::spec_align_up;

verus! {

/// Who owns a tensor's bytes: a range of the arena, or a persistent buffer.
#[derive(Clone, Copy, Debug, PartialEq, Eq, Structural)]
pub enum TensorOwner {
    Temporary(ArenaOffset),
    Persistent(TensorId),
}

/// A tensor handle: metadata plus the owner of its bytes.
#[derive(Debug)]
pub struct WasmTensor {
    meta: WasmTensorMeta,
    owner: TensorOwner,
}

impl WasmTensor {
    /// The metadata, in specifications.
    pub closed spec fn spec_meta(&self) -> WasmTensorMeta {
        self.meta
    }

    /// The owner, in specifications.
    pub closed spec fn spec_owner(&self) -> TensorOwner {
        self.owner
    }

    /// Bytes covered by the elements, in specifications.
    pub open spec fn spec_byte_len(&self) -> int {
        self.spec_meta().spec_size() * spec_byte_size(self.spec_meta().spec_dtype())
    }

    /// A handle from parts; the memory system is the intended caller.
    pub fn from_parts(meta: WasmTensorMeta, owner: TensorOwner) -> (r: WasmTensor)
        ensures
            r.spec_meta() == meta,
            r.spec_owner() == owner,
    {
        WasmTensor { meta, owner }
    }

    /// The tensor's metadata.
    pub fn metadata(&self) -> (r: &WasmTensorMeta)
        ensures
            *r == self.spec_meta(),
    {
        &self.meta
    }

    /// Whether the tensor lives in the arena (and dies with the next rewind).
    pub fn is_temporary(&self) -> (r: bool)
        ensures
            r == (self.spec_owner() is Temporary),
    {
        match self.owner {
            TensorOwner::Temporary(_) => true,
            TensorOwner::Persistent(_) => false,
        }
    }

    /// Bytes covered by the elements of this tensor.
    pub fn byte_size(&self) -> (r: usize)
        requires
            self.spec_byte_len() <= usize::MAX,
        ensures
            r == self.spec_byte_len(),
    {
        self.meta.byte_size()
    }

    /// Size in bytes of the tensor's data region.
    pub fn get_data_size(&self) -> (r: usize)
        requires
            self.spec_byte_len() <= usize::MAX,
        ensures
            r == self.spec_byte_len(),
    {
        self.meta.byte_size()
    }
}

/// Memory usage statistics of the whole system.
pub struct WasmMemoryStats {
    arena_used: usize,
    arena_capacity: usize,
    arena_total_allocated: usize,
    persistent_count: usize,
    persistent_bytes: usize,
    total_bytes: usize,
}

impl WasmMemoryStats {
    /// Arena bytes in use, in specifications.
    pub closed spec fn spec_arena_used(&self) -> usize {
        self.arena_used
    }

    /// Arena capacity, in specifications.
    pub closed spec fn spec_arena_capacity(&self) -> usize {
        self.arena_capacity
    }

    /// Running arena total, in specifications.
    pub closed spec fn spec_arena_total_allocated(&self) -> usize {
        self.arena_total_allocated
    }

    /// Persistent buffer count, in specifications.
    pub closed spec fn spec_persistent_count(&self) -> usize {
        self.persistent_count
    }

    /// Persistent bytes, in specifications.
    pub closed spec fn spec_persistent_bytes(&self) -> usize {
        self.persistent_bytes
    }

    /// Arena use plus persistent bytes, in specifications.
    pub closed spec fn spec_total_bytes(&self) -> usize {
        self.total_bytes
    }

    pub fn arena_used(&self) -> (r: usize)
        ensures
            r == self.spec_arena_used(),
    {
        self.arena_used
    }

    pub fn arena_capacity(&self) -> (r: usize)
        ensures
            r == self.spec_arena_capacity(),
    {
        self.arena_capacity
    }

    pub fn arena_total_allocated(&self) -> (r: usize)
        ensures
            r == self.spec_arena_total_allocated(),
    {
        self.arena_total_allocated
    }

    pub fn persistent_count(&self) -> (r: usize)
        ensures
            r == self.spec_persistent_count(),
    {
        self.persistent_count
    }

    pub fn persistent_bytes(&self) -> (r: usize)
        ensures
            r == self.spec_persistent_bytes(),
    {
        self.persistent_bytes
    }

    pub fn total_bytes(&self) -> (r: usize)
        ensures
            r == self.spec_total_bytes(),
    {
        self.total_bytes
    }
}

/// Canonical metadata for a freshly allocated tensor: row-major strides, the
/// element count is the shape's product, offset zero.
pub open spec fn canonical_meta(meta: WasmTensorMeta, dtype: WasmDType, shape: Seq<usize>) -> bool {
    &&& meta.spec_dtype() == dtype
    &&& meta.spec_shape() == shape
    &&& meta.spec_strides() == spec_row_major_of(shape)
    &&& meta.spec_size() == spec_product(shape)
    &&& meta.spec_offset() == 0
    &&& meta.consistent()
}

/// A shape and dtype admit allocation: strides fit machine words and the byte
/// size fits as well.
pub open spec fn shape_allocatable(shape: Seq<usize>, dtype: WasmDType) -> bool {
    &&& suffix_products_fit(shape)
    &&& spec_product(shape) * spec_byte_size(dtype) <= usize::MAX
}

/// Metadata of a bulk-allocated buffer: a one-dimensional byte tensor over
/// the requirement's size.
pub open spec fn byte_tensor_meta_ok(meta: WasmTensorMeta, size: usize) -> bool {
    &&& meta.spec_dtype() == WasmDType::Uint8
    &&& meta.spec_shape() == seq![size]
    &&& meta.spec_strides() == seq![1usize]
    &&& meta.spec_size() == size
    &&& meta.spec_offset() == 0
    &&& meta.consistent()
}

/// A one-dimensional byte shape is consistent metadata.
proof fn lemma_byte_meta(size: usize)
    ensures
        spec_product(seq![size]) == size,
        suffix_products_fit(seq![size]),
{
    let s = seq![size];
    assert(s.drop_last() =~= Seq::<usize>::empty());
    assert(spec_product(Seq::<usize>::empty()) == 1);
    assert(spec_product(s) == spec_product(s.drop_last()) * s.last());
    assert forall|i: int|
        0 <= i <= s.len() implies spec_product(#[trigger] s.subrange(i, s.len() as int))
        <= usize::MAX by {
        if i == 0 {
            assert(s.subrange(0, 1) =~= s);
        } else {
            assert(s.subrange(1, 1) =~= Seq::<usize>::empty());
        }
    }
}

/// Byte offset just past a temporary tensor's region.
pub open spec fn tensor_end(t: WasmTensor) -> int {
    match t.spec_owner() {
        TensorOwner::Temporary(off) => off.spec_offset() + off.spec_size(),
        TensorOwner::Persistent(_) => 0,
    }
}

/// Byte offset of a temporary tensor's region.
pub open spec fn tensor_start(t: WasmTensor) -> int {
    match t.spec_owner() {
        TensorOwner::Temporary(off) => off.spec_offset() as int,
        TensorOwner::Persistent(_) => 0,
    }
}

/// Sum of the requirements' sizes, each rounded up to 16 bytes.
pub open spec fn spec_sum_aligned16(reqs: Seq<AllocationRequirement>) -> int
    decreases reqs.len(),
{
    if reqs.len() == 0 {
        0
    } else {
        spec_sum_aligned16(reqs.drop_last()) + spec_align_up(reqs.last().size_bytes as int, 16)
    }
}

/// One step of the aligned sum.
proof fn lemma_sum_aligned16_step(reqs: Seq<AllocationRequirement>, i: int)
    requires
        0 <= i < reqs.len(),
    ensures
        spec_sum_aligned16(reqs.subrange(0, i + 1)) == spec_sum_aligned16(reqs.subrange(0, i))
            + spec_align_up(reqs[i].size_bytes as int, 16),
{
    assert(reqs.subrange(0, i + 1).drop_last() =~= reqs.subrange(0, i));
    assert(reqs.subrange(0, i + 1).last() == reqs[i]);
}

/// Every prefix of the aligned sum is at most the whole, and each term is
/// non-negative.
proof fn lemma_sum_aligned16_bounds(reqs: Seq<AllocationRequirement>, i: int)
    requires
        0 <= i <= reqs.len(),
    ensures
        0 <= spec_sum_aligned16(reqs.subrange(0, i)),
        spec_sum_aligned16(reqs.subrange(0, i)) <= spec_sum_aligned16(reqs),
    decreases reqs.len() - i,
{
    lemma_sum_aligned16_nonneg(reqs.subrange(0, i));
    if i < reqs.len() {
        lemma_sum_aligned16_bounds(reqs, i + 1);
        lemma_sum_aligned16_step(reqs, i);
        crate::utils::lemma_align_up(reqs[i].size_bytes as int, 16);
    } else {
        assert(reqs.subrange(0, i) =~= reqs);
    }
}

/// Aligned sums are non-negative.
proof fn lemma_sum_aligned16_nonneg(reqs: Seq<AllocationRequirement>)
    ensures
        0 <= spec_sum_aligned16(reqs),
    decreases reqs.len(),
{
    if reqs.len() > 0 {
        lemma_sum_aligned16_nonneg(reqs.drop_last());
        crate::utils::lemma_align_up(reqs.last().size_bytes as int, 16);
    }
}

/// The bytes a tensor handle denotes in a given system state.
pub open spec fn spec_tensor_data(sys: WasmMemorySystem, t: WasmTensor) -> Seq<u8> {
    match t.spec_owner() {
        TensorOwner::Temporary(off) => sys.spec_arena().spec_bytes().subrange(
            off.spec_offset() as int,
            off.spec_offset() + off.spec_size(),
        ),
        TensorOwner::Persistent(id) => {
            let j = spec_index_of(sys.spec_storage().spec_entries(), id.spec_id());
            sys.spec_storage().spec_entries()[j].spec_data().subrange(
                0,
                sys.spec_storage().spec_entries()[j].spec_size() as int,
            )
        },
    }
}

/// The handle's region exists in this system state.
pub open spec fn spec_tensor_live(sys: WasmMemorySystem, t: WasmTensor) -> bool {
    match t.spec_owner() {
        TensorOwner::Temporary(off) => off.spec_offset() + off.spec_size()
            <= sys.spec_arena().spec_limit(),
        TensorOwner::Persistent(id) => spec_index_of(
            sys.spec_storage().spec_entries(),
            id.spec_id(),
        ) >= 0,
    }
}

/// Round trip through persistent storage: a tensor created from bytes reads
/// back byte-identical. What `tensor_from_data` stores is the prefix of the
/// new entry's buffer, and what `copy_tensor_data_to_host` returns is exactly
/// that prefix.
pub proof fn lemma_from_data_round_trip(
    data: Seq<u8>,
    stored: Seq<u8>,
    declared: int,
    out: Seq<u8>,
)
    requires
        declared == data.len(),
        stored.subrange(0, declared) == data,
        out == stored.subrange(0, declared),
    ensures
        out == data,
{
}

/// The two-tier memory system: bump arena for temporaries, reference-counted
/// store for persistent tensors.
pub struct WasmMemorySystem {
    arena: TempArena,
    storage: PersistentStorage,
}

impl WasmMemorySystem {
    /// The arena, in specifications.
    pub closed spec fn spec_arena(&self) -> TempArena {
        self.arena
    }

    /// The persistent store, in specifications.
    pub closed spec fn spec_storage(&self) -> PersistentStorage {
        self.storage
    }

    /// System invariant: both tiers are well formed.
    pub open spec fn wf(&self) -> bool {
        &&& self.spec_arena().wf()
        &&& self.spec_storage().wf()
    }

    /// A fresh system: empty arena at its initial capacity, empty store.
    pub fn new() -> (r: WasmMemorySystem)
        ensures
            r.wf(),
            r.spec_arena().spec_current() == 0,
            r.spec_arena().spec_limit() == crate::arena::INITIAL_ARENA_SIZE,
            r.spec_arena().spec_checkpoints().len() == 0,
            r.spec_storage().spec_entries().len() == 0,
            r.spec_storage().spec_next_id() == 1,
    {
        WasmMemorySystem { arena: TempArena::new(), storage: PersistentStorage::new() }
    }

    /// Shared access to the arena, for kernels that read tensor bytes.
    pub fn arena(&self) -> (r: &TempArena)
        ensures
            *r == self.spec_arena(),
    {
        &self.arena
    }

    /// Allocates a temporary tensor in the arena with canonical row-major
    /// strides. Fails when the shape's strides or byte size overflow a
    /// machine word, or when the arena cannot provide the bytes; on failure
    /// nothing changes.
    pub fn alloc_temp_tensor(&mut self, dtype: WasmDType, shape: Vec<usize>) -> (r: Result<
        WasmTensor,
        WasmError,
    >)
        requires
            old(self).wf(),
        ensures
            final(self).wf(),
            final(self).spec_storage() == old(self).spec_storage(),
            !shape_allocatable(shape@, dtype) ==> r is Err && *final(self) == *old(self),
            shape_allocatable(shape@, dtype) ==> {
                let bytes = (spec_product(shape@) * spec_byte_size(dtype)) as usize;
                &&& (r is Ok <==> crate::arena::alloc_would_succeed(
                    old(self).spec_arena(),
                    bytes,
                    16,
                ))
                &&& (r is Ok ==> canonical_meta(r->Ok_0.spec_meta(), dtype, shape@) && (
                r->Ok_0.spec_owner() matches TensorOwner::Temporary(off) && alloc_post(
                    old(self).spec_arena(),
                    final(self).spec_arena(),
                    bytes,
                    16,
                    Ok(off),
                )))
            },
            r is Err ==> *final(self) == *old(self) && (r->Err_0 == WasmError::OutOfMemory
                || r->Err_0 == WasmError::InvalidShape),
    {
        let counted = try_strides_and_count(&shape);
        match counted {
            None => Err(WasmError::InvalidShape),
            Some((strides, count)) => {
                let elem = dtype.byte_size();
                if count > usize::MAX / elem {
                    proof {
                        let q = usize::MAX as int / elem as int;
                        vstd::arithmetic::div_mod::lemma_fundamental_div_mod(
                            usize::MAX as int,
                            elem as int,
                        );
                        assert(count * elem > usize::MAX) by (nonlinear_arith)
                            requires
                                count >= q + 1,
                                usize::MAX == elem as int * q + usize::MAX as int % (elem as int),
                                0 <= usize::MAX as int % (elem as int) < elem as int,
                                elem >= 1,
                        ;
                    }
                    return Err(WasmError::InvalidShape);
                }
                proof {
                    let q = usize::MAX as int / elem as int;
                    vstd::arithmetic::div_mod::lemma_fundamental_div_mod(
                        usize::MAX as int,
                        elem as int,
                    );
                    assert(count * elem <= usize::MAX) by (nonlinear_arith)
                        requires
                            count <= q,
                            count >= 0,
                            usize::MAX == elem as int * q + usize::MAX as int % (elem as int),
                            0 <= usize::MAX as int % (elem as int) < elem as int,
                            elem >= 1,
                    ;
                }
                let bytes = count * elem;
                let allocated = self.arena.allocate(bytes);
                match allocated {
                    Ok(off) => {
                        proof {
                            assert(strides@ =~= spec_row_major_of(shape@));
                        }
                        let meta = WasmTensorMeta::new(dtype, shape, strides, count, 0);
                        Ok(WasmTensor { meta, owner: TensorOwner::Temporary(off) })
                    },
                    Err(_) => Err(WasmError::OutOfMemory),
                }
            },
        }
    }

    /// Allocates a zero-initialised persistent tensor with canonical strides.
    /// The store and the returned handle each hold it, so its holder count
    /// starts at two.
    pub fn alloc_persistent_tensor(&mut self, dtype: WasmDType, shape: Vec<usize>) -> (r: Result<
        WasmTensor,
        WasmError,
    >)
        requires
            old(self).wf(),
            old(self).spec_storage().spec_next_id() < u64::MAX,
        ensures
            final(self).wf(),
            final(self).spec_arena() == old(self).spec_arena(),
            (r is Ok <==> shape_allocatable(shape@, dtype) && spec_product(shape@)
                * spec_byte_size(dtype) + 15 <= usize::MAX),
            r is Err ==> *final(self) == *old(self),
            r is Ok ==> {
                let bytes = spec_product(shape@) * spec_byte_size(dtype);
                let entries = final(self).spec_storage().spec_entries();
                &&& canonical_meta(r->Ok_0.spec_meta(), dtype, shape@)
                &&& (r->Ok_0.spec_owner() matches TensorOwner::Persistent(id)
                    && id.spec_id() == entries.last().spec_id())
                &&& entries.len() == old(self).spec_storage().spec_entries().len() + 1
                &&& entries.drop_last() == old(self).spec_storage().spec_entries()
                &&& entries.last().spec_id() == old(self).spec_storage().spec_next_id()
                &&& entries.last().spec_refs() == 2
                &&& entries.last().spec_size() == bytes
                &&& entries.last().spec_data().len() == spec_align_up(bytes as int, 16)
                &&& forall|i: int|
                    0 <= i < entries.last().spec_data().len() ==> entries.last().spec_data()[i]
                        == 0u8
                &&& final(self).spec_storage().spec_next_id() == old(self).spec_storage().spec_next_id() + 1
            },
    {
        let counted = try_strides_and_count(&shape);
        match counted {
            None => Err(WasmError::InvalidShape),
            Some((strides, count)) => {
                let elem = dtype.byte_size();
                if count > usize::MAX / elem {
                    proof {
                        let q = usize::MAX as int / elem as int;
                        vstd::arithmetic::div_mod::lemma_fundamental_div_mod(
                            usize::MAX as int,
                            elem as int,
                        );
                        assert(count * elem > usize::MAX) by (nonlinear_arith)
                            requires
                                count >= q + 1,
                                usize::MAX == elem as int * q + usize::MAX as int % (elem as int),
                                0 <= usize::MAX as int % (elem as int) < elem as int,
                                elem >= 1,
                        ;
                    }
                    return Err(WasmError::InvalidShape);
                }
                proof {
                    let q = usize::MAX as int / elem as int;
                    vstd::arithmetic::div_mod::lemma_fundamental_div_mod(
                        usize::MAX as int,
                        elem as int,
                    );
                    assert(count * elem <= usize::MAX) by (nonlinear_arith)
                        requires
                            count <= q,
                            count >= 0,
                            usize::MAX == elem as int * q + usize::MAX as int % (elem as int),
                            0 <= usize::MAX as int % (elem as int) < elem as int,
                            elem >= 1,
                    ;
                }
                let bytes = count * elem;
                if bytes > usize::MAX - 15 {
                    return Err(WasmError::OutOfMemory);
                }
                let buffer = PersistentTensor::new(bytes);
                let id = self.storage.store(buffer);
                let ghost entries_after = self.spec_storage().spec_entries();
                proof {
                    assert(spec_index_of(entries_after, id.spec_id()) == entries_after.len() - 1);
                }
                let retained = self.storage.retain(id);
                proof {
                    assert(strides@ =~= spec_row_major_of(shape@));
                }
                let meta = WasmTensorMeta::new(dtype, shape, strides, count, 0);
                proof {
                    assert(self.spec_storage().spec_entries().drop_last() =~= old(self).spec_storage().spec_entries());
                }
                Ok(WasmTensor { meta, owner: TensorOwner::Persistent(id) })
            },
        }
    }

    /// Creates a persistent tensor holding the supplied bytes. Fails exactly
    /// when the byte count does not match the shape's byte size, or the shape
    /// itself overflows machine limits.
    pub fn tensor_from_data(&mut self, data: Vec<u8>, dtype: WasmDType, shape: Vec<usize>) -> (r:
        Result<WasmTensor, WasmError>)
        requires
            old(self).wf(),
            old(self).spec_storage().spec_next_id() < u64::MAX,
        ensures
            final(self).wf(),
            final(self).spec_arena() == old(self).spec_arena(),
            (r is Ok <==> shape_allocatable(shape@, dtype) && data@.len() == spec_product(shape@)
                * spec_byte_size(dtype) && data@.len() + 15 <= usize::MAX),
            r is Err ==> *final(self) == *old(self),
            r is Ok ==> {
                let entries = final(self).spec_storage().spec_entries();
                &&& canonical_meta(r->Ok_0.spec_meta(), dtype, shape@)
                &&& (r->Ok_0.spec_owner() matches TensorOwner::Persistent(id)
                    && id.spec_id() == entries.last().spec_id())
                &&& entries.len() == old(self).spec_storage().spec_entries().len() + 1
                &&& entries.drop_last() == old(self).spec_storage().spec_entries()
                &&& entries.last().spec_id() == old(self).spec_storage().spec_next_id()
                &&& entries.last().spec_refs() == 2
                &&& entries.last().spec_size() == data@.len()
                &&& entries.last().spec_data().subrange(0, data@.len() as int) == data@
                &&& final(self).spec_storage().spec_next_id() == old(self).spec_storage().spec_next_id() + 1
            },
    {
        let dlen = data.len();
        let counted = try_strides_and_count(&shape);
        match counted {
            None => Err(WasmError::InvalidShape),
            Some((strides, count)) => {
                let elem = dtype.byte_size();
                if count > usize::MAX / elem {
                    proof {
                        let q = usize::MAX as int / elem as int;
                        vstd::arithmetic::div_mod::lemma_fundamental_div_mod(
                            usize::MAX as int,
                            elem as int,
                        );
                        assert(count * elem > usize::MAX) by (nonlinear_arith)
                            requires
                                count >= q + 1,
                                usize::MAX == elem as int * q + usize::MAX as int % (elem as int),
                                0 <= usize::MAX as int % (elem as int) < elem as int,
                                elem >= 1,
                        ;
                    }
                    return Err(WasmError::InvalidInput);
                }
                proof {
                    let q = usize::MAX as int / elem as int;
                    vstd::arithmetic::div_mod::lemma_fundamental_div_mod(
                        usize::MAX as int,
                        elem as int,
                    );
                    assert(count * elem <= usize::MAX) by (nonlinear_arith)
                        requires
                            count <= q,
                            count >= 0,
                            usize::MAX == elem as int * q + usize::MAX as int % (elem as int),
                            0 <= usize::MAX as int % (elem as int) < elem as int,
                            elem >= 1,
                    ;
                }
                let bytes = count * elem;
                if data.len() != bytes {
                    return Err(WasmError::InvalidInput);
                }
                if bytes > usize::MAX - 15 {
                    return Err(WasmError::OutOfMemory);
                }
                let buffer = PersistentTensor::with_data(data);
                let id = self.storage.store(buffer);
                let ghost entries_after = self.spec_storage().spec_entries();
                proof {
                    assert(spec_index_of(entries_after, id.spec_id()) == entries_after.len() - 1);
                }
                let retained = self.storage.retain(id);
                proof {
                    assert(strides@ =~= spec_row_major_of(shape@));
                }
                let meta = WasmTensorMeta::new(dtype, shape, strides, count, 0);
                proof {
                    assert(self.spec_storage().spec_entries().drop_last() =~= old(self).spec_storage().spec_entries());
                }
                Ok(WasmTensor { meta, owner: TensorOwner::Persistent(id) })
            },
        }
    }

    /// Copies a tensor's bytes out of the system. Fails when the handle's
    /// region is gone or out of range.
    pub fn copy_tensor_data_to_host(&self, tensor: &WasmTensor) -> (r: Result<Vec<u8>, WasmError>)
        requires
            self.wf(),
        ensures
            tensor.spec_owner() matches TensorOwner::Temporary(off) ==> {
                &&& (r is Ok <==> off.spec_offset() + off.spec_size()
                    <= self.spec_arena().spec_limit())
                &&& (r is Ok ==> r->Ok_0@ == self.spec_arena().spec_bytes().subrange(
                    off.spec_offset() as int,
                    off.spec_offset() + off.spec_size(),
                ))
            },
            tensor.spec_owner() matches TensorOwner::Persistent(id) ==> {
                let j = spec_index_of(self.spec_storage().spec_entries(), id.spec_id());
                &&& (r is Ok <==> j >= 0)
                &&& (r is Ok ==> r->Ok_0@ == self.spec_storage().spec_entries()[j].spec_data().subrange(
                    0,
                    self.spec_storage().spec_entries()[j].spec_size() as int,
                ))
            },
            r is Err ==> r->Err_0 == WasmError::InvalidInput,
    {
        match tensor.owner {
            TensorOwner::Temporary(off) => {
                let offset = off.offset();
                let size = off.size();
                let (used, capacity) = self.arena.memory_usage();
                if offset > capacity || size > capacity - offset {
                    return Err(WasmError::InvalidInput);
                }
                Ok(self.arena.read_bytes(offset, size))
            },
            TensorOwner::Persistent(id) => {
                let size = self.storage.size_of(id);
                match size {
                    Some(sz) => {
                        proof {
                            crate::storage::lemma_index_of(
                                self.spec_storage().spec_entries(),
                                id.spec_id(),
                            );
                            let j = spec_index_of(
                                self.spec_storage().spec_entries(),
                                id.spec_id(),
                            );
                            assert(self.spec_storage().spec_entries()[j].spec_size()
                                <= self.spec_storage().spec_entries()[j].spec_data().len());
                        }
                        let data = self.storage.read_data(id, 0, sz);
                        match data {
                            Some(bytes) => Ok(bytes),
                            None => Err(WasmError::InvalidInput),
                        }
                    },
                    None => Err(WasmError::InvalidInput),
                }
            },
        }
    }

    /// Copies host bytes into a tensor's region. Fails when the byte count
    /// does not match the region, or the region is gone; nothing else in the
    /// system changes either way.
    pub fn copy_host_data_to_tensor(&mut self, tensor: &WasmTensor, data: &Vec<u8>) -> (r: Result<
        (),
        WasmError,
    >)
        requires
            old(self).wf(),
        ensures
            final(self).wf(),
            final(self).spec_arena().spec_current() == old(self).spec_arena().spec_current(),
            final(self).spec_arena().spec_limit() == old(self).spec_arena().spec_limit(),
            final(self).spec_arena().spec_checkpoints() == old(self).spec_arena().spec_checkpoints(),
            final(self).spec_storage().spec_next_id() == old(self).spec_storage().spec_next_id(),
            r is Err ==> *final(self) == *old(self),
            tensor.spec_owner() matches TensorOwner::Temporary(off) ==> {
                &&& (r is Ok <==> data@.len() == off.spec_size() && off.spec_offset()
                    + off.spec_size() <= old(self).spec_arena().spec_limit())
                &&& (r is Ok ==> {
                    &&& final(self).spec_storage() == old(self).spec_storage()
                    &&& forall|i: int|
                        off.spec_offset() <= i < off.spec_offset() + data@.len()
                            ==> final(self).spec_arena().spec_bytes()[i] == data@[i
                            - off.spec_offset()]
                    &&& forall|i: int|
                        0 <= i < final(self).spec_arena().spec_bytes().len() && !(off.spec_offset()
                            <= i < off.spec_offset() + data@.len()) ==> final(self).spec_arena().spec_bytes()[i] == old(self).spec_arena().spec_bytes()[i]
                })
            },
            tensor.spec_owner() matches TensorOwner::Persistent(id) ==> {
                let j = spec_index_of(old(self).spec_storage().spec_entries(), id.spec_id());
                &&& (r is Ok <==> j >= 0 && data@.len() == old(self).spec_storage().spec_entries()[j].spec_size())
                &&& (r is Ok ==> {
                    &&& final(self).spec_arena() == old(self).spec_arena()
                    &&& spec_index_of(final(self).spec_storage().spec_entries(), id.spec_id())
                        == j
                    &&& final(self).spec_storage().spec_entries().len() == old(self).spec_storage().spec_entries().len()
                    &&& forall|i: int|
                        0 <= i < old(self).spec_storage().spec_entries().len() && i != j
                            ==> #[trigger] final(self).spec_storage().spec_entries()[i] == old(self).spec_storage().spec_entries()[i]
                    &&& final(self).spec_storage().spec_entries()[j].spec_size() == old(self).spec_storage().spec_entries()[j].spec_size()
                    &&& forall|i: int|
                        0 <= i < data@.len()
                            ==> final(self).spec_storage().spec_entries()[j].spec_data()[i]
                            == data@[i]
                })
            },
    {
        match tensor.owner {
            TensorOwner::Temporary(off) => {
                let offset = off.offset();
                let size = off.size();
                if data.len() != size {
                    return Err(WasmError::InvalidInput);
                }
                let (used, capacity) = self.arena.memory_usage();
                if offset > capacity || size > capacity - offset {
                    return Err(WasmError::InvalidInput);
                }
                self.arena.write_bytes(offset, data);
                Ok(())
            },
            TensorOwner::Persistent(id) => {
                let size = self.storage.size_of(id);
                match size {
                    Some(sz) => {
                        if data.len() != sz {
                            return Err(WasmError::InvalidInput);
                        }
                        proof {
                            crate::storage::lemma_index_of(
                                self.spec_storage().spec_entries(),
                                id.spec_id(),
                            );
                            let j = spec_index_of(
                                self.spec_storage().spec_entries(),
                                id.spec_id(),
                            );
                            assert(self.spec_storage().spec_entries()[j].spec_size()
                                <= self.spec_storage().spec_entries()[j].spec_data().len());
                        }
                        let ok = self.storage.write_data(id, 0, data);
                        proof {
                            if ok {
                                crate::storage::lemma_index_of_unchanged(
                                    old(self).spec_storage().spec_entries(),
                                    self.spec_storage().spec_entries(),
                                    id.spec_id(),
                                );
                            }
                        }
                        if ok {
                            Ok(())
                        } else {
                            Err(WasmError::InvalidInput)
                        }
                    },
                    None => Err(WasmError::InvalidInput),
                }
            },
        }
    }

    /// Pushes an arena checkpoint.
    pub fn checkpoint(&mut self) -> (r: CheckpointId)
        requires
            old(self).wf(),
        ensures
            final(self).wf(),
            final(self).spec_storage() == old(self).spec_storage(),
            r.spec_index() == old(self).spec_arena().spec_checkpoints().len(),
            final(self).spec_arena().spec_checkpoints() == old(self).spec_arena().spec_checkpoints().push(old(self).spec_arena().spec_current()),
            final(self).spec_arena().spec_current() == old(self).spec_arena().spec_current(),
            final(self).spec_arena().spec_limit() == old(self).spec_arena().spec_limit(),
            final(self).spec_arena().spec_bytes() == old(self).spec_arena().spec_bytes(),
    {
        self.arena.checkpoint()
    }

    /// Rewinds the arena to a checkpoint.
    pub fn restore(&mut self, checkpoint: CheckpointId) -> (r: Result<(), ArenaError>)
        requires
            old(self).wf(),
        ensures
            final(self).wf(),
            final(self).spec_storage() == old(self).spec_storage(),
            checkpoint.spec_index() >= old(self).spec_arena().spec_checkpoints().len() ==> r
                == Err::<(), ArenaError>(ArenaError::InvalidCheckpoint) && *final(self) == *old(self),
            checkpoint.spec_index() < old(self).spec_arena().spec_checkpoints().len() ==> r == Ok::<
                (),
                ArenaError,
            >(()) && final(self).spec_arena().spec_current() == old(self).spec_arena().spec_checkpoints()[checkpoint.spec_index() as int]
                && final(self).spec_arena().spec_checkpoints() == old(self).spec_arena().spec_checkpoints().subrange(0, checkpoint.spec_index() + 1),
            final(self).spec_arena().spec_limit() == old(self).spec_arena().spec_limit(),
            final(self).spec_arena().spec_bytes() == old(self).spec_arena().spec_bytes(),
    {
        self.arena.restore(checkpoint)
    }

    /// Empties the arena; persistent tensors are untouched.
    pub fn reset_arena(&mut self)
        requires
            old(self).wf(),
        ensures
            final(self).wf(),
            final(self).spec_storage() == old(self).spec_storage(),
            final(self).spec_arena().spec_current() == 0,
            final(self).spec_arena().spec_checkpoints().len() == 0,
            final(self).spec_arena().spec_total_allocated() == 0,
            final(self).spec_arena().spec_limit() == old(self).spec_arena().spec_limit(),
    {
        self.arena.reset()
    }

    /// Sweeps persistent buffers nobody outside the store holds; returns how
    /// many were removed.
    pub fn gc_persistent(&mut self) -> (r: usize)
        requires
            old(self).wf(),
        ensures
            final(self).wf(),
            final(self).spec_arena() == old(self).spec_arena(),
            final(self).spec_storage().spec_entries() == old(self).spec_storage().spec_entries().filter(
                |e: crate::storage::PersistentEntry| e.spec_refs() >= 2,
            ),
            r == old(self).spec_storage().spec_entries().len() - final(self).spec_storage().spec_entries().len(),
    {
        self.storage.gc()
    }

    /// Drops the handle's hold on a persistent tensor, so a later sweep can
    /// reclaim it; temporary tensors are unaffected.
    pub fn release_tensor(&mut self, tensor: &WasmTensor) -> (r: bool)
        requires
            old(self).wf(),
        ensures
            final(self).wf(),
            final(self).spec_arena() == old(self).spec_arena(),
            final(self).spec_storage().spec_next_id() == old(self).spec_storage().spec_next_id(),
            tensor.spec_owner() is Temporary ==> *final(self) == *old(self) && !r,
            tensor.spec_owner() matches TensorOwner::Persistent(id) ==> {
                let entries = old(self).spec_storage().spec_entries();
                let j = spec_index_of(entries, id.spec_id());
                let post = final(self).spec_storage().spec_entries();
                &&& (r <==> j >= 0)
                &&& (!r ==> *final(self) == *old(self))
                &&& (r ==> post.len() == entries.len() && post[j].spec_refs() == if entries[j].spec_refs() > 1 {
                    entries[j].spec_refs() - 1
                } else {
                    1int
                } && post[j].spec_id() == entries[j].spec_id() && post[j].spec_size()
                    == entries[j].spec_size() && post[j].spec_data() == entries[j].spec_data()
                    && forall|i: int|
                    0 <= i < entries.len() && i != j ==> #[trigger] post[i] == entries[i])
            },
    {
        match tensor.owner {
            TensorOwner::Temporary(_) => false,
            TensorOwner::Persistent(id) => self.storage.release(id),
        }
    }

    /// Current memory statistics across both tiers.
    pub fn memory_stats(&self) -> (r: WasmMemoryStats)
        requires
            self.wf(),
        ensures
            r.spec_arena_used() == self.spec_arena().spec_current(),
            r.spec_arena_capacity() == self.spec_arena().spec_limit(),
            r.spec_arena_total_allocated() == self.spec_arena().spec_total_allocated(),
            r.spec_persistent_count() == self.spec_storage().spec_entries().len(),
            r.spec_persistent_bytes() == if crate::storage::spec_sum_sizes(
                self.spec_storage().spec_entries(),
            ) <= usize::MAX {
                crate::storage::spec_sum_sizes(self.spec_storage().spec_entries())
            } else {
                usize::MAX as int
            },
            r.spec_total_bytes() == if self.spec_arena().spec_current() + r.spec_persistent_bytes()
                <= usize::MAX {
                self.spec_arena().spec_current() + r.spec_persistent_bytes()
            } else {
                usize::MAX as int
            },
    {
        let (used, capacity) = self.arena.memory_usage();
        let (count, bytes) = self.storage.storage_stats();
        let total = if used <= usize::MAX - bytes {
            used + bytes
        } else {
            usize::MAX
        };
        WasmMemoryStats {
            arena_used: used,
            arena_capacity: capacity,
            arena_total_allocated: self.arena.total_allocated(),
            persistent_count: count,
            persistent_bytes: bytes,
            total_bytes: total,
        }
    }

    /// Bytes the arena can still hand out without growing.
    pub fn arena_available(&self) -> (r: usize)
        requires
            self.wf(),
        ensures
            r == self.spec_arena().spec_limit() - self.spec_arena().spec_current(),
    {
        self.arena.available_memory()
    }

    /// Allocates every buffer a pattern needs in one sequence, under a fresh
    /// checkpoint: first the pattern's total bytes are checked against the
    /// free arena space, then each requirement is allocated at its alignment;
    /// any failure rewinds to the checkpoint and reports out-of-memory. All
    /// produced tensors are temporary byte tensors over the requirement's
    /// size. When every requirement is 16-byte aligned, within the single
    /// allocation cap, and their aligned sizes fit the free space in sum, the
    /// allocation is guaranteed to succeed.
    pub fn bulk_allocate_for_pattern(&mut self, pattern: &OperationPattern) -> (r: Result<
        Vec<WasmTensor>,
        WasmError,
    >)
        requires
            old(self).wf(),
        ensures
            final(self).wf(),
            final(self).spec_storage() == old(self).spec_storage(),
            r is Err ==> r->Err_0 == WasmError::OutOfMemory,
            pattern.total_memory_needed > old(self).spec_arena().spec_limit() - old(self).spec_arena().spec_current() ==> r is Err && *final(self) == *old(self),
            r is Err ==> final(self).spec_arena().spec_current() == old(self).spec_arena().spec_current(),
            final(self).spec_arena().spec_checkpoints().len() >= old(self).spec_arena().spec_checkpoints().len(),
            r is Ok ==> {
                let tensors = r->Ok_0;
                let reqs = pattern.allocations@;
                &&& tensors@.len() == reqs.len()
                &&& final(self).spec_arena().spec_checkpoints() == old(self).spec_arena().spec_checkpoints().push(old(self).spec_arena().spec_current())
                &&& forall|k: int|
                    0 <= k < reqs.len() ==> (#[trigger] tensors@[k].spec_owner() matches
                    TensorOwner::Temporary(off) && {
                        &&& byte_tensor_meta_ok(tensors@[k].spec_meta(), reqs[k].size_bytes)
                        &&& off.spec_size() == reqs[k].size_bytes
                        &&& (reqs[k].size_bytes > 0 ==> off.spec_offset() % 16 == 0
                            && off.spec_offset() as int % (if reqs[k].alignment <= 16 {
                            16int
                        } else {
                            reqs[k].alignment as int
                        }) == 0 && old(self).spec_arena().spec_current() <= off.spec_offset()
                            && off.spec_offset() + off.spec_size() <= final(self).spec_arena().spec_current())
                    })
                &&& forall|k1: int, k2: int|
                    0 <= k1 < k2 < reqs.len() && reqs[k1].size_bytes > 0 && reqs[k2].size_bytes
                        > 0 ==> tensor_end(#[trigger] tensors@[k1]) <= tensor_start(
                        #[trigger] tensors@[k2],
                    )
            },
            pattern.total_memory_needed <= old(self).spec_arena().spec_limit() - old(self).spec_arena().spec_current() && (forall|k: int|
                0 <= k < pattern.allocations@.len()
                    ==> 0 < (#[trigger] pattern.allocations@[k]).size_bytes
                    <= crate::arena::MAX_ALLOCATION_SIZE && pattern.allocations@[k].alignment
                    <= 16) && old(self).spec_arena().spec_current() + spec_sum_aligned16(
                pattern.allocations@,
            ) <= old(self).spec_arena().spec_limit() ==> r is Ok,
    {
        let available = self.arena.available_memory();
        if pattern.total_memory_needed > available {
            return Err(WasmError::OutOfMemory);
        }
        let cp = self.arena.checkpoint();
        let ghost pre = *old(self);
        let n = pattern.allocations.len();
        let mut tensors: Vec<WasmTensor> = Vec::new();
        let mut i: usize = 0;
        let ghost owed = pre.spec_arena().spec_current() + spec_sum_aligned16(
            pattern.allocations@,
        ) <= pre.spec_arena().spec_limit() && (forall|k: int|
            0 <= k < pattern.allocations@.len() ==> 0 < (
            #[trigger] pattern.allocations@[k]).size_bytes <= crate::arena::MAX_ALLOCATION_SIZE
                && pattern.allocations@[k].alignment <= 16);
        proof {
            assert(spec_sum_aligned16(pattern.allocations@.subrange(0, 0)) == 0);
            assert(pattern.allocations@.subrange(0, 0) =~= Seq::<AllocationRequirement>::empty());
        }
        while i < n
            invariant
                i <= n,
                n == pattern.allocations@.len(),
                tensors@.len() == i,
                pre == *old(self),
                pattern.total_memory_needed <= pre.spec_arena().spec_limit()
                    - pre.spec_arena().spec_current(),
                self.wf(),
                self.spec_storage() == pre.spec_storage(),
                self.spec_arena().spec_limit() >= pre.spec_arena().spec_limit(),
                self.spec_arena().spec_current() >= pre.spec_arena().spec_current(),
                self.spec_arena().spec_checkpoints() == pre.spec_arena().spec_checkpoints().push(
                    pre.spec_arena().spec_current(),
                ),
                cp.spec_index() == pre.spec_arena().spec_checkpoints().len(),
                forall|k: int|
                    0 <= k < i ==> (#[trigger] tensors@[k].spec_owner() matches
                    TensorOwner::Temporary(off) && {
                        &&& byte_tensor_meta_ok(
                            tensors@[k].spec_meta(),
                            pattern.allocations@[k].size_bytes,
                        )
                        &&& off.spec_size() == pattern.allocations@[k].size_bytes
                        &&& (pattern.allocations@[k].size_bytes > 0 ==> off.spec_offset() % 16
                            == 0 && off.spec_offset() as int % (if pattern.allocations@[k].alignment
                            <= 16 {
                            16int
                        } else {
                            pattern.allocations@[k].alignment as int
                        }) == 0 && pre.spec_arena().spec_current() <= off.spec_offset()
                            && off.spec_offset() + off.spec_size()
                            <= self.spec_arena().spec_current())
                    }),
                forall|k1: int, k2: int|
                    0 <= k1 < k2 < i && pattern.allocations@[k1].size_bytes > 0
                        && pattern.allocations@[k2].size_bytes > 0 ==> tensor_end(
                        #[trigger] tensors@[k1],
                    ) <= tensor_start(#[trigger] tensors@[k2]),
                owed ==> self.spec_arena().spec_current() == pre.spec_arena().spec_current()
                    + spec_sum_aligned16(pattern.allocations@.subrange(0, i as int))
                    && self.spec_arena().spec_limit() == pre.spec_arena().spec_limit(),
                owed == (pre.spec_arena().spec_current() + spec_sum_aligned16(
                    pattern.allocations@,
                ) <= pre.spec_arena().spec_limit() && (forall|k: int|
                    0 <= k < pattern.allocations@.len() ==> 0 < (
                    #[trigger] pattern.allocations@[k]).size_bytes
                        <= crate::arena::MAX_ALLOCATION_SIZE && pattern.allocations@[k].alignment
                        <= 16)),
            decreases n - i,
        {
            let req = pattern.allocations[i];
            let alignment_ok = req.alignment <= 16 || (req.alignment % 16 == 0 && req.alignment
                <= crate::arena::MAX_WASM_MEMORY);
            proof {
                lemma_sum_aligned16_step(pattern.allocations@, i as int);
                if owed {
                    lemma_sum_aligned16_bounds(pattern.allocations@, i as int);
                    crate::utils::lemma_align_up(req.size_bytes as int, 16);
                    crate::utils::lemma_align_up(self.spec_arena().spec_current() as int, 16);
                }
            }
            if !alignment_ok {
                let restored = self.arena.restore(cp);
                return Err(WasmError::OutOfMemory);
            }
            let ghost arena_before = self.spec_arena();
            let allocated = self.arena.alloc_aligned(req.size_bytes, if req.alignment < 1 {
                1
            } else {
                req.alignment
            });
            match allocated {
                Ok(off) => {
                    let meta = WasmTensorMeta::new(
                        WasmDType::Uint8,
                        vec![req.size_bytes],
                        vec![1usize],
                        req.size_bytes,
                        0,
                    );
                    proof {
                        lemma_byte_meta(req.size_bytes);
                    }
                    let t = WasmTensor { meta, owner: TensorOwner::Temporary(off) };
                    tensors.push(t);
                    proof {
                        let ghost eff: int = if req.alignment <= 16 {
                            16
                        } else {
                            req.alignment as int
                        };
                        crate::utils::lemma_align_up(arena_before.spec_current() as int, eff);
                        crate::utils::lemma_align_up(req.size_bytes as int, eff);
                        if owed {
                            lemma_sum_aligned16_bounds(pattern.allocations@, i + 1);
                            crate::utils::lemma_align_up_noop(
                                arena_before.spec_current() as int,
                                16,
                            );
                        }
                        assert(meta.spec_shape() =~= seq![req.size_bytes]);
                        assert(meta.spec_strides() =~= seq![1usize]);
                        assert(byte_tensor_meta_ok(meta, req.size_bytes));
                        assert(pattern.allocations@.subrange(0, i + 1).drop_last()
                            =~= pattern.allocations@.subrange(0, i as int));
                        assert(tensors@[i as int] == t);
                        assert(arena_before.spec_current() <= self.spec_arena().spec_current());
                        if req.size_bytes > 0 {
                            assert(off.spec_offset() == spec_align_up(
                                arena_before.spec_current() as int,
                                eff,
                            ));
                            assert(off.spec_offset() as int % eff == 0);
                            assert(off.spec_offset() + off.spec_size()
                                <= self.spec_arena().spec_current());
                        }
                    }
                    i += 1;
                },
                Err(_) => {
                    proof {
                        if owed {
                            lemma_sum_aligned16_bounds(pattern.allocations@, i + 1);
                            crate::utils::lemma_align_up_noop(
                                arena_before.spec_current() as int,
                                16,
                            );
                            crate::utils::lemma_align_up(req.size_bytes as int, 16);
                            assert(spec_align_up(arena_before.spec_current() as int, 16)
                                + spec_align_up(req.size_bytes as int, 16)
                                <= arena_before.spec_limit());
                            assert(false);
                        }
                    }
                    let restored = self.arena.restore(cp);
                    return Err(WasmError::OutOfMemory);
                },
            }
        }
        proof {
            assert(pattern.allocations@.subrange(0, n as int) =~= pattern.allocations@);
        }
        Ok(tensors)
    }

    /// Number of checkpoints currently on the arena stack.
    pub fn arena_checkpoint_len(&self) -> (r: usize)
        ensures
            r == self.spec_arena().spec_checkpoints().len(),
    {
        self.arena.checkpoint_count()
    }

    /// Whether a pattern's total requirement fits the arena without growth.
    pub fn can_bulk_allocate(&self, pattern: &OperationPattern) -> (r: bool)
        requires
            self.wf(),
        ensures
            r == (pattern.total_memory_needed <= self.spec_arena().spec_limit()
                - self.spec_arena().spec_current()),
    {
        pattern.total_memory_needed <= self.arena.available_memory()
    }
}

} // verus!
