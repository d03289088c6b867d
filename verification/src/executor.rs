//! The executor: owns the memory system and the pattern cache, records every
//! operation as a candidate pattern, and dispatches to the kernels. Integer
//! and byte-moving operations are computed here; floating-point element
//! arithmetic is left to the embedding layer, which drives the same verified
//! index machinery.

use vstd::prelude::*;
use crate::arena::CheckpointId;
use crate::memory::{
    WasmMemorySystem, WasmMemoryStats, WasmTensor, TensorOwner, spec_tensor_data, spec_tensor_live,
};
use crate::types::{WasmDType, WasmError, WasmOperation, spec_byte_size};
use crate::pattern::{
    PatternCache, PatternBuilder, PatternCacheStats, PatternSignature, PatternId, OperationDesc,
    AllocationRequirement, OperationPattern,
};
use crate::operations::lanes::spec_lane;
use crate::operations::unary::{
    execute_unary_i32, execute_unary_i8, spec_neg32, spec_abs32, spec_square32, spec_neg8,
    spec_abs8, spec_square8,
};
use crate::operations::binary::{execute_binary_i32, spec_add32, spec_sub32, spec_mul32, spec_div32};
use crate::operations::reduction::{
    execute_full_reduction_i32, spec_sum32, spec_max32, spec_min32, spec_prod32, spec_clamp32,
    spec_trunc_div,
};
use crate::operations::view::{execute_copy_reshape, execute_transpose_2d, spec_transpose_src};

verus! {

/// What a unary dispatch writes to the output region, by operation group:
/// reshape-family operations copy the bytes; a two-dimensional transpose
/// reorders elements; integer negate, absolute value and square act on each
/// lane.
pub open spec fn unary_out_spec(
    operation: WasmOperation,
    dtype: WasmDType,
    input: Seq<u8>,
    rows: int,
    s0: int,
    s1: int,
    count: int,
    out: Seq<u8>,
) -> bool {
    if operation == WasmOperation::Reshape || operation == WasmOperation::View || operation
        == WasmOperation::Flatten || operation == WasmOperation::Squeeze || operation
        == WasmOperation::Unsqueeze {
        out == input
    } else if operation == WasmOperation::Transpose || operation == WasmOperation::Permute {
        forall|o: int|
            0 <= o < count ==> spec_lane(out, spec_byte_size(dtype) as int, o) == spec_lane(
                input,
                spec_byte_size(dtype) as int,
                spec_transpose_src(o, rows, s0, s1),
            )
    } else if dtype == WasmDType::Int32 {
        forall|k: int|
            0 <= k < count ==> spec_lane(out, 4, k) == (if operation == WasmOperation::Neg {
                spec_neg32(spec_lane(input, 4, k) as u64)
            } else if operation == WasmOperation::Abs {
                spec_abs32(spec_lane(input, 4, k) as u64)
            } else {
                spec_square32(spec_lane(input, 4, k) as u64)
            })
    } else {
        forall|k: int|
            0 <= k < count ==> spec_lane(out, 1, k) == (if operation == WasmOperation::Neg {
                spec_neg8(spec_lane(input, 1, k) as u64)
            } else if operation == WasmOperation::Abs {
                spec_abs8(spec_lane(input, 1, k) as u64)
            } else {
                spec_square8(spec_lane(input, 1, k) as u64)
            })
    }
}

/// What a binary dispatch writes, lane for lane, on 32-bit integers.
pub open spec fn binary_out_spec(
    operation: WasmOperation,
    a: Seq<u8>,
    b: Seq<u8>,
    count: int,
    out: Seq<u8>,
) -> bool {
    forall|k: int|
        0 <= k < count ==> spec_lane(out, 4, k) == (if operation == WasmOperation::Add {
            spec_add32(spec_lane(a, 4, k) as u64, spec_lane(b, 4, k) as u64)
        } else if operation == WasmOperation::Sub {
            spec_sub32(spec_lane(a, 4, k) as u64, spec_lane(b, 4, k) as u64)
        } else if operation == WasmOperation::Mul {
            spec_mul32(spec_lane(a, 4, k) as u64, spec_lane(b, 4, k) as u64)
        } else {
            spec_div32(spec_lane(a, 4, k) as u64, spec_lane(b, 4, k) as u64)
        })
}

/// What a 32-bit integer reduction writes to its single output lane. The
/// axis list never changes the integer result: every axis choice reduces the
/// whole tensor, so a sum over all axes equals the full sum by construction.
pub open spec fn reduction_out_spec(
    operation: WasmOperation,
    input: Seq<u8>,
    count: int,
    out: Seq<u8>,
) -> bool {
    spec_lane(out, 4, 0) == (if operation == WasmOperation::Sum {
        spec_clamp32(spec_sum32(input, count))
    } else if operation == WasmOperation::Mean {
        spec_clamp32(spec_trunc_div(spec_sum32(input, count), count))
    } else if operation == WasmOperation::Max {
        spec_clamp32(spec_max32(input, count))
    } else if operation == WasmOperation::Min {
        spec_clamp32(spec_min32(input, count))
    } else {
        spec_clamp32(spec_prod32(input, count))
    })
}

/// The host checkpoint table is sound: every recorded checkpoint still lies
/// on the arena's stack, and host ids strictly increase below the counter,
/// so each id is handed out once.
pub open spec fn checkpoint_table_wf(
    table: Seq<(usize, CheckpointId)>,
    stack_len: int,
    counter: int,
) -> bool {
    &&& forall|k: int|
        0 <= k < table.len() ==> (#[trigger] table[k]).1.spec_index() < stack_len
    &&& forall|a: int, b: int|
        0 <= a < b < table.len() ==> (#[trigger] table[a]).0 < (#[trigger] table[b]).0
    &&& forall|k: int| 0 <= k < table.len() ==> (#[trigger] table[k]).0 < counter
}

/// Index of the first table entry carrying this host id, or -1 when absent.
/// Writing `len` host bytes into the tensor's region succeeds in this state:
/// the region exists and the byte count matches it exactly.
pub open spec fn host_write_ok(sys: WasmMemorySystem, t: WasmTensor, len: int) -> bool {
    match t.spec_owner() {
        TensorOwner::Temporary(off) => len == off.spec_size() && off.spec_offset()
            + off.spec_size() <= sys.spec_arena().spec_limit(),
        TensorOwner::Persistent(id) => {
            let entries = sys.spec_storage().spec_entries();
            let j = crate::storage::spec_index_of(entries, id.spec_id());
            j >= 0 && len == entries[j].spec_size()
        },
    }
}

/// A unary dispatch is owed success: the input is readable, the branch the
/// operation selects accepts its inputs, and the result fits the output
/// region exactly.
pub open spec fn unary_exec_ok(
    sys: WasmMemorySystem,
    operation: WasmOperation,
    input: WasmTensor,
    output: WasmTensor,
) -> bool {
    let meta = input.spec_meta();
    let dtype = meta.spec_dtype();
    let count = meta.spec_size();
    let in_bytes = spec_tensor_data(sys, input);
    &&& spec_tensor_live(sys, input)
    &&& match operation {
        WasmOperation::Reshape | WasmOperation::View | WasmOperation::Flatten
            | WasmOperation::Squeeze | WasmOperation::Unsqueeze => count
            == output.spec_meta().spec_size() && host_write_ok(sys, output, in_bytes.len() as int),
        WasmOperation::Transpose | WasmOperation::Permute => {
            let shape = meta.spec_shape();
            let strides = meta.spec_strides();
            let elem = spec_byte_size(dtype);
            &&& shape.len() == 2
            &&& strides.len() == 2
            &&& shape[0] >= 1
            &&& shape[1] >= 1
            &&& shape[0] * shape[1] <= usize::MAX
            &&& shape[0] * shape[1] == count
            &&& shape[0] * shape[1] * elem <= usize::MAX
            &&& crate::operations::view::transpose_ok(
                in_bytes.len() as int,
                elem as int,
                shape[0] as int,
                shape[1] as int,
                strides[0] as int,
                strides[1] as int,
            )
            &&& host_write_ok(sys, output, shape[0] * shape[1] * elem)
        },
        WasmOperation::Neg | WasmOperation::Abs | WasmOperation::Square => match dtype {
            WasmDType::Int32 => count * 4 <= usize::MAX && count * 4 <= in_bytes.len()
                && host_write_ok(sys, output, count * 4),
            WasmDType::Int8 => count <= in_bytes.len() && host_write_ok(sys, output, count as int),
            _ => false,
        },
        _ => false,
    }
}

/// A binary dispatch is owed success: the operation is arithmetic, both
/// inputs are readable 32-bit integer tensors of one size, and the result
/// fits the output region exactly.
pub open spec fn binary_exec_ok(
    sys: WasmMemorySystem,
    operation: WasmOperation,
    a: WasmTensor,
    b: WasmTensor,
    output: WasmTensor,
) -> bool {
    let count = a.spec_meta().spec_size();
    &&& (operation == WasmOperation::Add || operation == WasmOperation::Sub || operation
        == WasmOperation::Mul || operation == WasmOperation::Div)
    &&& a.spec_meta().spec_dtype() == WasmDType::Int32
    &&& b.spec_meta().spec_dtype() == WasmDType::Int32
    &&& b.spec_meta().spec_size() == count
    &&& spec_tensor_live(sys, a)
    &&& spec_tensor_live(sys, b)
    &&& count * 4 <= usize::MAX
    &&& count * 4 <= spec_tensor_data(sys, a).len()
    &&& count * 4 <= spec_tensor_data(sys, b).len()
    &&& host_write_ok(sys, output, count * 4)
}

/// A reduction dispatch is owed success. With an empty or absent axis list
/// the whole tensor reduces to one lane: the operation is one the integer
/// path computes, the input is a readable 32-bit integer tensor within the
/// lane cap, and the lane fits the output region. With axes, every group of
/// the partition must be realisable and the per-slot lanes must fit the
/// output region.
pub open spec fn reduction_exec_ok(
    sys: WasmMemorySystem,
    operation: WasmOperation,
    input: WasmTensor,
    output: WasmTensor,
    axes: Option<Vec<usize>>,
) -> bool {
    let count = input.spec_meta().spec_size();
    let shape = input.spec_meta().spec_shape();
    let strides = input.spec_meta().spec_strides();
    &&& input.spec_meta().spec_dtype() == WasmDType::Int32
    &&& spec_tensor_live(sys, input)
    &&& if axes is Some && axes->0@.len() > 0 {
        let v = axes->0@;
        let mask = crate::operations::reduction::spec_axes_mask(v, shape.len() as int);
        let kept = crate::operations::reduction::spec_kept_values(mask, shape);
        let kept_str = crate::operations::reduction::spec_kept_values(mask, strides);
        let red = crate::operations::reduction::spec_reduced_values(mask, shape);
        let red_str = crate::operations::reduction::spec_reduced_values(mask, strides);
        &&& strides.len() == shape.len()
        &&& (forall|a: int| 0 <= a < v.len() ==> #[trigger] v[a] < shape.len())
        &&& crate::operations::reduction::axis_reduce_ok(
            operation,
            spec_tensor_data(sys, input).len() as int,
            kept,
            kept_str,
            red,
            red_str,
        )
        &&& host_write_ok(sys, output, crate::shape::spec_product(kept) * 4)
    } else {
        &&& (operation == WasmOperation::Sum || operation == WasmOperation::Max || operation
            == WasmOperation::Min || operation == WasmOperation::Prod || (operation
            == WasmOperation::Mean && count > 0))
        &&& count <= 0x40000000
        &&& count * 4 <= spec_tensor_data(sys, input).len()
        &&& host_write_ok(sys, output, 4)
    }
}

/// A slice dispatch is owed success: the input is readable, every output
/// position is realisable within it, and the sliced bytes fit the output
/// region exactly.
pub open spec fn slice_exec_ok(
    sys: WasmMemorySystem,
    input: WasmTensor,
    output: WasmTensor,
    row_start: usize,
    col_start: usize,
) -> bool {
    let elem = spec_byte_size(input.spec_meta().spec_dtype());
    let out_shape = output.spec_meta().spec_shape();
    &&& spec_tensor_live(sys, input)
    &&& crate::operations::view::slice_ok(
        spec_tensor_data(sys, input).len() as int,
        elem as int,
        input.spec_meta().spec_strides(),
        out_shape,
        row_start,
        col_start,
    )
    &&& host_write_ok(sys, output, crate::shape::spec_product(out_shape) * elem)
}

pub open spec fn spec_table_find(table: Seq<(usize, CheckpointId)>, id: usize) -> int
    decreases table.len(),
{
    if table.len() == 0 {
        -1
    } else if (table[0]).0 == id {
        0
    } else {
        let r = spec_table_find(table.subrange(1, table.len() as int), id);
        if r == -1 {
            -1
        } else {
            r + 1
        }
    }
}

/// `spec_table_find` is -1 exactly when no entry carries the id; otherwise
/// it is a valid index carrying it, with no earlier match.
pub proof fn lemma_table_find(table: Seq<(usize, CheckpointId)>, id: usize)
    ensures
        spec_table_find(table, id) == -1 || 0 <= spec_table_find(table, id) < table.len(),
        spec_table_find(table, id) == -1 ==> forall|k: int|
            0 <= k < table.len() ==> (#[trigger] table[k]).0 != id,
        spec_table_find(table, id) >= 0 ==> (table[spec_table_find(table, id)]).0 == id
            && forall|k: int| 0 <= k < spec_table_find(table, id) ==> (#[trigger] table[k]).0 != id,
    decreases table.len(),
{
    if table.len() > 0 && (table[0]).0 != id {
        let rest = table.subrange(1, table.len() as int);
        lemma_table_find(rest, id);
        assert forall|k: int| 1 <= k < table.len() implies table[k] == rest[k - 1] by {}
        if spec_table_find(table, id) == -1 {
            assert forall|k: int| 0 <= k < table.len() implies (#[trigger] table[k]).0 != id by {
                if k >= 1 {
                    assert(table[k] == rest[k - 1]);
                    assert((rest[k - 1]).0 != id);
                }
            }
        }
    }
}

/// If no earlier entry carries the id and entry `i` does, then `i` is the
/// first match.
pub proof fn lemma_table_find_at(table: Seq<(usize, CheckpointId)>, id: usize, i: int)
    requires
        0 <= i < table.len(),
        (table[i]).0 == id,
        forall|k: int| 0 <= k < i ==> (#[trigger] table[k]).0 != id,
    ensures
        spec_table_find(table, id) == i,
    decreases i,
{
    if i == 0 {
    } else {
        let rest = table.subrange(1, table.len() as int);
        assert forall|k: int| 0 <= k < i - 1 implies (#[trigger] rest[k]).0 != id by {
            assert(rest[k] == table[k + 1]);
        }
        assert(rest[i - 1] == table[i]);
        lemma_table_find_at(rest, id, i - 1);
        assert((table[0]).0 != id);
    }
}

/// The main tensor operation executor: the memory system, the pattern cache,
/// and the host-visible checkpoint table.
pub struct WasmExecutor {
    memory: WasmMemorySystem,
    pattern_cache: PatternCache,
    enable_pattern_optimization: bool,
    checkpoint_counter: usize,
    active_checkpoints: Vec<(usize, CheckpointId)>,
}

impl WasmExecutor {
    /// The memory system, in specifications.
    pub closed spec fn spec_memory(&self) -> WasmMemorySystem {
        self.memory
    }

    /// The pattern cache, in specifications.
    pub closed spec fn spec_cache(&self) -> PatternCache {
        self.pattern_cache
    }

    /// Whether pattern optimisation is on, in specifications.
    pub closed spec fn spec_optimization(&self) -> bool {
        self.enable_pattern_optimization
    }

    /// The host-visible checkpoint table, in specifications: pairs of host id
    /// and arena checkpoint.
    pub closed spec fn spec_checkpoint_table(&self) -> Seq<(usize, CheckpointId)> {
        self.active_checkpoints@
    }

    /// Executor invariant: both subsystems are well formed and the checkpoint
    /// table is sound against the arena stack and the id counter.
    pub open spec fn wf(&self) -> bool {
        &&& self.spec_memory().wf()
        &&& self.spec_cache().wf()
        &&& checkpoint_table_wf(
            self.spec_checkpoint_table(),
            self.spec_memory().spec_arena().spec_checkpoints().len() as int,
            self.spec_counter() as int,
        )
    }

    /// The next host checkpoint id, in specifications.
    pub closed spec fn spec_counter(&self) -> usize {
        self.checkpoint_counter
    }

    /// A fresh executor with the default pattern cache: one hundred patterns,
    /// fifty mebibytes.
    pub fn new() -> (r: WasmExecutor)
        ensures
            r.wf(),
            r.spec_memory().spec_arena().spec_current() == 0,
            r.spec_memory().spec_arena().spec_limit() == crate::arena::INITIAL_ARENA_SIZE,
            r.spec_memory().spec_storage().spec_entries().len() == 0,
            r.spec_cache().spec_entries().len() == 0,
            r.spec_checkpoint_table().len() == 0,
            r.spec_counter() == 0,
            r.spec_optimization(),
    {
        WasmExecutor {
            memory: WasmMemorySystem::new(),
            pattern_cache: PatternCache::new(100, 50),
            enable_pattern_optimization: true,
            checkpoint_counter: 0,
            active_checkpoints: Vec::new(),
        }
    }

    /// A fresh executor with the given pattern-cache caps.
    pub fn new_with_pattern_cache(max_patterns: usize, max_memory_mb: usize) -> (r: WasmExecutor)
        requires
            max_memory_mb * 1048576 <= usize::MAX,
        ensures
            r.wf(),
            r.spec_memory().spec_arena().spec_current() == 0,
            r.spec_memory().spec_arena().spec_limit() == crate::arena::INITIAL_ARENA_SIZE,
            r.spec_cache().spec_entries().len() == 0,
            r.spec_cache().spec_max_patterns() == max_patterns,
            r.spec_checkpoint_table().len() == 0,
            r.spec_counter() == 0,
            r.spec_optimization(),
    {
        WasmExecutor {
            memory: WasmMemorySystem::new(),
            pattern_cache: PatternCache::new(max_patterns, max_memory_mb),
            enable_pattern_optimization: true,
            checkpoint_counter: 0,
            active_checkpoints: Vec::new(),
        }
    }

    /// Allocates a temporary tensor in the arena.
    pub fn alloc_temp_tensor(&mut self, dtype: WasmDType, shape: Vec<usize>) -> (r: Result<
        WasmTensor,
        WasmError,
    >)
        requires
            old(self).wf(),
        ensures
            final(self).wf(),
            final(self).spec_cache() == old(self).spec_cache(),
            final(self).spec_optimization() == old(self).spec_optimization(),
            final(self).spec_checkpoint_table() == old(self).spec_checkpoint_table(),
            final(self).spec_memory().spec_storage() == old(self).spec_memory().spec_storage(),
            (r is Ok <==> crate::memory::shape_allocatable(shape@, dtype)
                && crate::arena::alloc_would_succeed(
                old(self).spec_memory().spec_arena(),
                (crate::shape::spec_product(shape@) * spec_byte_size(dtype)) as usize,
                16,
            )),
            r is Err ==> *final(self) == *old(self),
            r is Ok ==> crate::memory::canonical_meta(r->Ok_0.spec_meta(), dtype, shape@)
                && r->Ok_0.spec_owner() is Temporary && spec_tensor_live(
                final(self).spec_memory(),
                r->Ok_0,
            ),
    {
        let r = self.memory.alloc_temp_tensor(dtype, shape);
        proof {
            if r is Ok {
                let t = r->Ok_0;
                match t.spec_owner() {
                    TensorOwner::Temporary(off) => {},
                    TensorOwner::Persistent(_) => {},
                }
            }
        }
        r
    }

    /// Allocates a zero-initialised persistent tensor.
    pub fn alloc_persistent_tensor(&mut self, dtype: WasmDType, shape: Vec<usize>) -> (r: Result<
        WasmTensor,
        WasmError,
    >)
        requires
            old(self).wf(),
            old(self).spec_memory().spec_storage().spec_next_id() < u64::MAX,
        ensures
            final(self).wf(),
            final(self).spec_cache() == old(self).spec_cache(),
            final(self).spec_memory().spec_arena() == old(self).spec_memory().spec_arena(),
            final(self).spec_checkpoint_table() == old(self).spec_checkpoint_table(),
            (r is Ok <==> crate::memory::shape_allocatable(shape@, dtype)
                && crate::shape::spec_product(shape@) * spec_byte_size(dtype) + 15 <= usize::MAX),
            r is Err ==> *final(self) == *old(self),
            r is Ok ==> {
                let bytes = crate::shape::spec_product(shape@) * spec_byte_size(dtype);
                let entries = final(self).spec_memory().spec_storage().spec_entries();
                &&& crate::memory::canonical_meta(r->Ok_0.spec_meta(), dtype, shape@)
                &&& !(r->Ok_0.spec_owner() is Temporary)
                &&& spec_tensor_live(final(self).spec_memory(), r->Ok_0)
                &&& spec_tensor_data(final(self).spec_memory(), r->Ok_0) == Seq::new(
                    bytes as nat,
                    |i: int| 0u8,
                )
                &&& entries.len() == old(self).spec_memory().spec_storage().spec_entries().len()
                    + 1
                &&& entries.drop_last() == old(self).spec_memory().spec_storage().spec_entries()
                &&& entries.last().spec_refs() == 2
                &&& entries.last().spec_size() == bytes
                &&& final(self).spec_memory().spec_storage().spec_next_id() == old(self).spec_memory().spec_storage().spec_next_id() + 1
            },
    {
        let ghost d = dtype;
        let r = self.memory.alloc_persistent_tensor(dtype, shape);
        proof {
            if r is Ok {
                let t = r->Ok_0;
                let entries = self.spec_memory().spec_storage().spec_entries();
                match t.spec_owner() {
                    TensorOwner::Persistent(id) => {
                        assert(crate::storage::spec_index_of(entries, id.spec_id())
                            == entries.len() - 1) by {
                            assert(entries.last().spec_id() == id.spec_id());
                        }
                        let bytes = crate::shape::spec_product(shape@) * spec_byte_size(dtype);
                        assert(spec_tensor_data(self.spec_memory(), t) =~= Seq::new(
                            bytes as nat,
                            |i: int| 0u8,
                        ));
                    },
                    TensorOwner::Temporary(_) => {},
                }
            }
        }
        r
    }

    /// Creates a persistent tensor holding the supplied bytes; reading it
    /// back returns exactly those bytes.
    pub fn tensor_from_data(&mut self, data: Vec<u8>, dtype: WasmDType, shape: Vec<usize>) -> (r:
        Result<WasmTensor, WasmError>)
        requires
            old(self).wf(),
            old(self).spec_memory().spec_storage().spec_next_id() < u64::MAX,
        ensures
            final(self).wf(),
            final(self).spec_cache() == old(self).spec_cache(),
            final(self).spec_memory().spec_arena() == old(self).spec_memory().spec_arena(),
            final(self).spec_checkpoint_table() == old(self).spec_checkpoint_table(),
            (r is Ok <==> crate::memory::shape_allocatable(shape@, dtype) && data@.len()
                == crate::shape::spec_product(shape@) * spec_byte_size(dtype) && data@.len() + 15
                <= usize::MAX),
            r is Err ==> *final(self) == *old(self),
            r is Ok ==> {
                &&& crate::memory::canonical_meta(r->Ok_0.spec_meta(), dtype, shape@)
                &&& spec_tensor_live(final(self).spec_memory(), r->Ok_0)
                &&& spec_tensor_data(final(self).spec_memory(), r->Ok_0) == data@
            },
    {
        let ghost d = data@;
        let r = self.memory.tensor_from_data(data, dtype, shape);
        proof {
            if r is Ok {
                let t = r->Ok_0;
                let entries = self.spec_memory().spec_storage().spec_entries();
                match t.spec_owner() {
                    TensorOwner::Persistent(id) => {
                        assert(crate::storage::spec_index_of(entries, id.spec_id())
                            == entries.len() - 1) by {
                            assert(entries.last().spec_id() == id.spec_id());
                        }
                    },
                    TensorOwner::Temporary(_) => {},
                }
            }
        }
        r
    }

    /// Copies a tensor's bytes out to the host.
    pub fn copy_tensor_data_to_host(&self, tensor: &WasmTensor) -> (r: Result<Vec<u8>, WasmError>)
        requires
            self.wf(),
        ensures
            (r is Ok <==> spec_tensor_live(self.spec_memory(), *tensor)),
            r is Ok ==> r->Ok_0@ == spec_tensor_data(self.spec_memory(), *tensor),
    {
        let r = self.memory.copy_tensor_data_to_host(tensor);
        proof {
            match tensor.spec_owner() {
                TensorOwner::Temporary(off) => {},
                TensorOwner::Persistent(id) => {
                    crate::storage::lemma_index_of(
                        self.spec_memory().spec_storage().spec_entries(),
                        id.spec_id(),
                    );
                },
            }
        }
        r
    }

    /// Copies host bytes into a tensor's region; the byte count must match
    /// the region.
    pub fn copy_host_data_to_tensor(&mut self, tensor: &WasmTensor, data: &Vec<u8>) -> (r: Result<
        (),
        WasmError,
    >)
        requires
            old(self).wf(),
        ensures
            final(self).wf(),
            final(self).spec_cache() == old(self).spec_cache(),
            final(self).spec_optimization() == old(self).spec_optimization(),
            final(self).spec_checkpoint_table() == old(self).spec_checkpoint_table(),
            r is Ok ==> spec_tensor_data(final(self).spec_memory(), *tensor) == data@,
            r is Err ==> *final(self) == *old(self),
            tensor.spec_owner() matches TensorOwner::Temporary(off) ==> {
                &&& (r is Ok <==> data@.len() == off.spec_size() && off.spec_offset()
                    + off.spec_size() <= old(self).spec_memory().spec_arena().spec_limit())
                &&& (r is Ok ==> {
                    &&& final(self).spec_memory().spec_storage() == old(self).spec_memory().spec_storage()
                    &&& forall|i: int|
                        0 <= i < final(self).spec_memory().spec_arena().spec_bytes().len() && !(
                        off.spec_offset() <= i < off.spec_offset() + data@.len())
                            ==> final(self).spec_memory().spec_arena().spec_bytes()[i] == old(
                            self,
                        ).spec_memory().spec_arena().spec_bytes()[i]
                })
            },
            tensor.spec_owner() matches TensorOwner::Persistent(id) ==> {
                let entries = old(self).spec_memory().spec_storage().spec_entries();
                let j = crate::storage::spec_index_of(entries, id.spec_id());
                let post = final(self).spec_memory().spec_storage().spec_entries();
                &&& (r is Ok <==> j >= 0 && data@.len() == entries[j].spec_size())
                &&& (r is Ok ==> {
                    &&& final(self).spec_memory().spec_arena() == old(self).spec_memory().spec_arena()
                    &&& crate::storage::spec_index_of(post, id.spec_id()) == j
                    &&& post.len() == entries.len()
                    &&& forall|i: int|
                        0 <= i < entries.len() && i != j ==> #[trigger] post[i] == entries[i]
                })
            },
    {
        let r = self.memory.copy_host_data_to_tensor(tensor, data);
        proof {
            if r is Ok {
                match tensor.spec_owner() {
                    TensorOwner::Temporary(off) => {
                        assert(spec_tensor_data(self.spec_memory(), *tensor) =~= data@);
                    },
                    TensorOwner::Persistent(id) => {
                        crate::storage::lemma_index_of(
                            old(self).spec_memory().spec_storage().spec_entries(),
                            id.spec_id(),
                        );
                        assert(spec_tensor_data(self.spec_memory(), *tensor) =~= data@);
                    },
                }
            }
        }
        r
    }

    /// Pushes an arena checkpoint and returns a host-visible id for it; the
    /// id is recorded in the checkpoint table against the new stack entry.
    pub fn checkpoint(&mut self) -> (r: usize)
        requires
            old(self).wf(),
            old(self).spec_counter() < usize::MAX,
        ensures
            final(self).wf(),
            final(self).spec_memory().spec_arena().spec_checkpoints() == old(self).spec_memory().spec_arena().spec_checkpoints().push(
                old(self).spec_memory().spec_arena().spec_current(),
            ),
            final(self).spec_memory().spec_arena().spec_current() == old(self).spec_memory().spec_arena().spec_current(),
            final(self).spec_memory().spec_arena().spec_limit() == old(self).spec_memory().spec_arena().spec_limit(),
            final(self).spec_memory().spec_arena().spec_bytes() == old(self).spec_memory().spec_arena().spec_bytes(),
            final(self).spec_memory().spec_storage() == old(self).spec_memory().spec_storage(),
            final(self).spec_cache() == old(self).spec_cache(),
            r == old(self).spec_counter(),
            final(self).spec_checkpoint_table().len() == old(self).spec_checkpoint_table().len()
                + 1,
            final(self).spec_checkpoint_table().drop_last() == old(self).spec_checkpoint_table(),
            (final(self).spec_checkpoint_table().last()).0 == r,
            (final(self).spec_checkpoint_table().last()).1.spec_index() == old(self).spec_memory().spec_arena().spec_checkpoints().len(),
    {
        let cp = self.memory.checkpoint();
        let id = self.checkpoint_counter;
        self.active_checkpoints.push((id, cp));
        self.checkpoint_counter = self.checkpoint_counter + 1;
        proof {
            let t = self.spec_checkpoint_table();
            let pre_t = old(self).spec_checkpoint_table();
            assert(t.drop_last() =~= pre_t);
            let stack_len = self.spec_memory().spec_arena().spec_checkpoints().len() as int;
            assert forall|k: int| 0 <= k < t.len() implies (#[trigger] t[k]).1.spec_index()
                < stack_len by {
                if k < t.len() - 1 {
                    assert(t[k] == pre_t[k]);
                }
            }
            assert forall|a: int, b: int| 0 <= a < b < t.len() implies (#[trigger] t[a]).0 < (
            #[trigger] t[b]).0 by {
                assert(t[a] == pre_t[a]);
                if b < t.len() - 1 {
                    assert(t[b] == pre_t[b]);
                }
            }
            assert forall|k: int| 0 <= k < t.len() implies (#[trigger] t[k]).0
                < self.spec_counter() by {
                if k < t.len() - 1 {
                    assert(t[k] == pre_t[k]);
                }
            }
        }
        id
    }

    /// Rewinds the arena to the checkpoint recorded under a host id;
    /// checkpoints taken later are forgotten. Succeeds exactly when the id is
    /// in the checkpoint table; an unknown id changes nothing.
    pub fn restore(&mut self, checkpoint_id: usize) -> (r: Result<(), WasmError>)
        requires
            old(self).wf(),
        ensures
            final(self).wf(),
            final(self).spec_memory().spec_storage() == old(self).spec_memory().spec_storage(),
            final(self).spec_cache() == old(self).spec_cache(),
            final(self).spec_optimization() == old(self).spec_optimization(),
            final(self).spec_memory().spec_arena().spec_limit() == old(self).spec_memory().spec_arena().spec_limit(),
            final(self).spec_memory().spec_arena().spec_bytes() == old(self).spec_memory().spec_arena().spec_bytes(),
            (r is Ok <==> spec_table_find(old(self).spec_checkpoint_table(), checkpoint_id) >= 0),
            r is Err ==> *final(self) == *old(self) && r->Err_0 == WasmError::InvalidInput,
            r is Ok ==> {
                let j = spec_table_find(old(self).spec_checkpoint_table(), checkpoint_id);
                let idx = (old(self).spec_checkpoint_table()[j]).1.spec_index();
                &&& final(self).spec_memory().spec_arena().spec_current() == old(self).spec_memory().spec_arena().spec_checkpoints()[idx as int]
                &&& final(self).spec_memory().spec_arena().spec_checkpoints() == old(self).spec_memory().spec_arena().spec_checkpoints().subrange(
                    0,
                    idx + 1,
                )
                &&& forall|k: int|
                    0 <= k < final(self).spec_checkpoint_table().len() ==> (
                #[trigger] final(self).spec_checkpoint_table()[k]).0 <= checkpoint_id
            },
    {
        proof {
            lemma_table_find(old(self).spec_checkpoint_table(), checkpoint_id);
        }
        let n = self.active_checkpoints.len();
        let mut i: usize = 0;
        let mut found: Option<CheckpointId> = None;
        while i < n
            invariant
                i <= n,
                n == self.active_checkpoints@.len(),
                *self == *old(self),
                self.wf(),
                found is None,
                forall|k: int|
                    0 <= k < i ==> (#[trigger] self.active_checkpoints@[k]).0 != checkpoint_id,
            decreases n - i,
        {
            if self.active_checkpoints[i].0 == checkpoint_id {
                proof {
                    lemma_table_find_at(self.spec_checkpoint_table(), checkpoint_id, i as int);
                }
                let cp = self.active_checkpoints[i].1;
                let restored = self.memory.restore(cp);
                match restored {
                    Ok(_) => {
                        let ghost pre_table = old(self).spec_checkpoint_table();
                        proof {
                            assert(checkpoint_table_wf(
                                pre_table,
                                old(self).spec_memory().spec_arena().spec_checkpoints().len() as int,
                                old(self).spec_counter() as int,
                            ));
                        }
                        let stack_len = self.memory.arena_checkpoint_len();
                        let mut kept: Vec<(usize, CheckpointId)> = Vec::new();
                        let mut k: usize = 0;
                        while k < self.active_checkpoints.len()
                            invariant
                                k <= self.active_checkpoints@.len(),
                                self.spec_checkpoint_table() == pre_table,
                                stack_len == self.spec_memory().spec_arena().spec_checkpoints().len(),
                                forall|a: int, b: int|
                                    0 <= a < b < pre_table.len() ==> (#[trigger] pre_table[a]).0
                                        < (#[trigger] pre_table[b]).0,
                                forall|a: int|
                                    0 <= a < pre_table.len() ==> (#[trigger] pre_table[a]).0
                                        < old(self).spec_counter(),
                                forall|m: int|
                                    0 <= m < kept@.len() ==> exists|j: int|
                                        0 <= j < k && #[trigger] kept@[m] == pre_table[j],
                                forall|m: int|
                                    0 <= m < kept@.len() ==> (#[trigger] kept@[m]).0
                                        <= checkpoint_id,
                                forall|m: int|
                                    0 <= m < kept@.len() ==> (#[trigger] kept@[m]).1.spec_index()
                                        < stack_len,
                                forall|a: int, b: int|
                                    0 <= a < b < kept@.len() ==> (#[trigger] kept@[a]).0 < (
                                    #[trigger] kept@[b]).0,
                            decreases self.active_checkpoints@.len() - k,
                        {
                            let (id, c) = self.active_checkpoints[k];
                            if id <= checkpoint_id && c.index() < stack_len {
                                let ghost pre_kept = kept@;
                                kept.push((id, c));
                                proof {
                                    assert forall|m: int|
                                        0 <= m < kept@.len() implies exists|j: int|
                                        0 <= j < k + 1 && #[trigger] kept@[m] == pre_table[j] by {
                                        if m < kept@.len() - 1 {
                                            assert(kept@[m] == pre_kept[m]);
                                            let j = choose|j: int|
                                                0 <= j < k && pre_kept[m] == pre_table[j];
                                            assert(0 <= j < k + 1 && kept@[m] == pre_table[j]);
                                        } else {
                                            assert(kept@[m] == pre_table[k as int]);
                                        }
                                    }
                                    assert forall|a: int, b: int|
                                        0 <= a < b < kept@.len() implies (#[trigger] kept@[a]).0
                                        < (#[trigger] kept@[b]).0 by {
                                        if b < kept@.len() - 1 {
                                            assert(kept@[a] == pre_kept[a]);
                                            assert(kept@[b] == pre_kept[b]);
                                        } else {
                                            assert(kept@[a] == pre_kept[a]);
                                            let j = choose|j: int|
                                                0 <= j < k && pre_kept[a] == pre_table[j];
                                            assert((pre_table[j]).0 < (pre_table[k as int]).0);
                                        }
                                    }
                                }
                            }
                            k += 1;
                        }
                        self.active_checkpoints = kept;
                        proof {
                            assert forall|m: int|
                                0 <= m < self.spec_checkpoint_table().len() implies (
                            #[trigger] self.spec_checkpoint_table()[m]).0
                                < self.spec_counter() by {
                                let j = choose|j: int|
                                    0 <= j < pre_table.len() && kept@[m] == pre_table[j];
                                assert((pre_table[j]).0 < old(self).spec_counter());
                            }
                        }
                        return Ok(());
                    },
                    Err(_) => {
                        proof {
                            assert(false);
                        }
                        return Err(WasmError::InvalidInput);
                    },
                }
            } else {
                i += 1;
            }
        }
        Err(WasmError::InvalidInput)
    }

    /// Current memory statistics.
    pub fn memory_stats(&self) -> (r: WasmMemoryStats)
        requires
            self.wf(),
        ensures
            r.spec_arena_used() == self.spec_memory().spec_arena().spec_current(),
            r.spec_arena_capacity() == self.spec_memory().spec_arena().spec_limit(),
            r.spec_persistent_count() == self.spec_memory().spec_storage().spec_entries().len(),
            r.spec_persistent_bytes() == if crate::storage::spec_sum_sizes(
                self.spec_memory().spec_storage().spec_entries(),
            ) <= usize::MAX {
                crate::storage::spec_sum_sizes(self.spec_memory().spec_storage().spec_entries())
            } else {
                usize::MAX as int
            },
            r.spec_total_bytes() == if self.spec_memory().spec_arena().spec_current()
                + r.spec_persistent_bytes() <= usize::MAX {
                self.spec_memory().spec_arena().spec_current() + r.spec_persistent_bytes()
            } else {
                usize::MAX as int
            },
    {
        self.memory.memory_stats()
    }

    /// Sweeps unreferenced persistent tensors; returns how many were removed.
    pub fn gc(&mut self) -> (r: usize)
        requires
            old(self).wf(),
        ensures
            final(self).wf(),
            final(self).spec_memory().spec_arena() == old(self).spec_memory().spec_arena(),
            final(self).spec_memory().spec_storage().spec_entries() == old(self).spec_memory().spec_storage().spec_entries().filter(
                |e: crate::storage::PersistentEntry| e.spec_refs() >= 2,
            ),
            r == old(self).spec_memory().spec_storage().spec_entries().len() - final(self).spec_memory().spec_storage().spec_entries().len(),
    {
        self.memory.gc_persistent()
    }

    /// Drops the handle's hold on a persistent tensor so a sweep can collect
    /// it.
    pub fn release_tensor(&mut self, tensor: &WasmTensor) -> (r: bool)
        requires
            old(self).wf(),
        ensures
            final(self).wf(),
            final(self).spec_cache() == old(self).spec_cache(),
            final(self).spec_checkpoint_table() == old(self).spec_checkpoint_table(),
            final(self).spec_memory().spec_arena() == old(self).spec_memory().spec_arena(),
            tensor.spec_owner() is Temporary ==> *final(self) == *old(self) && !r,
            tensor.spec_owner() matches TensorOwner::Persistent(id) ==> {
                let entries = old(self).spec_memory().spec_storage().spec_entries();
                let j = crate::storage::spec_index_of(entries, id.spec_id());
                let post = final(self).spec_memory().spec_storage().spec_entries();
                &&& (r <==> j >= 0)
                &&& (!r ==> *final(self) == *old(self))
                &&& (r ==> post.len() == entries.len() && post[j].spec_refs() == if entries[j].spec_refs() > 1 {
                    entries[j].spec_refs() - 1
                } else {
                    1int
                } && post[j].spec_data() == entries[j].spec_data() && forall|i: int|
                    0 <= i < entries.len() && i != j ==> #[trigger] post[i] == entries[i])
            },
    {
        self.memory.release_tensor(tensor)
    }

    /// Pattern-cache statistics.
    pub fn pattern_cache_stats(&self) -> (r: PatternCacheStats)
        requires
            self.wf(),
        ensures
            r.spec_pattern_count() == self.spec_cache().spec_entries().len(),
            r.spec_memory_usage_bytes() == self.spec_cache().spec_memory_usage(),
    {
        self.pattern_cache.cache_stats()
    }

    /// Turns pattern optimisation on or off.
    pub fn set_pattern_optimization(&mut self, enabled: bool)
        requires
            old(self).wf(),
        ensures
            final(self).wf(),
            final(self).spec_optimization() == enabled,
            final(self).spec_memory() == old(self).spec_memory(),
            final(self).spec_cache() == old(self).spec_cache(),
    {
        self.enable_pattern_optimization = enabled;
    }

    /// Clears the pattern cache.
    pub fn clear_pattern_cache(&mut self)
        requires
            old(self).wf(),
        ensures
            final(self).wf(),
            final(self).spec_cache().spec_entries().len() == 0,
            final(self).spec_memory() == old(self).spec_memory(),
    {
        self.pattern_cache.clear();
    }

    /// Bulk-allocates the buffers a pattern needs; see the memory system for
    /// the full contract.
    pub fn bulk_allocate_for_pattern(&mut self, pattern: &OperationPattern) -> (r: Result<
        Vec<WasmTensor>,
        WasmError,
    >)
        requires
            old(self).wf(),
        ensures
            final(self).wf(),
            final(self).spec_cache() == old(self).spec_cache(),
            final(self).spec_checkpoint_table() == old(self).spec_checkpoint_table(),
            final(self).spec_memory().spec_storage() == old(self).spec_memory().spec_storage(),
            r is Err ==> r->Err_0 == WasmError::OutOfMemory,
            pattern.total_memory_needed > old(self).spec_memory().spec_arena().spec_limit() - old(self).spec_memory().spec_arena().spec_current() ==> r is Err && *final(self) == *old(self),
            r is Err ==> final(self).spec_memory().spec_arena().spec_current() == old(self).spec_memory().spec_arena().spec_current(),
            r is Ok ==> {
                let tensors = r->Ok_0;
                let reqs = pattern.allocations@;
                &&& tensors@.len() == reqs.len()
                &&& final(self).spec_memory().spec_arena().spec_checkpoints() == old(self).spec_memory().spec_arena().spec_checkpoints().push(old(self).spec_memory().spec_arena().spec_current())
                &&& forall|k: int|
                    0 <= k < reqs.len() ==> (#[trigger] tensors@[k].spec_owner() matches
                    TensorOwner::Temporary(off) && {
                        &&& crate::memory::byte_tensor_meta_ok(
                            tensors@[k].spec_meta(),
                            reqs[k].size_bytes,
                        )
                        &&& off.spec_size() == reqs[k].size_bytes
                        &&& (reqs[k].size_bytes > 0 ==> off.spec_offset() % 16 == 0
                            && off.spec_offset() as int % (if reqs[k].alignment <= 16 {
                            16int
                        } else {
                            reqs[k].alignment as int
                        }) == 0 && old(self).spec_memory().spec_arena().spec_current()
                            <= off.spec_offset() && off.spec_offset() + off.spec_size()
                            <= final(self).spec_memory().spec_arena().spec_current())
                    })
                &&& forall|k1: int, k2: int|
                    0 <= k1 < k2 < reqs.len() && reqs[k1].size_bytes > 0 && reqs[k2].size_bytes
                        > 0 ==> crate::memory::tensor_end(#[trigger] tensors@[k1])
                        <= crate::memory::tensor_start(#[trigger] tensors@[k2])
            },
            pattern.total_memory_needed <= old(self).spec_memory().spec_arena().spec_limit() - old(self).spec_memory().spec_arena().spec_current() && (forall|k: int|
                0 <= k < pattern.allocations@.len()
                    ==> 0 < (#[trigger] pattern.allocations@[k]).size_bytes
                    <= crate::arena::MAX_ALLOCATION_SIZE && pattern.allocations@[k].alignment
                    <= 16) && old(self).spec_memory().spec_arena().spec_current()
                + crate::memory::spec_sum_aligned16(pattern.allocations@) <= old(self).spec_memory().spec_arena().spec_limit() ==> r is Ok,
    {
        self.memory.bulk_allocate_for_pattern(pattern)
    }

    /// Builds the signature of an operation over its input metadata.
    fn build_signature(operation: WasmOperation, inputs: &Vec<&WasmTensor>) -> (r: PatternSignature)
        ensures
            r.operation == operation,
            r.input_shapes.deep_view() == inputs@.map_values(
                |t: &WasmTensor| t.spec_meta().spec_shape(),
            ),
            r.input_dtypes@ == inputs@.map_values(|t: &WasmTensor| t.spec_meta().spec_dtype()),
    {
        let mut shapes: Vec<Vec<usize>> = Vec::new();
        let mut dtypes: Vec<WasmDType> = Vec::new();
        let mut i: usize = 0;
        while i < inputs.len()
            invariant
                i <= inputs@.len(),
                shapes@.len() == i,
                dtypes@.len() == i,
                forall|k: int|
                    0 <= k < i ==> shapes.deep_view()[k] == (
                    #[trigger] inputs@[k]).spec_meta().spec_shape(),
                forall|k: int|
                    0 <= k < i ==> dtypes@[k] == (#[trigger] inputs@[k]).spec_meta().spec_dtype(),
            decreases inputs@.len() - i,
        {
            shapes.push(inputs[i].metadata().shape());
            dtypes.push(inputs[i].metadata().dtype());
            i += 1;
        }
        proof {
            assert(shapes.deep_view() =~= inputs@.map_values(
                |t: &WasmTensor| t.spec_meta().spec_shape(),
            ));
            assert(dtypes@ =~= inputs@.map_values(|t: &WasmTensor| t.spec_meta().spec_dtype()));
        }
        PatternSignature::new(operation, shapes, dtypes)
    }

    /// Records one executed operation as a single-operation pattern with its
    /// output's allocation requirement, so the cache accumulates evidence;
    /// does nothing when optimisation is off, and ignores a full cache.
    fn record_operation_pattern(
        &mut self,
        operation: WasmOperation,
        inputs: &Vec<&WasmTensor>,
        output: &WasmTensor,
    )
        requires
            old(self).wf(),
        ensures
            final(self).wf(),
            final(self).spec_memory() == old(self).spec_memory(),
            final(self).spec_optimization() == old(self).spec_optimization(),
    {
        if !self.enable_pattern_optimization {
            return ;
        }
        let mut shapes: Vec<Vec<usize>> = Vec::new();
        let mut dtypes: Vec<WasmDType> = Vec::new();
        let mut i: usize = 0;
        while i < inputs.len()
            invariant
                i <= inputs@.len(),
            decreases inputs@.len() - i,
        {
            shapes.push(inputs[i].metadata().shape());
            dtypes.push(inputs[i].metadata().dtype());
            i += 1;
        }
        let out_meta = output.metadata();
        let desc = OperationDesc {
            operation,
            input_shapes: shapes,
            input_dtypes: dtypes,
            output_shape: out_meta.shape(),
            output_dtype: out_meta.dtype(),
        };
        let out_size = out_meta.size();
        let elem = out_meta.dtype().byte_size();
        let bytes: usize = if out_size <= usize::MAX / elem {
            proof {
                crate::operations::view::lemma_mul_div_bound(out_size as int, elem as int);
            }
            out_size * elem
        } else {
            usize::MAX
        };
        let mut builder = PatternBuilder::new();
        builder.add_operation(desc);
        builder.add_allocation(
            AllocationRequirement { size_bytes: bytes, alignment: 16, is_output: true },
        );
        let pattern = builder.build(&self.pattern_cache);
        let stored = self.pattern_cache.store_pattern(pattern);
    }

    /// Executes a unary or view operation: reshape-family operations copy
    /// bytes for any dtype, the two-dimensional transpose reorders elements
    /// for any dtype, and negate, absolute value and square are computed for
    /// the 32-bit and 8-bit integer dtypes. Transcendentals on integer
    /// dtypes are invalid; floating-point element arithmetic is not computed
    /// here. The operation is recorded in the pattern cache first; on an
    /// error the memory is untouched.
    pub fn execute_unary(
        &mut self,
        operation: WasmOperation,
        input: &WasmTensor,
        output: &WasmTensor,
    ) -> (r: Result<(), WasmError>)
        requires
            old(self).wf(),
        ensures
            final(self).wf(),
            final(self).spec_optimization() == old(self).spec_optimization(),
            r is Err ==> final(self).spec_memory() == old(self).spec_memory(),
            r is Ok ==> unary_out_spec(
                operation,
                input.spec_meta().spec_dtype(),
                spec_tensor_data(old(self).spec_memory(), *input),
                input.spec_meta().spec_shape()[0] as int,
                input.spec_meta().spec_strides()[0] as int,
                input.spec_meta().spec_strides()[1] as int,
                input.spec_meta().spec_size() as int,
                spec_tensor_data(final(self).spec_memory(), *output),
            ),
            unary_exec_ok(old(self).spec_memory(), operation, *input, *output) ==> r is Ok,
    {
        let inputs = vec![input];
        self.record_operation_pattern(operation, &inputs, output);
        let in_bytes = match self.memory.copy_tensor_data_to_host(input) {
            Ok(b) => b,
            Err(e) => {
                return Err(e);
            },
        };
        let in_meta = input.metadata();
        let out_meta = output.metadata();
        let dtype = in_meta.dtype();
        let elem = dtype.byte_size();
        let count = in_meta.size();
        let result: Vec<u8> = match operation {
            WasmOperation::Reshape | WasmOperation::View | WasmOperation::Flatten
            | WasmOperation::Squeeze | WasmOperation::Unsqueeze => {
                match execute_copy_reshape(&in_bytes, in_meta.size(), out_meta.size()) {
                    Ok(b) => b,
                    Err(e) => {
                        return Err(e);
                    },
                }
            },
            WasmOperation::Transpose | WasmOperation::Permute => {
                let shape = in_meta.shape();
                let strides = in_meta.strides();
                if shape.len() != 2 || strides.len() != 2 {
                    return Err(WasmError::NotImplemented);
                }
                let rows = shape[0];
                let cols = shape[1];
                if rows < 1 || cols < 1 {
                    return Err(WasmError::InvalidShape);
                }
                if cols != 0 && rows > usize::MAX / cols {
                    proof {
                        crate::operations::view::lemma_gt_div_mul(rows as int, cols as int);
                    }
                    return Err(WasmError::InvalidShape);
                }
                proof {
                    crate::operations::view::lemma_mul_div_bound(rows as int, cols as int);
                }
                let rc = rows * cols;
                if rc != count {
                    return Err(WasmError::InvalidShape);
                }
                if rc > usize::MAX / elem {
                    proof {
                        crate::operations::view::lemma_gt_div_mul(rc as int, elem as int);
                    }
                    return Err(WasmError::InvalidShape);
                }
                proof {
                    crate::operations::view::lemma_mul_div_bound(rc as int, elem as int);
                    assert(rows * cols * elem == rc * elem) by (nonlinear_arith)
                        requires
                            rc == rows * cols,
                    ;
                }
                match execute_transpose_2d(&in_bytes, elem, rows, cols, strides[0], strides[1]) {
                    Ok(b) => b,
                    Err(e) => {
                        return Err(e);
                    },
                }
            },
            WasmOperation::Neg | WasmOperation::Abs | WasmOperation::Square => {
                match dtype {
                    WasmDType::Int32 => {
                        if count > usize::MAX / 4 {
                            proof {
                                crate::operations::view::lemma_gt_div_mul(count as int, 4);
                            }
                            return Err(WasmError::InvalidShape);
                        }
                        proof {
                            crate::operations::view::lemma_mul_div_bound(count as int, 4);
                        }
                        if count * 4 > in_bytes.len() {
                            return Err(WasmError::InvalidInput);
                        }
                        match execute_unary_i32(operation, &in_bytes, count) {
                            Ok(b) => b,
                            Err(e) => {
                                return Err(e);
                            },
                        }
                    },
                    WasmDType::Int8 => {
                        if count > in_bytes.len() {
                            return Err(WasmError::InvalidInput);
                        }
                        match execute_unary_i8(operation, &in_bytes, count) {
                            Ok(b) => b,
                            Err(e) => {
                                return Err(e);
                            },
                        }
                    },
                    _ => {
                        return Err(WasmError::NotImplemented);
                    },
                }
            },
            WasmOperation::Sin | WasmOperation::Cos | WasmOperation::Exp | WasmOperation::Log
            | WasmOperation::Sqrt => {
                if dtype.is_integer() {
                    return Err(WasmError::InvalidOperation);
                }
                return Err(WasmError::NotImplemented);
            },
            _ => {
                return Err(WasmError::NotImplemented);
            },
        };
        self.copy_host_data_to_tensor(output, &result)
    }

    /// Executes a same-size binary operation on 32-bit integer tensors: add,
    /// subtract and multiply wrap, divide truncates and clamps on a zero
    /// divisor. Broadcasting and float dtypes are not computed here. The
    /// operation is recorded in the pattern cache first; on an error the
    /// memory is untouched.
    pub fn execute_binary(
        &mut self,
        operation: WasmOperation,
        input_a: &WasmTensor,
        input_b: &WasmTensor,
        output: &WasmTensor,
    ) -> (r: Result<(), WasmError>)
        requires
            old(self).wf(),
        ensures
            final(self).wf(),
            final(self).spec_optimization() == old(self).spec_optimization(),
            r is Err ==> final(self).spec_memory() == old(self).spec_memory(),
            r is Ok ==> binary_out_spec(
                operation,
                spec_tensor_data(old(self).spec_memory(), *input_a),
                spec_tensor_data(old(self).spec_memory(), *input_b),
                input_a.spec_meta().spec_size() as int,
                spec_tensor_data(final(self).spec_memory(), *output),
            ),
            binary_exec_ok(old(self).spec_memory(), operation, *input_a, *input_b, *output)
                ==> r is Ok,
    {
        let inputs = vec![input_a, input_b];
        self.record_operation_pattern(operation, &inputs, output);
        match operation {
            WasmOperation::Add | WasmOperation::Sub | WasmOperation::Mul | WasmOperation::Div => {
            },
            _ => {
                return Err(WasmError::InvalidOperation);
            },
        }
        let meta_a = input_a.metadata();
        let meta_b = input_b.metadata();
        if !(meta_a.dtype() == WasmDType::Int32) || !(meta_b.dtype() == WasmDType::Int32) {
            return Err(WasmError::NotImplemented);
        }
        let count = meta_a.size();
        if meta_b.size() != count {
            return Err(WasmError::NotImplemented);
        }
        let a_bytes = match self.memory.copy_tensor_data_to_host(input_a) {
            Ok(b) => b,
            Err(e) => {
                return Err(e);
            },
        };
        let b_bytes = match self.memory.copy_tensor_data_to_host(input_b) {
            Ok(b) => b,
            Err(e) => {
                return Err(e);
            },
        };
        if count > usize::MAX / 4 {
            proof {
                crate::operations::view::lemma_gt_div_mul(count as int, 4);
            }
            return Err(WasmError::InvalidShape);
        }
        proof {
            crate::operations::view::lemma_mul_div_bound(count as int, 4);
        }
        if count * 4 > a_bytes.len() || count * 4 > b_bytes.len() {
            return Err(WasmError::InvalidInput);
        }
        let result = match execute_binary_i32(operation, &a_bytes, &b_bytes, count) {
            Ok(b) => b,
            Err(e) => {
                return Err(e);
            },
        };
        self.copy_host_data_to_tensor(output, &result)
    }

    /// Validates a matrix multiplication's shapes and records the operation;
    /// the floating-point contraction itself is not computed here, so a
    /// well-shaped request reports not-implemented, an unsupported rank pair
    /// reports not-implemented, and a mismatched contraction width an invalid
    /// shape.
    pub fn execute_matmul(
        &mut self,
        input_a: &WasmTensor,
        input_b: &WasmTensor,
        output: &WasmTensor,
    ) -> (r: Result<(), WasmError>)
        requires
            old(self).wf(),
        ensures
            final(self).wf(),
            r is Err,
            final(self).spec_memory() == old(self).spec_memory(),
            final(self).spec_optimization() == old(self).spec_optimization(),
            r->Err_0 == ({
                let sa = input_a.spec_meta().spec_shape();
                let sb = input_b.spec_meta().spec_shape();
                if crate::operations::matmul::matmul_shapes_ok(sa, sb) || (sa.len() >= 1
                    && sb.len() >= 1 && sa.len() != sb.len() && !(sa.len() == 1 && sb.len() == 2)
                    && !(sa.len() == 2 && sb.len() == 1)) {
                    WasmError::NotImplemented
                } else {
                    WasmError::InvalidShape
                }
            }),
    {
        let inputs = vec![input_a, input_b];
        self.record_operation_pattern(WasmOperation::Matmul, &inputs, output);
        let shape_a = input_a.metadata().shape();
        let shape_b = input_b.metadata().shape();
        match crate::operations::matmul::matmul_output_shape(&shape_a, &shape_b) {
            Ok(_) => Err(WasmError::NotImplemented),
            Err(e) => Err(e),
        }
    }

    /// Executes a slice with explicit row and column offsets, for any dtype.
    pub fn execute_slice(
        &mut self,
        input: &WasmTensor,
        output: &WasmTensor,
        row_start: usize,
        col_start: usize,
    ) -> (r: Result<(), WasmError>)
        requires
            old(self).wf(),
        ensures
            final(self).wf(),
            final(self).spec_optimization() == old(self).spec_optimization(),
            r is Err ==> final(self).spec_memory() == old(self).spec_memory(),
            r is Ok ==> {
                let elem = spec_byte_size(input.spec_meta().spec_dtype()) as int;
                let in_bytes = spec_tensor_data(old(self).spec_memory(), *input);
                let out_bytes = spec_tensor_data(final(self).spec_memory(), *output);
                forall|o: int|
                    0 <= o < crate::shape::spec_product(output.spec_meta().spec_shape())
                        ==> spec_lane(out_bytes, elem, o) == spec_lane(
                        in_bytes,
                        elem,
                        crate::shape::spec_flat_index(
                            crate::operations::view::spec_slice_indices(
                                crate::shape::spec_unflatten(o, output.spec_meta().spec_shape()),
                                row_start,
                                col_start,
                            ),
                            input.spec_meta().spec_strides().subrange(
                                0,
                                output.spec_meta().spec_shape().len() as int,
                            ),
                        ),
                    )
            },
            slice_exec_ok(old(self).spec_memory(), *input, *output, row_start, col_start)
                ==> r is Ok,
    {
        let in_bytes = match self.memory.copy_tensor_data_to_host(input) {
            Ok(b) => b,
            Err(e) => {
                return Err(e);
            },
        };
        let elem = input.metadata().dtype().byte_size();
        let in_strides = input.metadata().strides();
        let out_shape = output.metadata().shape();
        let result = match crate::operations::view::execute_slice_with_offsets(
            &in_bytes,
            elem,
            &in_strides,
            &out_shape,
            row_start,
            col_start,
        ) {
            Ok(b) => b,
            Err(e) => {
                return Err(e);
            },
        };
        self.copy_host_data_to_tensor(output, &result)
    }

    /// Executes a reduction over a 32-bit integer tensor. An absent or empty
    /// axis list reduces the whole tensor to one lane; a non-empty list
    /// partitions the axes and reduces each group to its own output lane, in
    /// row-major order of the kept axes. The keep-dims flag only shapes the
    /// caller's view and does not change the bytes. Float reductions are not
    /// computed here.
    pub fn execute_reduction(
        &mut self,
        operation: WasmOperation,
        input: &WasmTensor,
        output: &WasmTensor,
        axes: Option<Vec<usize>>,
        keep_dims: bool,
    ) -> (r: Result<(), WasmError>)
        requires
            old(self).wf(),
        ensures
            final(self).wf(),
            final(self).spec_optimization() == old(self).spec_optimization(),
            r is Err ==> final(self).spec_memory() == old(self).spec_memory(),
            r is Ok ==> if axes is Some && axes->0@.len() > 0 {
                let v = axes->0@;
                let shape = input.spec_meta().spec_shape();
                let strides = input.spec_meta().spec_strides();
                let mask = crate::operations::reduction::spec_axes_mask(v, shape.len() as int);
                let kept = crate::operations::reduction::spec_kept_values(mask, shape);
                let kept_str = crate::operations::reduction::spec_kept_values(mask, strides);
                let red = crate::operations::reduction::spec_reduced_values(mask, shape);
                let red_str = crate::operations::reduction::spec_reduced_values(mask, strides);
                let out = spec_tensor_data(final(self).spec_memory(), *output);
                &&& out.len() == crate::shape::spec_product(kept) * 4
                &&& forall|o: int|
                    0 <= o < crate::shape::spec_product(kept) ==> spec_lane(out, 4, o)
                        == crate::operations::reduction::spec_axis_reduce_lane(
                        operation,
                        spec_tensor_data(old(self).spec_memory(), *input),
                        kept,
                        kept_str,
                        red,
                        red_str,
                        o,
                    )
            } else {
                reduction_out_spec(
                    operation,
                    spec_tensor_data(old(self).spec_memory(), *input),
                    input.spec_meta().spec_size() as int,
                    spec_tensor_data(final(self).spec_memory(), *output),
                )
            },
            reduction_exec_ok(old(self).spec_memory(), operation, *input, *output, axes)
                ==> r is Ok,
    {
        let ghost owed = reduction_exec_ok(
            old(self).spec_memory(),
            operation,
            *input,
            *output,
            axes,
        );
        let inputs = vec![input];
        self.record_operation_pattern(operation, &inputs, output);
        let meta = input.metadata();
        if !(meta.dtype() == WasmDType::Int32) {
            proof {
                assert(!owed);
            }
            return Err(WasmError::NotImplemented);
        }
        let use_axes = match &axes {
            Some(v) => v.len() > 0,
            None => false,
        };
        if use_axes {
            let v = match axes {
                Some(v) => v,
                None => {
                    return Err(WasmError::InvalidInput);
                },
            };
            let shape = meta.shape();
            let strides = meta.strides();
            if strides.len() != shape.len() {
                proof {
                    assert(!owed);
                }
                return Err(WasmError::InvalidShape);
            }
            let in_bytes = match self.memory.copy_tensor_data_to_host(input) {
                Ok(b) => b,
                Err(e) => {
                    proof {
                        assert(!owed);
                    }
                    return Err(e);
                },
            };
            let parts = match crate::operations::reduction::partition_axes(
                &shape,
                &strides,
                &v,
            ) {
                Ok(p) => p,
                Err(e) => {
                    proof {
                        assert(!owed);
                    }
                    return Err(e);
                },
            };
            let (kept_shape, kept_strides, red_shape, red_strides) = parts;
            proof {
                crate::operations::reduction::lemma_partition_lens(
                    crate::operations::reduction::spec_axes_mask(v@, shape@.len() as int),
                    shape@,
                    strides@,
                );
            }
            let result = match crate::operations::reduction::execute_axis_reduction_i32(
                operation,
                &in_bytes,
                &kept_shape,
                &kept_strides,
                &red_shape,
                &red_strides,
            ) {
                Ok(b) => b,
                Err(e) => {
                    proof {
                        assert(!owed);
                    }
                    return Err(e);
                },
            };
            self.copy_host_data_to_tensor(output, &result)
        } else {
            let count = meta.size();
            if count > 0x40000000 {
                proof {
                    assert(!owed);
                }
                return Err(WasmError::NotImplemented);
            }
            let in_bytes = match self.memory.copy_tensor_data_to_host(input) {
                Ok(b) => b,
                Err(e) => {
                    proof {
                        assert(!owed);
                    }
                    return Err(e);
                },
            };
            if count > in_bytes.len() / 4 {
                proof {
                    crate::operations::view::lemma_gt_div_mul_len(
                        count as int,
                        4,
                        in_bytes@.len() as int,
                    );
                    assert(!owed);
                }
                return Err(WasmError::InvalidInput);
            }
            proof {
                crate::operations::view::lemma_le_div_mul_len(
                    count as int,
                    4,
                    in_bytes@.len() as int,
                );
            }
            let result = match execute_full_reduction_i32(operation, &in_bytes, count) {
                Ok(b) => b,
                Err(e) => {
                    proof {
                        assert(!owed);
                    }
                    return Err(e);
                },
            };
            proof {
                if owed {
                    assert(result@.len() == 4);
                    assert(host_write_ok(old(self).spec_memory(), *output, 4));
                }
            }
            self.copy_host_data_to_tensor(output, &result)
        }
    }

    /// Looks for a cached pattern whose first operation carries this
    /// signature and tries to bulk-allocate its buffers; on any failure the
    /// arena is left at its position and nothing is returned. Equal
    /// signatures find the same pattern, and a hit only raises that pattern's
    /// hit count and recency. Something is returned exactly when optimisation
    /// is on, a first match exists, and the bulk allocation succeeds; when the
    /// matched pattern's requirements are within the caps and fit the free
    /// arena space, it is owed.
    pub fn try_pattern_execution(
        &mut self,
        operation: WasmOperation,
        inputs: &Vec<&WasmTensor>,
    ) -> (r: Option<(PatternId, Vec<WasmTensor>)>)
        requires
            old(self).wf(),
        ensures
            final(self).wf(),
            !old(self).spec_optimization() ==> r is None && *final(self) == *old(self),
            final(self).spec_optimization() == old(self).spec_optimization(),
            final(self).spec_checkpoint_table() == old(self).spec_checkpoint_table(),
            final(self).spec_memory().spec_storage() == old(self).spec_memory().spec_storage(),
            r is None ==> final(self).spec_memory().spec_arena().spec_current() == old(self).spec_memory().spec_arena().spec_current(),
            old(self).spec_optimization() ==> forall|sig: PatternSignature|
                (#[trigger] sig.operation) == operation && sig.input_shapes.deep_view()
                    == inputs@.map_values(|t: &WasmTensor| t.spec_meta().spec_shape())
                    && sig.input_dtypes@ == inputs@.map_values(
                    |t: &WasmTensor| t.spec_meta().spec_dtype(),
                ) ==> {
                    let entries = old(self).spec_cache().spec_entries();
                    let j = crate::pattern::spec_first_match(entries, sig);
                    let arena = old(self).spec_memory().spec_arena();
                    &&& (j < 0 ==> r is None && final(self).spec_memory() == old(self).spec_memory())
                    &&& (r is Some ==> j >= 0 && r->Some_0.0 == entries[j].pattern.pattern_id
                        && r->Some_0.1@.len() == entries[j].pattern.allocations@.len())
                    &&& (j >= 0 && {
                        let p = entries[j].pattern;
                        &&& p.total_memory_needed <= arena.spec_limit() - arena.spec_current()
                        &&& (forall|k: int|
                            0 <= k < p.allocations@.len() ==> 0 < (
                            #[trigger] p.allocations@[k]).size_bytes
                                <= crate::arena::MAX_ALLOCATION_SIZE && p.allocations@[k].alignment
                                <= 16)
                        &&& arena.spec_current() + crate::memory::spec_sum_aligned16(
                            p.allocations@,
                        ) <= arena.spec_limit()
                    } ==> r is Some)
                },
    {
        if !self.enable_pattern_optimization {
            return None;
        }
        let signature = Self::build_signature(operation, inputs);
        proof {
            crate::pattern::lemma_first_match(
                old(self).spec_cache().spec_entries(),
                signature,
            );
            assert forall|sig: PatternSignature|
                sig.operation == operation && sig.input_shapes.deep_view() == inputs@.map_values(
                    |t: &WasmTensor| t.spec_meta().spec_shape(),
                ) && sig.input_dtypes@ == inputs@.map_values(
                    |t: &WasmTensor| t.spec_meta().spec_dtype(),
                ) implies crate::pattern::spec_first_match(
                old(self).spec_cache().spec_entries(),
                sig,
            ) == crate::pattern::spec_first_match(
                old(self).spec_cache().spec_entries(),
                signature,
            ) by {
                crate::pattern::lemma_first_match_views(
                    old(self).spec_cache().spec_entries(),
                    sig,
                    signature,
                );
            }
        }
        let ghost jm = crate::pattern::spec_first_match(
            old(self).spec_cache().spec_entries(),
            signature,
        );
        let found = self.pattern_cache.find_matching_pattern(&signature);
        match found {
            Some(pattern_id) => {
                let ghost cache_after_find = self.spec_cache();
                let ghost mut pv: OperationPattern = arbitrary();
                let pattern = match self.pattern_cache.get_pattern(pattern_id) {
                    Some(p) => {
                        proof {
                            pv = *p;
                        }
                        p.clone_pattern()
                    },
                    None => {
                        proof {
                            assert(cache_after_find.spec_entries()[jm].pattern.pattern_id.spec_id()
                                == pattern_id.spec_id());
                            assert(false);
                        }
                        return None;
                    },
                };
                proof {
                    let now = self.spec_cache().spec_entries();
                    let after = cache_after_find.spec_entries();
                    let j2 = choose|j2: int|
                        {
                            &&& 0 <= j2 < after.len()
                            &&& after[j2].pattern.pattern_id.spec_id() == pattern_id.spec_id()
                            &&& (#[trigger] now[j2]).pattern == after[j2].pattern
                            &&& pv == now[j2].pattern
                        };
                    assert(j2 == jm) by {
                        if j2 != jm {
                            assert(after[jm].pattern.pattern_id.spec_id()
                                == pattern_id.spec_id());
                            assert(crate::pattern::cache_entries_wf(after));
                        }
                    }
                    assert(pv == old(self).spec_cache().spec_entries()[jm].pattern);
                    assert(pattern.allocations@
                        == old(self).spec_cache().spec_entries()[jm].pattern.allocations@);
                    assert(pattern.total_memory_needed
                        == old(self).spec_cache().spec_entries()[jm].pattern.total_memory_needed);
                }
                let allocated = self.memory.bulk_allocate_for_pattern(&pattern);
                match allocated {
                    Ok(tensors) => Some((pattern_id, tensors)),
                    Err(_) => None,
                }
            },
            None => None,
        }
    }
}

} // verus!
