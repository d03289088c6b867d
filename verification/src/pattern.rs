//! Operation pattern cache: recognises recurring operation sequences by
//! signature, caches their allocation requirements for bulk pre-allocation,
//! and evicts by least-recent use and by memory budget.

use vstd::prelude::*;
use crate::types::{WasmOperation, WasmDType, WasmError};

verus! {

/// Unique identifier of an operation pattern: a deterministic hash of its
/// ordered operation descriptors.
#[derive(Clone, Copy, Debug, PartialEq, Eq, Hash, Structural)]
pub struct PatternId(u64);

impl PatternId {
    /// The hash value, in specifications.
    pub closed spec fn spec_id(self) -> u64 {
        self.0
    }

    pub fn new(id: u64) -> (r: Self)
        ensures
            r.spec_id() == id,
    {
        PatternId(id)
    }
}

/// Description of a single operation in a sequence.
#[derive(Clone, Debug)]
pub struct OperationDesc {
    pub operation: WasmOperation,
    pub input_shapes: Vec<Vec<usize>>,
    pub input_dtypes: Vec<WasmDType>,
    pub output_shape: Vec<usize>,
    pub output_dtype: WasmDType,
}

/// Memory allocation requirement for a single tensor of a pattern.
#[derive(Clone, Copy, Debug)]
pub struct AllocationRequirement {
    pub size_bytes: usize,
    pub alignment: usize,
    pub is_output: bool,
}

/// A cached pattern: its id, the operations it covers, the buffers they need,
/// the total bytes of those buffers, and the estimated speedup in thousandths
/// (1500 stands for a factor of one and a half).
#[derive(Clone, Debug)]
pub struct OperationPattern {
    pub pattern_id: PatternId,
    pub operations: Vec<OperationDesc>,
    pub allocations: Vec<AllocationRequirement>,
    pub total_memory_needed: usize,
    pub estimated_speedup: u64,
}

impl OperationPattern {
    /// A copy of this pattern carrying the same id, allocation requirements,
    /// byte total and speedup estimate.
    pub fn clone_pattern(&self) -> (r: OperationPattern)
        ensures
            r.pattern_id == self.pattern_id,
            r.allocations@ == self.allocations@,
            r.total_memory_needed == self.total_memory_needed,
            r.estimated_speedup == self.estimated_speedup,
    {
        let mut allocations: Vec<AllocationRequirement> = Vec::new();
        let mut i: usize = 0;
        while i < self.allocations.len()
            invariant
                i <= self.allocations@.len(),
                allocations@.len() == i,
                forall|k: int| 0 <= k < i ==> #[trigger] allocations@[k] == self.allocations@[k],
            decreases self.allocations@.len() - i,
        {
            allocations.push(self.allocations[i]);
            i += 1;
        }
        proof {
            assert(allocations@ =~= self.allocations@);
        }
        OperationPattern {
            pattern_id: self.pattern_id,
            operations: self.operations.clone(),
            allocations,
            total_memory_needed: self.total_memory_needed,
            estimated_speedup: self.estimated_speedup,
        }
    }
}

/// Lookup key for the cache: one operation with its input shapes and dtypes.
#[derive(Clone, Debug)]
pub struct PatternSignature {
    pub operation: WasmOperation,
    pub input_shapes: Vec<Vec<usize>>,
    pub input_dtypes: Vec<WasmDType>,
}

impl PatternSignature {
    pub fn new(
        operation: WasmOperation,
        input_shapes: Vec<Vec<usize>>,
        input_dtypes: Vec<WasmDType>,
    ) -> (r: Self)
        ensures
            r.operation == operation,
            r.input_shapes@ == input_shapes@,
            r.input_dtypes@ == input_dtypes@,
    {
        PatternSignature { operation, input_shapes, input_dtypes }
    }

    /// The signature of an operation descriptor: its tag, input shapes and
    /// input dtypes.
    pub fn from_operation_desc(desc: &OperationDesc) -> (r: Self)
        ensures
            spec_sig_matches(*desc, r),
    {
        PatternSignature {
            operation: desc.operation,
            input_shapes: clone_shapes(&desc.input_shapes),
            input_dtypes: clone_dtypes(&desc.input_dtypes),
        }
    }
}

/// A descriptor carries this signature: same operation tag, same input
/// shapes, same input dtypes.
pub open spec fn spec_sig_matches(d: OperationDesc, sig: PatternSignature) -> bool {
    &&& d.operation == sig.operation
    &&& d.input_shapes.deep_view() == sig.input_shapes.deep_view()
    &&& d.input_dtypes@ == sig.input_dtypes@
}

/// Clones a list of shapes, preserving its view.
fn clone_shapes(shapes: &Vec<Vec<usize>>) -> (r: Vec<Vec<usize>>)
    ensures
        r.deep_view() == shapes.deep_view(),
{
    let mut out: Vec<Vec<usize>> = Vec::new();
    let mut i: usize = 0;
    while i < shapes.len()
        invariant
            i <= shapes.len(),
            out.len() == i,
            forall|k: int| 0 <= k < i ==> out.deep_view()[k] == shapes.deep_view()[k],
        decreases shapes.len() - i,
    {
        out.push(shapes[i].clone());
        i += 1;
    }
    proof {
        assert(out.deep_view() =~= shapes.deep_view());
    }
    out
}

/// Clones a list of dtypes, preserving its view.
fn clone_dtypes(dtypes: &Vec<WasmDType>) -> (r: Vec<WasmDType>)
    ensures
        r@ == dtypes@,
{
    let mut out: Vec<WasmDType> = Vec::new();
    let mut i: usize = 0;
    while i < dtypes.len()
        invariant
            i <= dtypes.len(),
            out.len() == i,
            forall|k: int| 0 <= k < i ==> out@[k] == dtypes@[k],
        decreases dtypes.len() - i,
    {
        out.push(dtypes[i]);
        i += 1;
    }
    proof {
        assert(out@ =~= dtypes@);
    }
    out
}

/// Whether a descriptor carries the given signature.
fn desc_matches(d: &OperationDesc, sig: &PatternSignature) -> (r: bool)
    ensures
        r == spec_sig_matches(*d, *sig),
{
    if !(d.operation == sig.operation) {
        proof {
            assert(!spec_sig_matches(*d, *sig));
        }
        return false;
    }
    if d.input_shapes.len() != sig.input_shapes.len() {
        proof {
            assert(d.input_shapes.deep_view().len() != sig.input_shapes.deep_view().len());
        }
        return false;
    }
    let mut i: usize = 0;
    while i < d.input_shapes.len()
        invariant
            i <= d.input_shapes.len(),
            d.input_shapes.len() == sig.input_shapes.len(),
            forall|k: int|
                0 <= k < i ==> d.input_shapes.deep_view()[k] == sig.input_shapes.deep_view()[k],
        decreases d.input_shapes.len() - i,
    {
        if !vec_usize_eq(&d.input_shapes[i], &sig.input_shapes[i]) {
            proof {
                assert(d.input_shapes.deep_view()[i as int] == d.input_shapes@[i as int]@);
                assert(sig.input_shapes.deep_view()[i as int] == sig.input_shapes@[i as int]@);
            }
            return false;
        }
        proof {
            assert(d.input_shapes.deep_view()[i as int] == d.input_shapes@[i as int]@);
            assert(sig.input_shapes.deep_view()[i as int] == sig.input_shapes@[i as int]@);
        }
        i += 1;
    }
    proof {
        assert(d.input_shapes.deep_view() =~= sig.input_shapes.deep_view());
    }
    if d.input_dtypes.len() != sig.input_dtypes.len() {
        return false;
    }
    let mut j: usize = 0;
    while j < d.input_dtypes.len()
        invariant
            j <= d.input_dtypes.len(),
            d.input_dtypes.len() == sig.input_dtypes.len(),
            d.input_shapes.deep_view() == sig.input_shapes.deep_view(),
            d.operation == sig.operation,
            forall|k: int| 0 <= k < j ==> d.input_dtypes@[k] == sig.input_dtypes@[k],
        decreases d.input_dtypes.len() - j,
    {
        if !(d.input_dtypes[j] == sig.input_dtypes[j]) {
            return false;
        }
        j += 1;
    }
    proof {
        assert(d.input_dtypes@ =~= sig.input_dtypes@);
    }
    true
}

/// Whether two shape vectors hold the same extents.
fn vec_usize_eq(a: &Vec<usize>, b: &Vec<usize>) -> (r: bool)
    ensures
        r == (a@ == b@),
{
    if a.len() != b.len() {
        return false;
    }
    let mut i: usize = 0;
    while i < a.len()
        invariant
            i <= a.len(),
            a.len() == b.len(),
            forall|k: int| 0 <= k < i ==> a@[k] == b@[k],
        decreases a.len() - i,
    {
        if a[i] != b[i] {
            return false;
        }
        i += 1;
    }
    proof {
        assert(a@ =~= b@);
    }
    true
}

/// Numeric code of an operation tag, used by the pattern hash.
pub open spec fn spec_op_code(op: WasmOperation) -> u64 {
    match op {
        WasmOperation::Create => 0u64,
        WasmOperation::Neg => 1u64,
        WasmOperation::Abs => 2u64,
        WasmOperation::Sin => 3u64,
        WasmOperation::Cos => 4u64,
        WasmOperation::Exp => 5u64,
        WasmOperation::Log => 6u64,
        WasmOperation::Sqrt => 7u64,
        WasmOperation::Square => 8u64,
        WasmOperation::Add => 10u64,
        WasmOperation::Sub => 11u64,
        WasmOperation::Mul => 12u64,
        WasmOperation::Div => 13u64,
        WasmOperation::Reshape => 20u64,
        WasmOperation::View => 21u64,
        WasmOperation::Slice => 22u64,
        WasmOperation::Flatten => 23u64,
        WasmOperation::Permute => 24u64,
        WasmOperation::Transpose => 25u64,
        WasmOperation::Squeeze => 26u64,
        WasmOperation::Unsqueeze => 27u64,
        WasmOperation::Expand => 28u64,
        WasmOperation::Tile => 29u64,
        WasmOperation::Matmul => 30u64,
        WasmOperation::Softmax => 40u64,
        WasmOperation::LogSoftmax => 41u64,
        WasmOperation::Sum => 50u64,
        WasmOperation::Mean => 51u64,
        WasmOperation::Max => 52u64,
        WasmOperation::Min => 53u64,
        WasmOperation::Prod => 54u64,
        WasmOperation::Rearrange => 60u64,
        WasmOperation::Reduce => 61u64,
    }
}

/// Numeric code of a dtype, used by the pattern hash.
pub open spec fn spec_dtype_code(dtype: WasmDType) -> u64 {
    match dtype {
        WasmDType::Int8 => 0u64,
        WasmDType::Uint8 => 1u64,
        WasmDType::Int16 => 2u64,
        WasmDType::Uint16 => 3u64,
        WasmDType::Int32 => 4u64,
        WasmDType::Uint32 => 5u64,
        WasmDType::Float32 => 6u64,
        WasmDType::Float64 => 7u64,
        WasmDType::BigInt64 => 8u64,
        WasmDType::BigUint64 => 9u64,
        WasmDType::Bool => 10u64,
    }
}

/// One step of the 64-bit Fowler–Noll–Vo hash: mix a token into the state.
pub open spec fn spec_fnv_push(h: u64, t: u64) -> u64 {
    mul_wrap64(h ^ t, 0x100000001b3u64)
}

/// Wrapping 64-bit multiplication.
pub open spec fn mul_wrap64(a: u64, b: u64) -> u64 {
    ((a * b) % 0x10000000000000000) as u64
}

/// Hash state after mixing in every extent of a shape, prefixed by its rank.
pub open spec fn spec_fnv_dims(h: u64, dims: Seq<usize>) -> u64
    decreases dims.len(),
{
    if dims.len() == 0 {
        h
    } else {
        spec_fnv_push(spec_fnv_dims(h, dims.drop_last()), dims.last() as u64)
    }
}

/// Hash state after mixing in a list of shapes, each prefixed by its rank.
pub open spec fn spec_fnv_shapes(h: u64, shapes: Seq<Seq<usize>>) -> u64
    decreases shapes.len(),
{
    if shapes.len() == 0 {
        h
    } else {
        spec_fnv_dims(
            spec_fnv_push(
                spec_fnv_shapes(h, shapes.drop_last()),
                shapes.last().len() as u64,
            ),
            shapes.last(),
        )
    }
}

/// Hash state after mixing in a list of dtype codes.
pub open spec fn spec_fnv_dtypes(h: u64, dtypes: Seq<WasmDType>) -> u64
    decreases dtypes.len(),
{
    if dtypes.len() == 0 {
        h
    } else {
        spec_fnv_push(spec_fnv_dtypes(h, dtypes.drop_last()), spec_dtype_code(dtypes.last()))
    }
}

/// Hash state after mixing in one operation descriptor.
pub open spec fn spec_fnv_desc(h: u64, d: OperationDesc) -> u64 {
    spec_fnv_push(
        spec_fnv_dims(
            spec_fnv_dtypes(
                spec_fnv_shapes(
                    spec_fnv_push(
                        spec_fnv_push(h, spec_op_code(d.operation)),
                        d.input_shapes@.len() as u64,
                    ),
                    d.input_shapes.deep_view(),
                ),
                d.input_dtypes@,
            ),
            d.output_shape@,
        ),
        spec_dtype_code(d.output_dtype),
    )
}

/// Hash of an ordered list of operation descriptors: the Fowler–Noll–Vo fold
/// over their fields, seeded with the standard offset basis and the count.
pub open spec fn spec_hash_ops(descs: Seq<OperationDesc>) -> u64
    decreases descs.len(),
{
    if descs.len() == 0 {
        spec_fnv_push(0xcbf29ce484222325u64, 0u64)
    } else {
        spec_fnv_desc(spec_hash_ops(descs.drop_last()), descs.last())
    }
}

/// Numeric code of an operation tag.
fn op_code(op: WasmOperation) -> (r: u64)
    ensures
        r == spec_op_code(op),
{
    match op {
        WasmOperation::Create => 0,
        WasmOperation::Neg => 1,
        WasmOperation::Abs => 2,
        WasmOperation::Sin => 3,
        WasmOperation::Cos => 4,
        WasmOperation::Exp => 5,
        WasmOperation::Log => 6,
        WasmOperation::Sqrt => 7,
        WasmOperation::Square => 8,
        WasmOperation::Add => 10,
        WasmOperation::Sub => 11,
        WasmOperation::Mul => 12,
        WasmOperation::Div => 13,
        WasmOperation::Reshape => 20,
        WasmOperation::View => 21,
        WasmOperation::Slice => 22,
        WasmOperation::Flatten => 23,
        WasmOperation::Permute => 24,
        WasmOperation::Transpose => 25,
        WasmOperation::Squeeze => 26,
        WasmOperation::Unsqueeze => 27,
        WasmOperation::Expand => 28,
        WasmOperation::Tile => 29,
        WasmOperation::Matmul => 30,
        WasmOperation::Softmax => 40,
        WasmOperation::LogSoftmax => 41,
        WasmOperation::Sum => 50,
        WasmOperation::Mean => 51,
        WasmOperation::Max => 52,
        WasmOperation::Min => 53,
        WasmOperation::Prod => 54,
        WasmOperation::Rearrange => 60,
        WasmOperation::Reduce => 61,
    }
}

/// Numeric code of a dtype.
fn dtype_code(dtype: WasmDType) -> (r: u64)
    ensures
        r == spec_dtype_code(dtype),
{
    match dtype {
        WasmDType::Int8 => 0,
        WasmDType::Uint8 => 1,
        WasmDType::Int16 => 2,
        WasmDType::Uint16 => 3,
        WasmDType::Int32 => 4,
        WasmDType::Uint32 => 5,
        WasmDType::Float32 => 6,
        WasmDType::Float64 => 7,
        WasmDType::BigInt64 => 8,
        WasmDType::BigUint64 => 9,
        WasmDType::Bool => 10,
    }
}

/// One hash step.
fn fnv_push(h: u64, t: u64) -> (r: u64)
    ensures
        r == spec_fnv_push(h, t),
{
    (h ^ t).wrapping_mul(0x100000001b3u64)
}

/// Mixes the extents of one shape into the hash state.
fn fnv_dims(h: u64, dims: &Vec<usize>) -> (r: u64)
    ensures
        r == spec_fnv_dims(h, dims@),
{
    let mut acc = h;
    let mut i: usize = 0;
    proof {
        assert(dims@.subrange(0, 0) =~= Seq::<usize>::empty());
    }
    while i < dims.len()
        invariant
            i <= dims.len(),
            acc == spec_fnv_dims(h, dims@.subrange(0, i as int)),
        decreases dims.len() - i,
    {
        proof {
            assert(dims@.subrange(0, i + 1).drop_last() =~= dims@.subrange(0, i as int));
        }
        acc = fnv_push(acc, dims[i] as u64);
        i += 1;
    }
    proof {
        assert(dims@.subrange(0, dims@.len() as int) =~= dims@);
    }
    acc
}

/// Mixes a list of shapes into the hash state.
fn fnv_shapes(h: u64, shapes: &Vec<Vec<usize>>) -> (r: u64)
    ensures
        r == spec_fnv_shapes(h, shapes.deep_view()),
{
    let mut acc = h;
    let mut i: usize = 0;
    proof {
        assert(shapes.deep_view().subrange(0, 0) =~= Seq::<Seq<usize>>::empty());
    }
    while i < shapes.len()
        invariant
            i <= shapes.len(),
            shapes.deep_view().len() == shapes@.len(),
            acc == spec_fnv_shapes(h, shapes.deep_view().subrange(0, i as int)),
        decreases shapes.len() - i,
    {
        proof {
            assert(shapes.deep_view().subrange(0, i + 1).drop_last() =~= shapes.deep_view().subrange(
                0,
                i as int,
            ));
            assert(shapes.deep_view().subrange(0, i + 1).last() == shapes.deep_view()[i as int]);
            assert(shapes.deep_view()[i as int] == shapes@[i as int]@);
        }
        let t = fnv_push(acc, shapes[i].len() as u64);
        acc = fnv_dims(t, &shapes[i]);
        i += 1;
    }
    proof {
        assert(shapes.deep_view().subrange(0, shapes.deep_view().len() as int) =~= shapes.deep_view());
    }
    acc
}

/// Mixes a list of dtype codes into the hash state.
fn fnv_dtypes(h: u64, dtypes: &Vec<WasmDType>) -> (r: u64)
    ensures
        r == spec_fnv_dtypes(h, dtypes@),
{
    let mut acc = h;
    let mut i: usize = 0;
    proof {
        assert(dtypes@.subrange(0, 0) =~= Seq::<WasmDType>::empty());
    }
    while i < dtypes.len()
        invariant
            i <= dtypes.len(),
            acc == spec_fnv_dtypes(h, dtypes@.subrange(0, i as int)),
        decreases dtypes.len() - i,
    {
        proof {
            assert(dtypes@.subrange(0, i + 1).drop_last() =~= dtypes@.subrange(0, i as int));
        }
        acc = fnv_push(acc, dtype_code(dtypes[i]));
        i += 1;
    }
    proof {
        assert(dtypes@.subrange(0, dtypes@.len() as int) =~= dtypes@);
    }
    acc
}

/// Mixes one operation descriptor into the hash state.
fn fnv_desc(h: u64, d: &OperationDesc) -> (r: u64)
    ensures
        r == spec_fnv_desc(h, *d),
{
    let mut acc = fnv_push(h, op_code(d.operation));
    acc = fnv_push(acc, d.input_shapes.len() as u64);
    acc = fnv_shapes(acc, &d.input_shapes);
    acc = fnv_dtypes(acc, &d.input_dtypes);
    acc = fnv_dims(acc, &d.output_shape);
    fnv_push(acc, dtype_code(d.output_dtype))
}

/// Deterministic hash of an ordered list of operation descriptors.
pub fn hash_operation_descs(operations: &Vec<OperationDesc>) -> (r: u64)
    ensures
        r == spec_hash_ops(operations@),
{
    let mut acc = fnv_push(0xcbf29ce484222325u64, 0u64);
    let mut i: usize = 0;
    proof {
        assert(operations@.subrange(0, 0) =~= Seq::<OperationDesc>::empty());
    }
    while i < operations.len()
        invariant
            i <= operations.len(),
            acc == spec_hash_ops(operations@.subrange(0, i as int)),
        decreases operations.len() - i,
    {
        proof {
            assert(operations@.subrange(0, i + 1).drop_last() =~= operations@.subrange(
                0,
                i as int,
            ));
        }
        acc = fnv_desc(acc, &operations[i]);
        i += 1;
    }
    proof {
        assert(operations@.subrange(0, operations@.len() as int) =~= operations@);
    }
    acc
}

/// One cache slot: the pattern, how often it was hit, and when it was last
/// touched.
pub struct CacheEntry {
    pub pattern: OperationPattern,
    pub hits: usize,
    pub last_used: u64,
}

/// Total bytes charged to the cache by these entries.
pub open spec fn spec_sum_mem(s: Seq<CacheEntry>) -> int
    decreases s.len(),
{
    if s.len() == 0 {
        0
    } else {
        spec_sum_mem(s.drop_last()) + s.last().pattern.total_memory_needed
    }
}

/// Charged bytes are non-negative.
pub proof fn lemma_sum_mem_nonneg(s: Seq<CacheEntry>)
    ensures
        spec_sum_mem(s) >= 0,
    decreases s.len(),
{
    if s.len() > 0 {
        lemma_sum_mem_nonneg(s.drop_last());
    }
}

/// Removing one entry removes exactly its charge from the sum.
pub proof fn lemma_sum_mem_remove(s: Seq<CacheEntry>, i: int)
    requires
        0 <= i < s.len(),
    ensures
        spec_sum_mem(s.remove(i)) == spec_sum_mem(s) - s[i].pattern.total_memory_needed,
    decreases s.len(),
{
    if i == s.len() - 1 {
        assert(s.remove(i) =~= s.drop_last());
    } else {
        lemma_sum_mem_remove(s.drop_last(), i);
        assert(s.remove(i).drop_last() =~= s.drop_last().remove(i));
        assert(s.remove(i).last() == s.last());
    }
}

/// Removing an entry keeps ids unique and speedups sane.
pub proof fn lemma_remove_wf(s: Seq<CacheEntry>, i: int)
    requires
        0 <= i < s.len(),
        cache_entries_wf(s),
    ensures
        cache_entries_wf(s.remove(i)),
{
    let post = s.remove(i);
    assert forall|k: int| 0 <= k < post.len() implies #[trigger] post[k] == if k < i {
        s[k]
    } else {
        s[k + 1]
    } by {}
}

/// Each entry's charge is at most the total.
pub proof fn lemma_sum_mem_bound(s: Seq<CacheEntry>, i: int)
    requires
        0 <= i < s.len(),
    ensures
        s[i].pattern.total_memory_needed <= spec_sum_mem(s),
    decreases s.len(),
{
    lemma_sum_mem_nonneg(s.drop_last());
    if i < s.len() - 1 {
        lemma_sum_mem_bound(s.drop_last(), i);
        assert(s.drop_last()[i] == s[i]);
    }
}

/// Index of the least-recently-used entry: the first index carrying the
/// minimal timestamp.
pub open spec fn spec_lru_index(s: Seq<CacheEntry>) -> int
    decreases s.len(),
{
    if s.len() <= 1 {
        0
    } else {
        let p = spec_lru_index(s.drop_last());
        if s.last().last_used < s[p].last_used {
            s.len() - 1
        } else {
            p
        }
    }
}

/// The least-recently-used index is valid and minimal, and it is the first
/// index carrying the minimal timestamp.
pub proof fn lemma_lru_index(s: Seq<CacheEntry>)
    requires
        s.len() > 0,
    ensures
        0 <= spec_lru_index(s) < s.len(),
        forall|i: int| 0 <= i < s.len() ==> s[spec_lru_index(s)].last_used <= #[trigger] s[i].last_used,
        forall|i: int|
            0 <= i < spec_lru_index(s) ==> s[spec_lru_index(s)].last_used < #[trigger] s[i].last_used
                || s[spec_lru_index(s)].last_used == s[i].last_used && false,
    decreases s.len(),
{
    if s.len() > 1 {
        lemma_lru_index(s.drop_last());
        let p = spec_lru_index(s.drop_last());
        assert forall|i: int| 0 <= i < s.len() implies s[spec_lru_index(s)].last_used
            <= #[trigger] s[i].last_used by {
            if i < s.len() - 1 {
                assert(s.drop_last()[i] == s[i]);
                assert(s.drop_last()[p] == s[p]);
            }
        }
        assert forall|i: int| 0 <= i < spec_lru_index(s) implies s[spec_lru_index(s)].last_used
            < #[trigger] s[i].last_used || s[spec_lru_index(s)].last_used == s[i].last_used
            && false by {
            assert(s.drop_last()[i] == s[i]);
        }
    }
}

/// Entries left after evicting in least-recently-used order until `needed`
/// more bytes fit under the budget, or nothing is left.
pub open spec fn spec_evict_mem(s: Seq<CacheEntry>, needed: int, max: int) -> Seq<CacheEntry>
    decreases s.len(),
    via spec_evict_mem_dec
{
    if spec_sum_mem(s) + needed <= max || s.len() == 0 {
        s
    } else {
        spec_evict_mem(s.remove(spec_lru_index(s)), needed, max)
    }
}

#[via_fn]
proof fn spec_evict_mem_dec(s: Seq<CacheEntry>, needed: int, max: int) {
    if !(spec_sum_mem(s) + needed <= max || s.len() == 0) {
        lemma_lru_index(s);
    }
}

/// Entries left after the count-cap check: when the cache is full, the
/// least-recently-used entry goes.
pub open spec fn spec_evict_count(s: Seq<CacheEntry>, max_patterns: int) -> Seq<CacheEntry> {
    if s.len() >= max_patterns && s.len() > 0 {
        s.remove(spec_lru_index(s))
    } else {
        s
    }
}

/// Index of the first entry whose first operation carries the signature, or
/// -1 when none does.
pub open spec fn spec_first_match(s: Seq<CacheEntry>, sig: PatternSignature) -> int
    decreases s.len(),
{
    if s.len() == 0 {
        -1
    } else if s[0].pattern.operations@.len() > 0 && spec_sig_matches(
        s[0].pattern.operations@[0],
        sig,
    ) {
        0
    } else {
        let r = spec_first_match(s.subrange(1, s.len() as int), sig);
        if r == -1 {
            -1
        } else {
            r + 1
        }
    }
}

/// Two signatures with the same tag, shapes and dtypes find the same first
/// match.
pub proof fn lemma_first_match_views(s: Seq<CacheEntry>, a: PatternSignature, b: PatternSignature)
    requires
        a.operation == b.operation,
        a.input_shapes.deep_view() == b.input_shapes.deep_view(),
        a.input_dtypes@ == b.input_dtypes@,
    ensures
        spec_first_match(s, a) == spec_first_match(s, b),
    decreases s.len(),
{
    if s.len() > 0 {
        lemma_first_match_views(s.subrange(1, s.len() as int), a, b);
    }
}

/// `spec_first_match` returns -1 or the first matching index.
pub proof fn lemma_first_match(s: Seq<CacheEntry>, sig: PatternSignature)
    ensures
        spec_first_match(s, sig) == -1 || 0 <= spec_first_match(s, sig) < s.len(),
        spec_first_match(s, sig) == -1 ==> forall|i: int|
            0 <= i < s.len() ==> !(#[trigger] s[i].pattern.operations@.len() > 0
                && spec_sig_matches(s[i].pattern.operations@[0], sig)),
        spec_first_match(s, sig) >= 0 ==> {
            let j = spec_first_match(s, sig);
            &&& j < s.len()
            &&& s[j].pattern.operations@.len() > 0
            &&& spec_sig_matches(s[j].pattern.operations@[0], sig)
            &&& forall|i: int|
                0 <= i < j ==> !(#[trigger] s[i].pattern.operations@.len() > 0 && spec_sig_matches(
                    s[i].pattern.operations@[0],
                    sig,
                ))
        },
    decreases s.len(),
{
    if s.len() > 0 && !(s[0].pattern.operations@.len() > 0 && spec_sig_matches(
        s[0].pattern.operations@[0],
        sig,
    )) {
        let rest = s.subrange(1, s.len() as int);
        lemma_first_match(rest, sig);
        assert forall|i: int| 1 <= i < s.len() implies s[i] == rest[i - 1] by {}
        if spec_first_match(s, sig) == -1 {
            assert(spec_first_match(rest, sig) == -1);
            assert forall|i: int| 0 <= i < s.len() implies !(
            #[trigger] s[i].pattern.operations@.len() > 0 && spec_sig_matches(
                s[i].pattern.operations@[0],
                sig,
            )) by {
                if i >= 1 {
                    assert(s[i] == rest[i - 1]);
                    assert(!(rest[i - 1].pattern.operations@.len() > 0 && spec_sig_matches(
                        rest[i - 1].pattern.operations@[0],
                        sig,
                    )));
                }
            }
        }
    }
}

/// Index of the entry carrying this pattern id, or -1 when absent.
pub open spec fn spec_id_index(s: Seq<CacheEntry>, id: u64) -> int
    decreases s.len(),
{
    if s.len() == 0 {
        -1
    } else if s.last().pattern.pattern_id.spec_id() == id {
        s.len() - 1
    } else {
        spec_id_index(s.drop_last(), id)
    }
}

/// `spec_id_index` is -1 or a valid index holding the id; when ids are
/// unique it is the only such index.
pub proof fn lemma_id_index(s: Seq<CacheEntry>, id: u64)
    ensures
        spec_id_index(s, id) == -1 || (0 <= spec_id_index(s, id) < s.len() && s[spec_id_index(
            s,
            id,
        )].pattern.pattern_id.spec_id() == id),
        spec_id_index(s, id) == -1 ==> forall|i: int|
            0 <= i < s.len() ==> #[trigger] s[i].pattern.pattern_id.spec_id() != id,
    decreases s.len(),
{
    if s.len() > 0 && s.last().pattern.pattern_id.spec_id() != id {
        lemma_id_index(s.drop_last(), id);
        if spec_id_index(s, id) == -1 {
            assert forall|i: int| 0 <= i < s.len() implies #[trigger] s[i].pattern.pattern_id.spec_id()
                != id by {
                if i < s.len() - 1 {
                    assert(s.drop_last()[i] == s[i]);
                    assert(s.drop_last()[i].pattern.pattern_id.spec_id() != id);
                } else {
                    assert(s[i] == s.last());
                }
            }
        }
    }
}

/// Entry-level cache invariant: unique ids, sane speedup estimates.
pub open spec fn cache_entries_wf(s: Seq<CacheEntry>) -> bool {
    &&& forall|i: int, j: int|
        0 <= i < j < s.len() ==> #[trigger] s[i].pattern.pattern_id.spec_id()
            != #[trigger] s[j].pattern.pattern_id.spec_id()
    &&& forall|i: int| 0 <= i < s.len() ==> 1 <= #[trigger] s[i].pattern.estimated_speedup
        <= 1000000000
}

/// Removing an entry preserves the entry-level invariant and any absent id
/// stays absent.
pub proof fn lemma_remove_preserves(s: Seq<CacheEntry>, i: int, id: u64)
    requires
        0 <= i < s.len(),
        cache_entries_wf(s),
        forall|k: int| 0 <= k < s.len() ==> #[trigger] s[k].pattern.pattern_id.spec_id() != id,
    ensures
        cache_entries_wf(s.remove(i)),
        forall|k: int|
            0 <= k < s.remove(i).len() ==> #[trigger] s.remove(i)[k].pattern.pattern_id.spec_id()
                != id,
{
    let post = s.remove(i);
    assert forall|k: int| 0 <= k < post.len() implies #[trigger] post[k] == if k < i {
        s[k]
    } else {
        s[k + 1]
    } by {}
}

/// Pattern cache with hit counting, least-recently-used eviction and a
/// memory budget.
pub struct PatternCache {
    entries: Vec<CacheEntry>,
    current_time: u64,
    max_patterns: usize,
    max_memory_usage: usize,
    current_memory_usage: usize,
}

impl PatternCache {
    /// The cache slots, in order of insertion, in specifications.
    pub closed spec fn spec_entries(&self) -> Seq<CacheEntry> {
        self.entries@
    }

    /// The logical clock, in specifications.
    pub closed spec fn spec_time(&self) -> u64 {
        self.current_time
    }

    /// The pattern-count cap, in specifications.
    pub closed spec fn spec_max_patterns(&self) -> usize {
        self.max_patterns
    }

    /// The memory budget in bytes, in specifications.
    pub closed spec fn spec_max_memory(&self) -> usize {
        self.max_memory_usage
    }

    /// The charged bytes, in specifications.
    pub closed spec fn spec_memory_usage(&self) -> usize {
        self.current_memory_usage
    }

    /// Cache invariant: pattern ids are unique, the charge equals the sum of
    /// the entries' needs, the count cap holds, and every estimated speedup
    /// is at least one thousandth.
    pub open spec fn wf(&self) -> bool {
        &&& cache_entries_wf(self.spec_entries())
        &&& self.spec_memory_usage() == spec_sum_mem(self.spec_entries())
        &&& self.spec_memory_usage() <= self.spec_max_memory()
        &&& self.spec_entries().len() <= self.spec_max_patterns()
    }

    /// An empty cache with the given caps; the memory budget is in MiB.
    pub fn new(max_patterns: usize, max_memory_mb: usize) -> (r: PatternCache)
        requires
            max_memory_mb * 1048576 <= usize::MAX,
        ensures
            r.wf(),
            r.spec_entries().len() == 0,
            r.spec_time() == 0,
            r.spec_max_patterns() == max_patterns,
            r.spec_max_memory() == max_memory_mb * 1048576,
            r.spec_memory_usage() == 0,
    {
        PatternCache {
            entries: Vec::new(),
            current_time: 0,
            max_patterns,
            max_memory_usage: max_memory_mb * 1024 * 1024,
            current_memory_usage: 0,
        }
    }

    /// Hashes an operation sequence into a pattern id.
    pub fn hash_operation_sequence(&self, operations: &Vec<OperationDesc>) -> (r: PatternId)
        ensures
            r.spec_id() == spec_hash_ops(operations@),
    {
        PatternId(hash_operation_descs(operations))
    }

    /// Hashes a signature into a pattern id, treating it as a one-operation
    /// sequence without an output.
    pub fn hash_signature(&self, signature: &PatternSignature) -> (r: PatternId)
        ensures
            r.spec_id() == spec_fnv_dtypes(
                spec_fnv_shapes(
                    spec_fnv_push(
                        spec_fnv_push(
                            spec_fnv_push(0xcbf29ce484222325u64, 0u64),
                            spec_op_code(signature.operation),
                        ),
                        signature.input_shapes@.len() as u64,
                    ),
                    signature.input_shapes.deep_view(),
                ),
                signature.input_dtypes@,
            ),
    {
        let mut acc = fnv_push(0xcbf29ce484222325u64, 0u64);
        acc = fnv_push(acc, op_code(signature.operation));
        acc = fnv_push(acc, signature.input_shapes.len() as u64);
        acc = fnv_shapes(acc, &signature.input_shapes);
        acc = fnv_dtypes(acc, &signature.input_dtypes);
        PatternId(acc)
    }

    /// Index of the entry with this pattern id, if any.
    fn find_by_id(&self, pattern_id: &PatternId) -> (r: Option<usize>)
        ensures
            r is Some ==> 0 <= r->Some_0 < self.spec_entries().len()
                && self.spec_entries()[r->Some_0 as int].pattern.pattern_id.spec_id()
                == pattern_id.spec_id(),
            r is None ==> forall|i: int|
                0 <= i < self.spec_entries().len()
                    ==> #[trigger] self.spec_entries()[i].pattern.pattern_id.spec_id()
                    != pattern_id.spec_id(),
    {
        let mut i: usize = 0;
        while i < self.entries.len()
            invariant
                i <= self.spec_entries().len(),
                forall|k: int|
                    0 <= k < i ==> #[trigger] self.spec_entries()[k].pattern.pattern_id.spec_id()
                        != pattern_id.spec_id(),
            decreases self.entries.len() - i,
        {
            if self.entries[i].pattern.pattern_id.0 == pattern_id.0 {
                return Some(i);
            }
            i += 1;
        }
        None
    }

    /// Looks up a pattern by id; on a hit, bumps its timestamp and hit count.
    /// The hit count never decreases, and only the touched entry changes.
    pub fn get_pattern(&mut self, pattern_id: PatternId) -> (r: Option<&OperationPattern>)
        requires
            old(self).wf(),
        ensures
            final(self).wf(),
            final(self).spec_max_patterns() == old(self).spec_max_patterns(),
            final(self).spec_max_memory() == old(self).spec_max_memory(),
            final(self).spec_memory_usage() == old(self).spec_memory_usage(),
            final(self).spec_entries().len() == old(self).spec_entries().len(),
            (r is None ==> *final(self) == *old(self) && forall|i: int|
                0 <= i < old(self).spec_entries().len()
                    ==> #[trigger] old(self).spec_entries()[i].pattern.pattern_id.spec_id()
                    != pattern_id.spec_id()),
            (r is Some ==> final(self).spec_time() == if old(self).spec_time() < u64::MAX {
                old(self).spec_time() + 1
            } else {
                u64::MAX as int
            }),
            (r is Some ==> exists|j: int|
                {
                    &&& 0 <= j < old(self).spec_entries().len()
                    &&& old(self).spec_entries()[j].pattern.pattern_id.spec_id()
                        == pattern_id.spec_id()
                    &&& #[trigger] final(self).spec_entries()[j].pattern
                        == old(self).spec_entries()[j].pattern
                    &&& final(self).spec_entries()[j].hits == if old(self).spec_entries()[j].hits
                        < usize::MAX {
                        old(self).spec_entries()[j].hits + 1
                    } else {
                        usize::MAX as int
                    }
                    &&& final(self).spec_entries()[j].last_used == final(self).spec_time()
                    &&& *r->Some_0 == final(self).spec_entries()[j].pattern
                    &&& forall|i: int|
                        0 <= i < old(self).spec_entries().len() && i != j
                            ==> #[trigger] final(self).spec_entries()[i]
                            == old(self).spec_entries()[i]
                }),
    {
        let found = self.find_by_id(&pattern_id);
        match found {
            Some(i) => {
                self.bump(i);
                Some(&self.entries[i].pattern)
            },
            None => None,
        }
    }

    /// Bumps the clock and touches entry `i`: new timestamp, one more hit.
    fn bump(&mut self, i: usize)
        requires
            old(self).wf(),
            i < old(self).spec_entries().len(),
        ensures
            final(self).wf(),
            final(self).spec_max_patterns() == old(self).spec_max_patterns(),
            final(self).spec_max_memory() == old(self).spec_max_memory(),
            final(self).spec_memory_usage() == old(self).spec_memory_usage(),
            final(self).spec_entries().len() == old(self).spec_entries().len(),
            final(self).spec_entries()[i as int].pattern == old(self).spec_entries()[
                i as int
            ].pattern,
            final(self).spec_entries()[i as int].hits == if old(self).spec_entries()[i as int].hits
                < usize::MAX {
                old(self).spec_entries()[i as int].hits + 1
            } else {
                usize::MAX as int
            },
            final(self).spec_entries()[i as int].last_used == final(self).spec_time(),
            final(self).spec_time() == if old(self).spec_time() < u64::MAX {
                old(self).spec_time() + 1
            } else {
                u64::MAX as int
            },
            forall|k: int|
                0 <= k < old(self).spec_entries().len() && k != i
                    ==> #[trigger] final(self).spec_entries()[k] == old(self).spec_entries()[k],
    {
        let ghost pre = *old(self);
        self.current_time = if self.current_time < u64::MAX {
            self.current_time + 1
        } else {
            u64::MAX
        };
        let mut e = self.entries.remove(i);
        e.last_used = self.current_time;
        e.hits = if e.hits < usize::MAX {
            e.hits + 1
        } else {
            usize::MAX
        };
        self.entries.insert(i, e);
        proof {
            assert(self.spec_entries() =~= pre.spec_entries().update(i as int, e));
            lemma_sum_mem_update(pre.spec_entries(), self.spec_entries(), i as int);
            assert forall|a: int, b: int|
                0 <= a < b < self.spec_entries().len() implies #[trigger] self.spec_entries()[
                a
            ].pattern.pattern_id.spec_id() != #[trigger] self.spec_entries()[
                b
            ].pattern.pattern_id.spec_id() by {
                assert(self.spec_entries()[a].pattern.pattern_id
                    == pre.spec_entries()[a].pattern.pattern_id);
                assert(self.spec_entries()[b].pattern.pattern_id
                    == pre.spec_entries()[b].pattern.pattern_id);
            }
        }
    }

    /// Scans for a pattern whose first operation carries this signature; on a
    /// hit, bumps that entry and returns its id. The scan is in insertion
    /// order, so equal signatures find the same pattern.
    pub fn find_matching_pattern(&mut self, signature: &PatternSignature) -> (r: Option<PatternId>)
        requires
            old(self).wf(),
        ensures
            final(self).wf(),
            final(self).spec_max_patterns() == old(self).spec_max_patterns(),
            final(self).spec_max_memory() == old(self).spec_max_memory(),
            final(self).spec_memory_usage() == old(self).spec_memory_usage(),
            final(self).spec_entries().len() == old(self).spec_entries().len(),
            ({
                let j = spec_first_match(old(self).spec_entries(), *signature);
                &&& (r is Some <==> j >= 0)
                &&& (j < 0 ==> *final(self) == *old(self))
                &&& (j >= 0 ==> {
                    &&& r->Some_0 == old(self).spec_entries()[j].pattern.pattern_id
                    &&& final(self).spec_entries()[j].pattern == old(self).spec_entries()[j].pattern
                    &&& final(self).spec_entries()[j].hits == if old(self).spec_entries()[j].hits
                        < usize::MAX {
                        old(self).spec_entries()[j].hits + 1
                    } else {
                        usize::MAX as int
                    }
                    &&& final(self).spec_entries()[j].last_used == final(self).spec_time()
                    &&& final(self).spec_time() == if old(self).spec_time() < u64::MAX {
                        old(self).spec_time() + 1
                    } else {
                        u64::MAX as int
                    }
                    &&& forall|i: int|
                        0 <= i < old(self).spec_entries().len() && i != j
                            ==> #[trigger] final(self).spec_entries()[i]
                            == old(self).spec_entries()[i]
                })
            }),
    {
        proof {
            lemma_first_match(old(self).spec_entries(), *signature);
        }
        let ghost s = self.spec_entries();
        let mut i: usize = 0;
        while i < self.entries.len()
            invariant
                old(self).wf(),
                *self == *old(self),
                s == self.spec_entries(),
                i <= s.len(),
                forall|k: int|
                    0 <= k < i ==> !(#[trigger] s[k].pattern.operations@.len() > 0
                        && spec_sig_matches(s[k].pattern.operations@[0], *signature)),
            decreases self.entries.len() - i,
        {
            let ops = &self.entries[i].pattern.operations;
            if ops.len() > 0 {
                if desc_matches(&ops[0], signature) {
                    proof {
                        lemma_first_match_at(s, *signature, i as int);
                    }
                    let id = self.entries[i].pattern.pattern_id;
                    self.bump(i);
                    return Some(id);
                }
            }
            i += 1;
        }
        proof {
            lemma_first_match_none(s, *signature);
        }
        None
    }

    /// Clears every slot and resets the clock and the charge.
    pub fn clear(&mut self)
        ensures
            final(self).wf(),
            final(self).spec_entries().len() == 0,
            final(self).spec_time() == 0,
            final(self).spec_memory_usage() == 0,
            final(self).spec_max_patterns() == old(self).spec_max_patterns(),
            final(self).spec_max_memory() == old(self).spec_max_memory(),
    {
        self.entries.clear();
        self.current_memory_usage = 0;
        self.current_time = 0;
    }

    /// Index of the least-recently-used entry.
    fn lru_index(&self) -> (r: usize)
        requires
            self.spec_entries().len() > 0,
        ensures
            r == spec_lru_index(self.spec_entries()),
    {
        let ghost s = self.spec_entries();
        let mut best: usize = 0;
        let mut i: usize = 1;
        proof {
            assert(s.subrange(0, 1).drop_last() =~= Seq::<CacheEntry>::empty());
            assert(s.subrange(0, 1).last() == s[0]);
        }
        while i < self.entries.len()
            invariant
                1 <= i <= s.len(),
                s == self.spec_entries(),
                best < i,
                best == spec_lru_index(s.subrange(0, i as int)),
            decreases self.entries.len() - i,
        {
            proof {
                assert(s.subrange(0, i + 1).drop_last() =~= s.subrange(0, i as int));
                assert(s.subrange(0, i + 1).last() == s[i as int]);
                assert(s.subrange(0, i as int)[best as int] == s[best as int]);
            }
            if self.entries[i].last_used < self.entries[best].last_used {
                best = i;
            }
            i += 1;
        }
        proof {
            assert(s.subrange(0, s.len() as int) =~= s);
        }
        best
    }

    /// Stores a pattern. A record under the same id is replaced. If the
    /// memory budget would be exceeded, least-recently-used entries are
    /// evicted until the new record fits; if the count cap is reached, the
    /// least-recently-used entry goes. The store is refused exactly when the
    /// record alone exceeds the whole budget, or the count cap is zero — and
    /// the evictions already performed stand, as recorded below.
    pub fn store_pattern(&mut self, pattern: OperationPattern) -> (r: Result<(), WasmError>)
        requires
            old(self).wf(),
            1 <= pattern.estimated_speedup <= 1000000000,
        ensures
            final(self).wf(),
            final(self).spec_max_patterns() == old(self).spec_max_patterns(),
            final(self).spec_max_memory() == old(self).spec_max_memory(),
            ({
                let j = spec_id_index(old(self).spec_entries(), pattern.pattern_id.spec_id());
                let base = if j >= 0 {
                    old(self).spec_entries().remove(j)
                } else {
                    old(self).spec_entries()
                };
                let after_mem = spec_evict_mem(
                    base,
                    pattern.total_memory_needed as int,
                    old(self).spec_max_memory() as int,
                );
                &&& (r is Ok <==> pattern.total_memory_needed <= old(self).spec_max_memory()
                    && old(self).spec_max_patterns() > 0)
                &&& (r is Err ==> r == Err::<(), WasmError>(WasmError::OutOfMemory)
                    && final(self).spec_entries() == after_mem)
                &&& (r is Ok ==> {
                    let kept = spec_evict_count(after_mem, old(self).spec_max_patterns() as int);
                    &&& final(self).spec_entries().len() == kept.len() + 1
                    &&& final(self).spec_entries().drop_last() == kept
                    &&& final(self).spec_entries().last().pattern == pattern
                    &&& final(self).spec_entries().last().hits == 0
                    &&& final(self).spec_entries().last().last_used == final(self).spec_time()
                })
            }),
    {
        let ghost pre = *old(self);
        let ghost id = pattern.pattern_id.spec_id();
        let needed = pattern.total_memory_needed;
        proof {
            lemma_id_index(pre.spec_entries(), id);
        }
        let dup = self.find_by_id(&pattern.pattern_id);
        match dup {
            Some(j) => {
                proof {
                    lemma_sum_mem_bound(pre.spec_entries(), j as int);
                }
                let e = self.entries.remove(j);
                self.current_memory_usage = self.current_memory_usage
                    - e.pattern.total_memory_needed;
                proof {
                    lemma_sum_mem_remove(pre.spec_entries(), j as int);
                    assert(spec_id_index(pre.spec_entries(), id) == j as int) by {
                        let k = spec_id_index(pre.spec_entries(), id);
                        if k != j as int && k >= 0 {
                            assert(pre.spec_entries()[k].pattern.pattern_id.spec_id() == id);
                        }
                        if k == -1 {
                            assert(pre.spec_entries()[j as int].pattern.pattern_id.spec_id()
                                == id);
                        }
                    }
                    lemma_remove_wf(pre.spec_entries(), j as int);
                    assert forall|k: int|
                        0 <= k < self.spec_entries().len() implies #[trigger] self.spec_entries()[
                        k
                    ].pattern.pattern_id.spec_id() != id by {
                        if k < j as int {
                            assert(self.spec_entries()[k] == pre.spec_entries()[k]);
                        } else {
                            assert(self.spec_entries()[k] == pre.spec_entries()[k + 1]);
                        }
                    }
                }
            },
            None => {
                proof {
                    lemma_id_index(pre.spec_entries(), id);
                }
            },
        }
        let ghost base = self.spec_entries();
        proof {
            lemma_sum_mem_nonneg(base);
        }
        while needed > self.max_memory_usage - self.current_memory_usage
            && self.entries.len() > 0
            invariant
                needed <= usize::MAX,
                self.spec_max_memory() == pre.spec_max_memory(),
                self.spec_max_patterns() == pre.spec_max_patterns(),
                self.spec_time() == pre.spec_time(),
                cache_entries_wf(self.spec_entries()),
                forall|k: int|
                    0 <= k < self.spec_entries().len() ==> #[trigger] self.spec_entries()[
                    k
                ].pattern.pattern_id.spec_id() != id,
                self.spec_memory_usage() == spec_sum_mem(self.spec_entries()),
                self.spec_memory_usage() <= self.spec_max_memory(),
                self.spec_entries().len() <= self.spec_max_patterns(),
                spec_evict_mem(base, needed as int, pre.spec_max_memory() as int)
                    == spec_evict_mem(
                    self.spec_entries(),
                    needed as int,
                    pre.spec_max_memory() as int,
                ),
            decreases self.entries.len(),
        {
            proof {
                lemma_lru_index(self.spec_entries());
            }
            let li = self.lru_index();
            let ghost s_before = self.spec_entries();
            proof {
                lemma_sum_mem_bound(s_before, li as int);
            }
            let e = self.entries.remove(li);
            self.current_memory_usage = self.current_memory_usage
                - e.pattern.total_memory_needed;
            proof {
                lemma_sum_mem_remove(s_before, li as int);
                lemma_sum_mem_nonneg(self.spec_entries());
                lemma_remove_preserves(s_before, li as int, id);
            }
        }
        proof {
            assert(spec_evict_mem(
                self.spec_entries(),
                needed as int,
                pre.spec_max_memory() as int,
            ) == self.spec_entries());
        }
        if needed > self.max_memory_usage - self.current_memory_usage {
            return Err(WasmError::OutOfMemory);
        }
        if self.entries.len() >= self.max_patterns {
            if self.entries.len() == 0 {
                return Err(WasmError::OutOfMemory);
            }
            proof {
                lemma_lru_index(self.spec_entries());
            }
            let li = self.lru_index();
            let ghost s_before = self.spec_entries();
            proof {
                lemma_sum_mem_bound(s_before, li as int);
            }
            let e = self.entries.remove(li);
            self.current_memory_usage = self.current_memory_usage
                - e.pattern.total_memory_needed;
            proof {
                lemma_sum_mem_remove(s_before, li as int);
                lemma_sum_mem_nonneg(self.spec_entries());
                lemma_remove_preserves(s_before, li as int, id);
            }
        }
        self.current_time = if self.current_time < u64::MAX {
            self.current_time + 1
        } else {
            u64::MAX
        };
        let entry = CacheEntry { pattern, hits: 0, last_used: self.current_time };
        let ghost s_before = self.spec_entries();
        self.entries.push(entry);
        self.current_memory_usage = self.current_memory_usage + needed;
        proof {
            assert(self.spec_entries().drop_last() =~= s_before);
            assert forall|a: int, b: int|
                0 <= a < b < self.spec_entries().len() implies #[trigger] self.spec_entries()[
                a
            ].pattern.pattern_id.spec_id() != #[trigger] self.spec_entries()[
                b
            ].pattern.pattern_id.spec_id() by {
                if b == self.spec_entries().len() - 1 {
                    assert(self.spec_entries()[a] == s_before[a]);
                    assert(s_before[a].pattern.pattern_id.spec_id() != id);
                }
            }
        }
        Ok(())
    }

    /// Re-estimates a pattern's speedup from a measured execution time by an
    /// exponential moving average; an unknown id or a zero time changes
    /// nothing.
    pub fn update_pattern_stats(&mut self, pattern_id: PatternId, execution_time_us: u64)
        requires
            old(self).wf(),
        ensures
            final(self).wf(),
            final(self).spec_max_patterns() == old(self).spec_max_patterns(),
            final(self).spec_max_memory() == old(self).spec_max_memory(),
            final(self).spec_time() == old(self).spec_time(),
            final(self).spec_entries().len() == old(self).spec_entries().len(),
            ({
                let j = spec_id_index(old(self).spec_entries(), pattern_id.spec_id());
                &&& (j < 0 || execution_time_us == 0 ==> *final(self) == *old(self))
                &&& (j >= 0 && execution_time_us > 0 ==> {
                    let s = old(self).spec_entries()[j].pattern.estimated_speedup;
                    &&& final(self).spec_entries()[j].pattern.estimated_speedup == (9 * s + (
                    1000000int / s as int)) / 10
                    &&& final(self).spec_entries()[j].pattern.pattern_id == old(
                        self,
                    ).spec_entries()[j].pattern.pattern_id
                    &&& final(self).spec_entries()[j].pattern.total_memory_needed == old(
                        self,
                    ).spec_entries()[j].pattern.total_memory_needed
                    &&& final(self).spec_entries()[j].hits == old(self).spec_entries()[j].hits
                    &&& final(self).spec_entries()[j].last_used == old(self).spec_entries()[
                        j
                    ].last_used
                    &&& forall|i: int|
                        0 <= i < old(self).spec_entries().len() && i != j
                            ==> #[trigger] final(self).spec_entries()[i] == old(
                            self,
                        ).spec_entries()[i]
                })
            }),
    {
        proof {
            lemma_id_index(old(self).spec_entries(), pattern_id.spec_id());
        }
        if execution_time_us == 0 {
            return ;
        }
        let found = self.find_by_id(&pattern_id);
        match found {
            Some(i) => {
                let ghost pre = *old(self);
                proof {
                    assert(spec_id_index(pre.spec_entries(), pattern_id.spec_id()) == i as int)
                        by {
                        let k = spec_id_index(pre.spec_entries(), pattern_id.spec_id());
                        if k != i as int && k >= 0 {
                            assert(pre.spec_entries()[k].pattern.pattern_id.spec_id()
                                == pattern_id.spec_id());
                        }
                        if k == -1 {
                            assert(pre.spec_entries()[i as int].pattern.pattern_id.spec_id()
                                == pattern_id.spec_id());
                        }
                    }
                }
                let mut e = self.entries.remove(i);
                let s = e.pattern.estimated_speedup;
                let updated = (9 * s + 1000000 / s) / 10;
                e.pattern.estimated_speedup = updated;
                self.entries.insert(i, e);
                proof {
                    assert(1000000u64 / s <= 1000000) by (nonlinear_arith)
                        requires
                            s >= 1,
                    ;
                    assert(1 <= updated <= 1000000000) by {
                        if s >= 2 {
                            assert(9 * s >= 18);
                        } else {
                            assert(s == 1);
                            assert(1000000u64 / s == 1000000) by (nonlinear_arith)
                                requires
                                    s == 1,
                            ;
                        }
                    }
                    assert(self.spec_entries() =~= pre.spec_entries().update(i as int, e));
                    lemma_sum_mem_update(pre.spec_entries(), self.spec_entries(), i as int);
                    assert forall|a: int, b: int|
                        0 <= a < b < self.spec_entries().len() implies #[trigger] self.spec_entries()[
                        a
                    ].pattern.pattern_id.spec_id() != #[trigger] self.spec_entries()[
                        b
                    ].pattern.pattern_id.spec_id() by {
                        assert(self.spec_entries()[a].pattern.pattern_id
                            == pre.spec_entries()[a].pattern.pattern_id);
                        assert(self.spec_entries()[b].pattern.pattern_id
                            == pre.spec_entries()[b].pattern.pattern_id);
                    }
                }
            },
            None => {},
        }
    }

    /// Cache statistics: slot count, total hits (clamped), number of hot
    /// patterns (more than one hit), and the charged bytes.
    pub fn cache_stats(&self) -> (r: PatternCacheStats)
        requires
            self.wf(),
        ensures
            r.spec_pattern_count() == self.spec_entries().len(),
            r.spec_total_hits() == if spec_sum_hits(self.spec_entries()) <= usize::MAX {
                spec_sum_hits(self.spec_entries())
            } else {
                usize::MAX as int
            },
            r.spec_hot_patterns() == spec_count_hot(self.spec_entries()),
            r.spec_memory_usage_bytes() == self.spec_memory_usage(),
    {
        let n = self.entries.len();
        let mut total: usize = 0;
        let mut hot: usize = 0;
        let mut i: usize = 0;
        proof {
            assert(self.spec_entries().subrange(0, 0) =~= Seq::<CacheEntry>::empty());
        }
        while i < n
            invariant
                i <= n,
                n == self.spec_entries().len(),
                total == if spec_sum_hits(self.spec_entries().subrange(0, i as int))
                    <= usize::MAX {
                    spec_sum_hits(self.spec_entries().subrange(0, i as int))
                } else {
                    usize::MAX as int
                },
                hot == spec_count_hot(self.spec_entries().subrange(0, i as int)),
                hot <= i,
            decreases n - i,
        {
            proof {
                assert(self.spec_entries().subrange(0, i + 1).drop_last()
                    =~= self.spec_entries().subrange(0, i as int));
                lemma_sum_hits_nonneg(self.spec_entries().subrange(0, i as int));
            }
            let h = self.entries[i].hits;
            total = if total <= usize::MAX - h {
                total + h
            } else {
                usize::MAX
            };
            if h > 1 {
                hot = hot + 1;
            }
            i += 1;
        }
        proof {
            assert(self.spec_entries().subrange(0, n as int) =~= self.spec_entries());
        }
        PatternCacheStats {
            pattern_count: n,
            total_hits: total,
            hot_patterns: hot,
            memory_usage_bytes: self.current_memory_usage,
        }
    }
}

/// Total hits across all entries.
pub open spec fn spec_sum_hits(s: Seq<CacheEntry>) -> int
    decreases s.len(),
{
    if s.len() == 0 {
        0
    } else {
        spec_sum_hits(s.drop_last()) + s.last().hits
    }
}

/// Hit totals are non-negative.
pub proof fn lemma_sum_hits_nonneg(s: Seq<CacheEntry>)
    ensures
        spec_sum_hits(s) >= 0,
    decreases s.len(),
{
    if s.len() > 0 {
        lemma_sum_hits_nonneg(s.drop_last());
    }
}

/// Number of entries hit more than once.
pub open spec fn spec_count_hot(s: Seq<CacheEntry>) -> int
    decreases s.len(),
{
    if s.len() == 0 {
        0
    } else {
        spec_count_hot(s.drop_last()) + if s.last().hits > 1 {
            1int
        } else {
            0int
        }
    }
}

/// Cache performance statistics.
pub struct PatternCacheStats {
    pattern_count: usize,
    total_hits: usize,
    hot_patterns: usize,
    memory_usage_bytes: usize,
}

impl PatternCacheStats {
    /// The slot count, in specifications.
    pub closed spec fn spec_pattern_count(&self) -> usize {
        self.pattern_count
    }

    /// The clamped hit total, in specifications.
    pub closed spec fn spec_total_hits(&self) -> usize {
        self.total_hits
    }

    /// The hot-pattern count, in specifications.
    pub closed spec fn spec_hot_patterns(&self) -> usize {
        self.hot_patterns
    }

    /// The charged bytes, in specifications.
    pub closed spec fn spec_memory_usage_bytes(&self) -> usize {
        self.memory_usage_bytes
    }

    pub fn pattern_count(&self) -> (r: usize)
        ensures
            r == self.spec_pattern_count(),
    {
        self.pattern_count
    }

    pub fn total_hits(&self) -> (r: usize)
        ensures
            r == self.spec_total_hits(),
    {
        self.total_hits
    }

    pub fn hot_patterns(&self) -> (r: usize)
        ensures
            r == self.spec_hot_patterns(),
    {
        self.hot_patterns
    }

    pub fn memory_usage_bytes(&self) -> (r: usize)
        ensures
            r == self.spec_memory_usage_bytes(),
    {
        self.memory_usage_bytes
    }
}

/// Builder that accumulates operations and allocation requirements into a
/// pattern.
pub struct PatternBuilder {
    operations: Vec<OperationDesc>,
    allocations: Vec<AllocationRequirement>,
    total_memory: usize,
}

impl PatternBuilder {
    /// The accumulated operations, in specifications.
    pub closed spec fn spec_operations(&self) -> Seq<OperationDesc> {
        self.operations@
    }

    /// The accumulated requirements, in specifications.
    pub closed spec fn spec_allocations(&self) -> Seq<AllocationRequirement> {
        self.allocations@
    }

    /// The accumulated byte total, in specifications.
    pub closed spec fn spec_total_memory(&self) -> usize {
        self.total_memory
    }

    pub fn new() -> (r: PatternBuilder)
        ensures
            r.spec_operations().len() == 0,
            r.spec_allocations().len() == 0,
            r.spec_total_memory() == 0,
    {
        PatternBuilder { operations: Vec::new(), allocations: Vec::new(), total_memory: 0 }
    }

    /// Appends an operation to the pattern.
    pub fn add_operation(&mut self, operation: OperationDesc)
        ensures
            final(self).spec_operations() == old(self).spec_operations().push(operation),
            final(self).spec_allocations() == old(self).spec_allocations(),
            final(self).spec_total_memory() == old(self).spec_total_memory(),
    {
        self.operations.push(operation);
    }

    /// Appends an allocation requirement and charges its size.
    pub fn add_allocation(&mut self, allocation: AllocationRequirement)
        requires
            old(self).spec_total_memory() + allocation.size_bytes <= usize::MAX,
        ensures
            final(self).spec_operations() == old(self).spec_operations(),
            final(self).spec_allocations() == old(self).spec_allocations().push(allocation),
            final(self).spec_total_memory() == old(self).spec_total_memory()
                + allocation.size_bytes,
    {
        self.total_memory = self.total_memory + allocation.size_bytes;
        self.allocations.push(allocation);
    }

    /// Builds the pattern: its id is the hash of the operation sequence, its
    /// speedup the complexity-based estimate.
    pub fn build(self, cache: &PatternCache) -> (r: OperationPattern)
        ensures
            r.pattern_id.spec_id() == spec_hash_ops(self.spec_operations()),
            r.operations@ == self.spec_operations(),
            r.allocations@ == self.spec_allocations(),
            r.total_memory_needed == self.spec_total_memory(),
            r.estimated_speedup == spec_estimated_speedup(self.spec_operations()),
            1500 <= r.estimated_speedup <= 4500,
    {
        let pattern_id = cache.hash_operation_sequence(&self.operations);
        let estimated_speedup = calculate_estimated_speedup(&self.operations);
        OperationPattern {
            pattern_id,
            operations: self.operations,
            allocations: self.allocations,
            total_memory_needed: self.total_memory,
            estimated_speedup,
        }
    }
}

/// Input elements of one descriptor: the summed products of its input
/// shapes, clamped to the estimation cap.
pub open spec fn spec_desc_elements(d: OperationDesc) -> int
    decreases d.input_shapes@.len(),
{
    spec_shapes_elements(d.input_shapes.deep_view())
}

/// Clamp used while estimating speedups; any count beyond it saturates the
/// estimate anyway.
pub open spec fn spec_elem_clamp() -> int {
    0x10000000000000
}

/// Summed products of a list of shapes, each product and the running sum
/// clamped.
pub open spec fn spec_shapes_elements(shapes: Seq<Seq<usize>>) -> int
    decreases shapes.len(),
{
    if shapes.len() == 0 {
        0
    } else {
        clamp_elem(
            spec_shapes_elements(shapes.drop_last()) + clamp_elem(
                crate::shape::spec_product(shapes.last()),
            ),
        )
    }
}

/// Clamps a count to the estimation cap.
pub open spec fn clamp_elem(x: int) -> int {
    if x > spec_elem_clamp() {
        spec_elem_clamp()
    } else {
        x
    }
}

/// Summed clamped element counts of a descriptor list.
pub open spec fn spec_ops_elements(descs: Seq<OperationDesc>) -> int
    decreases descs.len(),
{
    if descs.len() == 0 {
        0
    } else {
        clamp_elem(spec_ops_elements(descs.drop_last()) + spec_desc_elements(descs.last()))
    }
}

/// Estimated speedup of a pattern in thousandths: one and a half as a base,
/// a tenth per operation, and one per thousand input elements, capped at
/// four and a half.
pub open spec fn spec_estimated_speedup(descs: Seq<OperationDesc>) -> int {
    let raw = 1500 + 100 * descs.len() + spec_ops_elements(descs) / 1000;
    if raw > 4500 {
        4500
    } else {
        raw
    }
}

/// Estimated speedup of a pattern, from its operation count and input sizes.
pub fn calculate_estimated_speedup(operations: &Vec<OperationDesc>) -> (r: u64)
    ensures
        r == spec_estimated_speedup(operations@),
        1500 <= r <= 4500,
{
    let mut elems: u64 = 0;
    let mut i: usize = 0;
    proof {
        assert(operations@.subrange(0, 0) =~= Seq::<OperationDesc>::empty());
    }
    while i < operations.len()
        invariant
            i <= operations.len(),
            elems == spec_ops_elements(operations@.subrange(0, i as int)),
            0 <= elems <= spec_elem_clamp(),
        decreases operations.len() - i,
    {
        proof {
            assert(operations@.subrange(0, i + 1).drop_last() =~= operations@.subrange(
                0,
                i as int,
            ));
        }
        let d = shape_list_elements(&operations[i].input_shapes);
        elems = if elems + d > 0x10000000000000 {
            0x10000000000000
        } else {
            elems + d
        };
        i += 1;
    }
    proof {
        assert(operations@.subrange(0, operations@.len() as int) =~= operations@);
        lemma_ops_elements_nonneg(operations@);
    }
    let n_ops = operations.len() as u64;
    let raw_base = 1500u64.checked_add(100u64.checked_mul(n_ops).unwrap_or(u64::MAX)).unwrap_or(
        u64::MAX,
    );
    let raw = raw_base.checked_add(elems / 1000).unwrap_or(u64::MAX);
    if raw > 4500 {
        4500
    } else {
        raw
    }
}

/// Element totals are non-negative.
pub proof fn lemma_ops_elements_nonneg(descs: Seq<OperationDesc>)
    ensures
        0 <= spec_ops_elements(descs) <= spec_elem_clamp(),
    decreases descs.len(),
{
    if descs.len() > 0 {
        lemma_ops_elements_nonneg(descs.drop_last());
        lemma_shapes_elements_nonneg(descs.last().input_shapes.deep_view());
    }
}

/// Shape element totals are non-negative and clamped.
pub proof fn lemma_shapes_elements_nonneg(shapes: Seq<Seq<usize>>)
    ensures
        0 <= spec_shapes_elements(shapes) <= spec_elem_clamp(),
    decreases shapes.len(),
{
    if shapes.len() > 0 {
        lemma_shapes_elements_nonneg(shapes.drop_last());
        crate::shape::lemma_product_nonneg(shapes.last());
    }
}

/// Summed clamped products of one descriptor's input shapes.
fn shape_list_elements(shapes: &Vec<Vec<usize>>) -> (r: u64)
    ensures
        r == spec_shapes_elements(shapes.deep_view()),
        0 <= r <= spec_elem_clamp(),
{
    let mut acc: u64 = 0;
    let mut i: usize = 0;
    proof {
        assert(shapes.deep_view().subrange(0, 0) =~= Seq::<Seq<usize>>::empty());
    }
    while i < shapes.len()
        invariant
            i <= shapes.len(),
            shapes.deep_view().len() == shapes@.len(),
            acc == spec_shapes_elements(shapes.deep_view().subrange(0, i as int)),
            0 <= acc <= spec_elem_clamp(),
        decreases shapes.len() - i,
    {
        proof {
            assert(shapes.deep_view().subrange(0, i + 1).drop_last() =~= shapes.deep_view().subrange(
                0,
                i as int,
            ));
            assert(shapes.deep_view().subrange(0, i + 1).last() == shapes.deep_view()[i as int]);
            assert(shapes.deep_view()[i as int] == shapes@[i as int]@);
        }
        let p = clamped_product(&shapes[i]);
        acc = if acc + p > 0x10000000000000 {
            0x10000000000000
        } else {
            acc + p
        };
        i += 1;
    }
    proof {
        assert(shapes.deep_view().subrange(0, shapes.deep_view().len() as int)
            =~= shapes.deep_view());
    }
    acc
}

/// Product of a shape's extents, clamped to the estimation cap.
fn clamped_product(dims: &Vec<usize>) -> (r: u64)
    ensures
        r == clamp_elem(crate::shape::spec_product(dims@)),
        0 <= r <= spec_elem_clamp(),
{
    let mut acc: u64 = 1;
    let mut i: usize = 0;
    proof {
        assert(dims@.subrange(0, 0) =~= Seq::<usize>::empty());
    }
    while i < dims.len()
        invariant
            i <= dims.len(),
            acc == clamp_elem(crate::shape::spec_product(dims@.subrange(0, i as int))),
            0 <= acc <= spec_elem_clamp(),
        decreases dims.len() - i,
    {
        proof {
            assert(dims@.subrange(0, i + 1).drop_last() =~= dims@.subrange(0, i as int));
            crate::shape::lemma_product_nonneg(dims@.subrange(0, i as int));
        }
        let d = dims[i];
        let ghost p_old = crate::shape::spec_product(dims@.subrange(0, i as int));
        let ghost p_new = crate::shape::spec_product(dims@.subrange(0, i + 1));
        let ghost cap = spec_elem_clamp();
        proof {
            assert(p_new == p_old * d);
            crate::shape::lemma_product_nonneg(dims@.subrange(0, i + 1));
        }
        if d == 0 {
            acc = 0;
            proof {
                assert(p_new == 0) by (nonlinear_arith)
                    requires
                        p_new == p_old * 0,
                ;
            }
        } else if acc > 0x10000000000000 / (d as u64) {
            proof {
                let q = cap / d as int;
                vstd::arithmetic::div_mod::lemma_fundamental_div_mod(cap, d as int);
                assert(acc as int > q);
                if p_old > cap {
                    assert(p_new >= p_old) by (nonlinear_arith)
                        requires
                            p_new == p_old * d,
                            d >= 1,
                            p_old >= 0,
                    ;
                } else {
                    assert(p_old == acc as int);
                    assert(p_new > cap) by (nonlinear_arith)
                        requires
                            p_new == p_old * d,
                            p_old >= q + 1,
                            cap == d as int * q + cap % (d as int),
                            0 <= cap % (d as int) < d as int,
                            d >= 1,
                    ;
                }
            }
            acc = 0x10000000000000;
        } else {
            proof {
                let q = cap / d as int;
                vstd::arithmetic::div_mod::lemma_fundamental_div_mod(cap, d as int);
                if p_old > cap {
                    assert(acc as int == cap);
                    assert(cap <= q);
                    assert(q <= cap) by (nonlinear_arith)
                        requires
                            cap == d as int * q + cap % (d as int),
                            0 <= cap % (d as int) < d as int,
                            d >= 1,
                            cap >= 1,
                    ;
                    assert(d == 1) by (nonlinear_arith)
                        requires
                            cap == d as int * q + cap % (d as int),
                            0 <= cap % (d as int) < d as int,
                            d >= 1,
                            q == cap,
                            cap >= 1,
                    ;
                    assert(p_new == p_old) by (nonlinear_arith)
                        requires
                            p_new == p_old * d,
                            d == 1,
                    ;
                } else {
                    assert(p_old == acc as int);
                    assert(p_new == acc as int * d as int && p_new <= cap) by (nonlinear_arith)
                        requires
                            p_new == p_old * d,
                            p_old == acc as int,
                            acc as int <= q,
                            cap == d as int * q + cap % (d as int),
                            0 <= cap % (d as int) < d as int,
                            d >= 1,
                            p_old >= 0,
                    ;
                }
            }
            acc = acc * (d as u64);
        }
        i += 1;
    }
    proof {
        assert(dims@.subrange(0, dims@.len() as int) =~= dims@);
    }
    acc
}

/// Replacing an entry with one of the same charge keeps the sum.
proof fn lemma_sum_mem_update(pre: Seq<CacheEntry>, post: Seq<CacheEntry>, i: int)
    requires
        0 <= i < pre.len(),
        post == pre.update(i, post[i]),
        post[i].pattern.total_memory_needed == pre[i].pattern.total_memory_needed,
    ensures
        spec_sum_mem(post) == spec_sum_mem(pre),
    decreases pre.len(),
{
    if i == pre.len() - 1 {
        assert(post.drop_last() =~= pre.drop_last());
    } else {
        assert(post.drop_last() =~= pre.drop_last().update(i, post[i]));
        lemma_sum_mem_update(pre.drop_last(), post.drop_last(), i);
        assert(post.last() == pre.last());
    }
}

/// If the prefix before `i` holds no match and `i` matches, then `i` is the
/// first match.
proof fn lemma_first_match_at(s: Seq<CacheEntry>, sig: PatternSignature, i: int)
    requires
        0 <= i < s.len(),
        s[i].pattern.operations@.len() > 0,
        spec_sig_matches(s[i].pattern.operations@[0], sig),
        forall|k: int|
            0 <= k < i ==> !(#[trigger] s[k].pattern.operations@.len() > 0 && spec_sig_matches(
                s[k].pattern.operations@[0],
                sig,
            )),
    ensures
        spec_first_match(s, sig) == i,
    decreases i,
{
    if i == 0 {
    } else {
        let rest = s.subrange(1, s.len() as int);
        assert forall|k: int| 0 <= k < i - 1 implies !(#[trigger] rest[k].pattern.operations@.len()
            > 0 && spec_sig_matches(rest[k].pattern.operations@[0], sig)) by {
            assert(rest[k] == s[k + 1]);
        }
        assert(rest[i - 1] == s[i]);
        lemma_first_match_at(rest, sig, i - 1);
        assert(!(s[0].pattern.operations@.len() > 0 && spec_sig_matches(
            s[0].pattern.operations@[0],
            sig,
        )));
    }
}

/// If no entry matches, the first-match index is -1.
proof fn lemma_first_match_none(s: Seq<CacheEntry>, sig: PatternSignature)
    requires
        forall|k: int|
            0 <= k < s.len() ==> !(#[trigger] s[k].pattern.operations@.len() > 0
                && spec_sig_matches(s[k].pattern.operations@[0], sig)),
    ensures
        spec_first_match(s, sig) == -1,
    decreases s.len(),
{
    if s.len() > 0 {
        let rest = s.subrange(1, s.len() as int);
        assert forall|k: int| 0 <= k < rest.len() implies !(
        #[trigger] rest[k].pattern.operations@.len() > 0 && spec_sig_matches(
            rest[k].pattern.operations@[0],
            sig,
        )) by {
            assert(rest[k] == s[k + 1]);
        }
        lemma_first_match_none(rest, sig);
    }
}

} // verus!
