//! Bump arena for temporary tensors: 16-byte-aligned allocation, scoped
//! checkpoint/restore, growth capped by the linear-memory ceiling.

use vstd::prelude::*;
use crate::utils::{spec_align_up, lemma_align_up, spec_ranges_overlap};

verus! {

/// Ceiling for the backing region: 3 GiB, leaving headroom under the 4 GiB
/// linear-memory limit.
pub const MAX_WASM_MEMORY: usize = 3 * 1024 * 1024 * 1024;

/// Alignment required by 128-bit vector loads and stores.
pub const SIMD_ALIGNMENT: usize = 16;

/// Starting capacity of a fresh arena.
pub const INITIAL_ARENA_SIZE: usize = 64 * 1024 * 1024;

/// Largest single allocation the arena accepts.
pub const MAX_ALLOCATION_SIZE: usize = 512 * 1024 * 1024;

/// Why an arena operation was refused.
#[derive(Clone, Copy, Debug, PartialEq, Eq, Structural)]
pub enum ArenaError {
    /// The requested size exceeds the single-allocation cap.
    TooLarge,
    /// Growing far enough would pass the linear-memory ceiling.
    ExceedsWasmCeiling,
    /// The checkpoint id was never handed out or is no longer on the stack.
    InvalidCheckpoint,
    /// The recorded position lies past the bump pointer.
    NonMonotone,
}

impl ArenaError {
    /// Human-readable description of the error.
    pub fn message(&self) -> (r: &'static str)
        ensures
            *self == ArenaError::TooLarge ==> r@ == "Allocation too large"@,
            *self == ArenaError::ExceedsWasmCeiling ==> r@
                == "Arena would exceed WASM memory limit"@,
            *self == ArenaError::InvalidCheckpoint ==> r@ == "Invalid checkpoint ID"@,
            *self == ArenaError::NonMonotone ==> r@ == "Cannot restore to future checkpoint"@,
    {
        match self {
            ArenaError::TooLarge => "Allocation too large",
            ArenaError::ExceedsWasmCeiling => "Arena would exceed WASM memory limit",
            ArenaError::InvalidCheckpoint => "Invalid checkpoint ID",
            ArenaError::NonMonotone => "Cannot restore to future checkpoint",
        }
    }
}

/// Identifier of a checkpoint: its index on the checkpoint stack.
#[derive(Clone, Copy, Debug, PartialEq, Eq, Structural)]
pub struct CheckpointId(usize);

impl CheckpointId {
    /// The stack index, in specifications.
    pub closed spec fn spec_index(self) -> usize {
        self.0
    }

    /// The stack index.
    pub fn index(&self) -> (r: usize)
        ensures
            r == self.spec_index(),
    {
        self.0
    }
}

/// A completed arena allocation: byte offset into the arena and the size the
/// caller asked for.
#[derive(Clone, Copy, Debug, PartialEq, Eq, Structural)]
pub struct ArenaOffset {
    offset: usize,
    size: usize,
}

impl ArenaOffset {
    /// The byte offset, in specifications.
    pub closed spec fn spec_offset(self) -> usize {
        self.offset
    }

    /// The requested size, in specifications.
    pub closed spec fn spec_size(self) -> usize {
        self.size
    }

    pub fn new(offset: usize, size: usize) -> (r: Self)
        ensures
            r.spec_offset() == offset,
            r.spec_size() == size,
    {
        ArenaOffset { offset, size }
    }

    pub fn offset(&self) -> (r: usize)
        ensures
            r == self.spec_offset(),
    {
        self.offset
    }

    pub fn size(&self) -> (r: usize)
        ensures
            r == self.spec_size(),
    {
        self.size
    }
}

/// Bump allocator over a growable contiguous byte region, with a stack of
/// restore points.
pub struct TempArena {
    memory: Vec<u8>,
    current: usize,
    limit: usize,
    checkpoints: Vec<usize>,
    total_allocated: usize,
}

impl TempArena {
    /// The bump pointer, in specifications.
    pub closed spec fn spec_current(&self) -> usize {
        self.current
    }

    /// The capacity, in specifications.
    pub closed spec fn spec_limit(&self) -> usize {
        self.limit
    }

    /// The checkpoint stack, in specifications.
    pub closed spec fn spec_checkpoints(&self) -> Seq<usize> {
        self.checkpoints@
    }

    /// The running total of aligned bytes handed out, in specifications.
    pub closed spec fn spec_total_allocated(&self) -> usize {
        self.total_allocated
    }

    /// The backing bytes, in specifications.
    pub closed spec fn spec_bytes(&self) -> Seq<u8> {
        self.memory@
    }

    /// Arena invariant: the bump pointer is 16-aligned and within the
    /// capacity, the capacity matches the backing region and respects the
    /// ceiling, and every live checkpoint lies at or below the bump pointer,
    /// the stack non-decreasing.
    pub open spec fn wf(&self) -> bool {
        &&& self.spec_current() % 16 == 0
        &&& self.spec_current() <= self.spec_limit()
        &&& self.spec_limit() == self.spec_bytes().len()
        &&& self.spec_limit() % 16 == 0
        &&& self.spec_limit() <= MAX_WASM_MEMORY
        &&& forall|i: int|
            0 <= i < self.spec_checkpoints().len() ==> #[trigger] self.spec_checkpoints()[i]
                <= self.spec_current() && self.spec_checkpoints()[i] % 16 == 0
        &&& forall|i: int, j: int|
            0 <= i <= j < self.spec_checkpoints().len() ==> #[trigger] self.spec_checkpoints()[i]
                <= #[trigger] self.spec_checkpoints()[j]
    }

    /// A fresh arena: empty, with the initial capacity zero-filled.
    pub fn new() -> (r: TempArena)
        ensures
            r.wf(),
            r.spec_current() == 0,
            r.spec_limit() == INITIAL_ARENA_SIZE,
            r.spec_checkpoints().len() == 0,
            r.spec_total_allocated() == 0,
    {
        let memory = vec![0u8; INITIAL_ARENA_SIZE];
        TempArena {
            memory,
            current: 0,
            limit: INITIAL_ARENA_SIZE,
            checkpoints: Vec::new(),
            total_allocated: 0,
        }
    }

    /// Allocates `size` bytes at 16-byte alignment; see `alloc_aligned` for
    /// the full contract.
    pub fn allocate(&mut self, size: usize) -> (r: Result<ArenaOffset, ArenaError>)
        requires
            old(self).wf(),
        ensures
            final(self).wf(),
            alloc_post(*old(self), *final(self), size, 16, r),
    {
        self.alloc_aligned(size, SIMD_ALIGNMENT)
    }

    /// Allocates `size` bytes aligned to `max(alignment, 16)`. Size zero
    /// returns the sentinel offset without touching the arena; a size above
    /// the single-allocation cap is refused; otherwise the bump pointer is
    /// rounded up to the alignment, the size is rounded up likewise, and the
    /// arena grows if needed — to the larger of twice the capacity and the
    /// capacity plus the aligned size, raised further in the rare case where
    /// an alignment above sixteen pushes the aligned bump pointer past that —
    /// unless the new capacity would pass the ceiling.
    pub fn alloc_aligned(&mut self, size: usize, alignment: usize) -> (r: Result<
        ArenaOffset,
        ArenaError,
    >)
        requires
            old(self).wf(),
            alignment >= 1,
            alignment <= 16 || alignment % 16 == 0,
            alignment <= MAX_WASM_MEMORY,
        ensures
            final(self).wf(),
            alloc_post(*old(self), *final(self), size, if alignment <= 16 { 16int } else { alignment as int }, r),
    {
        let ghost pre = *self;
        if size == 0 {
            return Ok(ArenaOffset::new(0, 0));
        }
        if size > MAX_ALLOCATION_SIZE {
            return Err(ArenaError::TooLarge);
        }
        let eff: usize = if alignment <= SIMD_ALIGNMENT {
            SIMD_ALIGNMENT
        } else {
            alignment
        };
        let ghost effi = eff as int;
        let cur64 = self.current as u64;
        let eff64 = eff as u64;
        let size64 = size as u64;
        let limit64 = self.limit as u64;
        let qc = (cur64 + (eff64 - 1)) / eff64;
        proof {
            lemma_align_up(self.current as int, effi);
            assert(qc == (self.current as int + effi - 1) / effi);
            assert(qc * eff64 == spec_align_up(self.current as int, effi));
        }
        let ac64 = qc * eff64;
        let qs = (size64 + (eff64 - 1)) / eff64;
        proof {
            lemma_align_up(size as int, effi);
            assert(qs == (size as int + effi - 1) / effi);
            assert(qs * eff64 == spec_align_up(size as int, effi));
        }
        let asz64 = qs * eff64;
        if ac64 + asz64 > limit64 {
            let doubled = limit64 * 2;
            let extended = limit64 + asz64;
            let policy = if doubled > extended {
                doubled
            } else {
                extended
            };
            let reach = ac64 + asz64;
            let new_size64 = if policy > reach {
                policy
            } else {
                reach
            };
            if new_size64 > MAX_WASM_MEMORY as u64 {
                return Err(ArenaError::ExceedsWasmCeiling);
            }
            proof {
                assert(usize::MAX >= u32::MAX);
                assert(new_size64 <= usize::MAX as u64);
                lemma_mod16_mul(self.limit as int);
                lemma_mod16_sum(ac64 as int, asz64 as int, effi);
                vstd::arithmetic::div_mod::lemma_add_mod_noop(
                    self.limit as int,
                    asz64 as int,
                    16,
                );
            }
            let new_size = new_size64 as usize;
            self.memory.resize(new_size, 0);
            self.limit = new_size;
        }
        proof {
            lemma_mod16_sum(ac64 as int, asz64 as int, effi);
            assert(usize::MAX >= u32::MAX);
            assert(ac64 + asz64 <= self.limit as u64);
        }
        let offset = ac64 as usize;
        self.current = (ac64 + asz64) as usize;
        let aligned_size = asz64 as usize;
        self.total_allocated = if self.total_allocated <= usize::MAX - aligned_size {
            self.total_allocated + aligned_size
        } else {
            usize::MAX
        };
        proof {
            assert(self.spec_bytes().subrange(0, pre.spec_limit() as int) =~= pre.spec_bytes().subrange(
                0,
                pre.spec_limit() as int,
            ));
            assert(pre.spec_bytes().subrange(0, pre.spec_limit() as int) =~= pre.spec_bytes());
            assert(pre.spec_current() <= self.spec_current());
            assert forall|i: int| 0 <= i < self.spec_checkpoints().len() implies #[trigger] self.spec_checkpoints()[i]
                <= self.spec_current() && self.spec_checkpoints()[i] % 16 == 0 by {
                assert(self.spec_checkpoints()[i] == pre.spec_checkpoints()[i]);
                assert(pre.spec_checkpoints()[i] <= pre.spec_current());
            }
        }
        Ok(ArenaOffset::new(offset, size))
    }

    /// Pushes the bump pointer onto the checkpoint stack and returns its
    /// index.
    pub fn checkpoint(&mut self) -> (r: CheckpointId)
        requires
            old(self).wf(),
        ensures
            final(self).wf(),
            r.spec_index() == old(self).spec_checkpoints().len(),
            final(self).spec_checkpoints() == old(self).spec_checkpoints().push(old(self).spec_current()),
            final(self).spec_current() == old(self).spec_current(),
            final(self).spec_limit() == old(self).spec_limit(),
            final(self).spec_bytes() == old(self).spec_bytes(),
            final(self).spec_total_allocated() == old(self).spec_total_allocated(),
    {
        let id = self.checkpoints.len();
        self.checkpoints.push(self.current);
        proof {
            let pre = *old(self);
            let cps = self.spec_checkpoints();
            assert(cps == pre.spec_checkpoints().push(pre.spec_current()));
            assert forall|i: int| 0 <= i < cps.len() implies #[trigger] cps[i]
                <= self.spec_current() && cps[i] % 16 == 0 by {
                if i < cps.len() - 1 {
                    assert(cps[i] == pre.spec_checkpoints()[i]);
                } else {
                    assert(cps[i] == pre.spec_current());
                }
            }
            assert forall|i: int, j: int| 0 <= i <= j < cps.len() implies #[trigger] cps[i]
                <= #[trigger] cps[j] by {
                if j < cps.len() - 1 {
                    assert(cps[i] == pre.spec_checkpoints()[i]);
                    assert(cps[j] == pre.spec_checkpoints()[j]);
                } else if i < cps.len() - 1 {
                    assert(cps[i] == pre.spec_checkpoints()[i]);
                    assert(cps[j] == pre.spec_current());
                }
            }
        }
        CheckpointId(id)
    }

    /// Rewinds the bump pointer to the recorded position and truncates the
    /// checkpoint stack to `id + 1`. An id that was never handed out, or one
    /// past the end of the stack, is refused; under the arena invariant no
    /// live checkpoint lies past the bump pointer, so a valid id always
    /// succeeds.
    pub fn restore(&mut self, checkpoint: CheckpointId) -> (r: Result<(), ArenaError>)
        requires
            old(self).wf(),
        ensures
            final(self).wf(),
            checkpoint.spec_index() >= old(self).spec_checkpoints().len() ==> r == Err::<
                (),
                ArenaError,
            >(ArenaError::InvalidCheckpoint) && *final(self) == *old(self),
            checkpoint.spec_index() < old(self).spec_checkpoints().len() ==> r == Ok::<
                (),
                ArenaError,
            >(()) && final(self).spec_current() == old(self).spec_checkpoints()[checkpoint.spec_index() as int]
                && final(self).spec_checkpoints() == old(self).spec_checkpoints().subrange(
                0,
                checkpoint.spec_index() + 1,
            ),
            final(self).spec_limit() == old(self).spec_limit(),
            final(self).spec_bytes() == old(self).spec_bytes(),
            final(self).spec_total_allocated() == old(self).spec_total_allocated(),
    {
        if checkpoint.0 >= self.checkpoints.len() {
            return Err(ArenaError::InvalidCheckpoint);
        }
        let restore_point = self.checkpoints[checkpoint.0];
        if restore_point > self.current {
            return Err(ArenaError::NonMonotone);
        }
        self.current = restore_point;
        self.checkpoints.truncate(checkpoint.0 + 1);
        Ok(())
    }

    /// Empties the arena: bump pointer to zero, checkpoint stack cleared,
    /// running total reset. The capacity is kept.
    pub fn reset(&mut self)
        requires
            old(self).wf(),
        ensures
            final(self).wf(),
            final(self).spec_current() == 0,
            final(self).spec_checkpoints().len() == 0,
            final(self).spec_total_allocated() == 0,
            final(self).spec_limit() == old(self).spec_limit(),
            final(self).spec_bytes() == old(self).spec_bytes(),
    {
        self.current = 0;
        self.checkpoints.clear();
        self.total_allocated = 0;
    }

    /// Bytes in use and current capacity.
    pub fn memory_usage(&self) -> (r: (usize, usize))
        ensures
            r.0 == self.spec_current(),
            r.1 == self.spec_limit(),
    {
        (self.current, self.limit)
    }

    /// Running total of aligned bytes handed out since the last reset.
    pub fn total_allocated(&self) -> (r: usize)
        ensures
            r == self.spec_total_allocated(),
    {
        self.total_allocated
    }

    /// Number of live checkpoints.
    pub fn checkpoint_count(&self) -> (r: usize)
        ensures
            r == self.spec_checkpoints().len(),
    {
        self.checkpoints.len()
    }

    /// Bytes still free before the arena would have to grow.
    pub fn available_memory(&self) -> (r: usize)
        requires
            self.wf(),
        ensures
            r == self.spec_limit() - self.spec_current(),
    {
        self.limit - self.current
    }

    /// Whether capacity has passed half the linear-memory ceiling.
    pub fn is_memory_pressure(&self) -> (r: bool)
        ensures
            r == (self.spec_limit() > MAX_WASM_MEMORY / 2),
    {
        self.limit > MAX_WASM_MEMORY / 2
    }

    /// Copies `len` bytes starting at `offset` out of the arena.
    pub fn read_bytes(&self, offset: usize, len: usize) -> (r: Vec<u8>)
        requires
            offset + len <= self.spec_limit(),
            self.wf(),
        ensures
            r@ == self.spec_bytes().subrange(offset as int, offset + len),
    {
        let mut out: Vec<u8> = Vec::new();
        let mut i: usize = 0;
        while i < len
            invariant
                i <= len,
                offset + len <= self.spec_limit(),
                self.wf(),
                out@ =~= self.spec_bytes().subrange(offset as int, offset + i),
            decreases len - i,
        {
            out.push(self.memory[offset + i]);
            proof {
                assert(out@ =~= self.spec_bytes().subrange(offset as int, offset + i + 1));
            }
            i += 1;
        }
        out
    }

    /// Writes `data` into the arena starting at `offset`; everything outside
    /// the written range, and all allocator state, is untouched.
    pub fn write_bytes(&mut self, offset: usize, data: &Vec<u8>)
        requires
            old(self).wf(),
            offset + data@.len() <= old(self).spec_limit(),
        ensures
            final(self).wf(),
            final(self).spec_bytes().len() == old(self).spec_bytes().len(),
            forall|i: int|
                offset <= i < offset + data@.len() ==> final(self).spec_bytes()[i] == data@[i - offset],
            forall|i: int|
                0 <= i < final(self).spec_bytes().len() && !(offset <= i < offset + data@.len())
                    ==> final(self).spec_bytes()[i] == old(self).spec_bytes()[i],
            final(self).spec_current() == old(self).spec_current(),
            final(self).spec_limit() == old(self).spec_limit(),
            final(self).spec_checkpoints() == old(self).spec_checkpoints(),
            final(self).spec_total_allocated() == old(self).spec_total_allocated(),
    {
        let n = data.len();
        let mut i: usize = 0;
        while i < n
            invariant
                i <= n,
                n == data@.len(),
                offset + n <= self.spec_limit(),
                self.wf(),
                self.spec_bytes().len() == old(self).spec_bytes().len(),
                forall|k: int|
                    offset <= k < offset + i ==> self.spec_bytes()[k] == data@[k - offset],
                forall|k: int|
                    0 <= k < self.spec_bytes().len() && !(offset <= k < offset + i)
                        ==> self.spec_bytes()[k] == old(self).spec_bytes()[k],
                self.spec_current() == old(self).spec_current(),
                self.spec_limit() == old(self).spec_limit(),
                self.spec_checkpoints() == old(self).spec_checkpoints(),
                self.spec_total_allocated() == old(self).spec_total_allocated(),
            decreases n - i,
        {
            self.memory.set(offset + i, data[i]);
            i += 1;
        }
    }
}

/// Whether an allocation of `size` bytes at effective alignment `eff` would
/// succeed on this arena: a zero size always does; otherwise the size must be
/// within the single-allocation cap and the aligned range must fit the
/// current capacity or a growth below the ceiling.
pub open spec fn alloc_would_succeed(pre: TempArena, size: usize, eff: int) -> bool {
    let ac = spec_align_up(pre.spec_current() as int, eff);
    let asz = spec_align_up(size as int, eff);
    let policy = if 2 * pre.spec_limit() > pre.spec_limit() + asz {
        2 * pre.spec_limit() as int
    } else {
        pre.spec_limit() + asz
    };
    let grown = if policy > ac + asz {
        policy
    } else {
        ac + asz
    };
    size == 0 || (size <= MAX_ALLOCATION_SIZE && (ac + asz <= pre.spec_limit() || grown
        <= MAX_WASM_MEMORY))
}

/// Full contract of an arena allocation, shared by `alloc` and
/// `alloc_aligned`. `eff` is the effective alignment (at least 16).
pub open spec fn alloc_post(
    pre: TempArena,
    post: TempArena,
    size: usize,
    eff: int,
    r: Result<ArenaOffset, ArenaError>,
) -> bool {
    let ac = spec_align_up(pre.spec_current() as int, eff);
    let asz = spec_align_up(size as int, eff);
    let policy = if 2 * pre.spec_limit() > pre.spec_limit() + asz {
        2 * pre.spec_limit() as int
    } else {
        pre.spec_limit() + asz
    };
    let grown = if policy > ac + asz {
        policy
    } else {
        ac + asz
    };
    &&& (size == 0 ==> r is Ok && r->Ok_0.spec_offset() == 0 && r->Ok_0.spec_size() == 0 && post
        == pre)
    &&& (size > MAX_ALLOCATION_SIZE ==> r == Err::<ArenaOffset, ArenaError>(ArenaError::TooLarge)
        && post == pre)
    &&& (0 < size <= MAX_ALLOCATION_SIZE ==> {
        &&& (r is Ok <==> ac + asz <= pre.spec_limit() || grown <= MAX_WASM_MEMORY)
        &&& (r is Err ==> r == Err::<ArenaOffset, ArenaError>(ArenaError::ExceedsWasmCeiling)
            && post == pre)
        &&& (r is Ok ==> {
            let off = r->Ok_0;
            &&& off.spec_offset() == ac
            &&& off.spec_size() == size
            &&& off.spec_offset() % 16 == 0
            &&& pre.spec_current() <= off.spec_offset()
            &&& post.spec_current() == ac + asz
            &&& off.spec_offset() + asz <= post.spec_limit()
            &&& post.spec_limit() == if ac + asz <= pre.spec_limit() {
                pre.spec_limit() as int
            } else {
                grown
            }
            &&& post.spec_checkpoints() == pre.spec_checkpoints()
            &&& post.spec_bytes().len() == post.spec_limit()
            &&& post.spec_bytes().subrange(0, pre.spec_limit() as int) == pre.spec_bytes()
            &&& post.spec_total_allocated() == if pre.spec_total_allocated() + asz <= usize::MAX {
                pre.spec_total_allocated() + asz
            } else {
                usize::MAX as int
            }
        })
    })
}

/// A multiple of `eff` is a multiple of 16 when `eff` is.
proof fn lemma_mod16_divides(a: int, eff: int)
    requires
        eff >= 16,
        eff % 16 == 0,
        a % eff == 0,
        a >= 0,
    ensures
        a % 16 == 0,
{
    vstd::arithmetic::div_mod::lemma_fundamental_div_mod(a, eff);
    vstd::arithmetic::div_mod::lemma_fundamental_div_mod(eff, 16);
    let ka = a / eff;
    let ke = eff / 16;
    assert(a == (16 * ke) * ka);
    vstd::arithmetic::mul::lemma_mul_is_associative(16, ke, ka);
    vstd::arithmetic::mul::lemma_mul_is_commutative(16, ke * ka);
    vstd::arithmetic::div_mod::lemma_mod_multiples_basic(ke * ka, 16);
}

/// Values aligned to `eff` are multiples of 16, and so is their sum, when
/// `eff` is a multiple of 16.
proof fn lemma_mod16_sum(a: int, b: int, eff: int)
    requires
        eff >= 16,
        eff % 16 == 0,
        a % eff == 0,
        b % eff == 0,
        a >= 0,
        b >= 0,
    ensures
        (a + b) % 16 == 0,
        a % 16 == 0,
        b % 16 == 0,
{
    lemma_mod16_divides(a, eff);
    lemma_mod16_divides(b, eff);
    vstd::arithmetic::div_mod::lemma_add_mod_noop(a, b, 16);
}

/// Twice a multiple of 16 is a multiple of 16.
proof fn lemma_mod16_mul(limit: int)
    requires
        limit % 16 == 0,
        limit >= 0,
    ensures
        (2 * limit) % 16 == 0,
{
    vstd::arithmetic::div_mod::lemma_add_mod_noop(limit, limit, 16);
}

/// Two arena allocations never overlap: the first range ends at the bump
/// pointer it produced, and every later allocation starts at or above that
/// pointer. With `end1` the bump pointer after the first allocation and
/// `o2` the offset of any later one, the ranges are disjoint.
pub proof fn lemma_alloc_ranges_disjoint(o1: int, s1: int, end1: int, o2: int, s2: int)
    requires
        0 <= s1,
        0 <= s2,
        o1 + s1 <= end1,
        end1 <= o2,
    ensures
        !spec_ranges_overlap(o1, s1, o2, s2),
{
}

/// Restoring the checkpoint taken at bump position `used0` brings the arena
/// back to exactly `used0`, no matter which allocations happened in between:
/// allocations leave the checkpoint stack untouched, so the restored position
/// is the one pushed by `checkpoint`.
pub proof fn lemma_checkpoint_restore_returns_used(
    stack0: Seq<usize>,
    used0: usize,
    stack1: Seq<usize>,
    stack2: Seq<usize>,
    id: int,
    restored: usize,
)
    requires
        stack1 == stack0.push(used0),
        stack2 == stack1,
        id == stack0.len(),
        restored == stack2[id],
    ensures
        restored == used0,
{
}

} // verus!
