//! Small arithmetic helpers: alignment rounding, range overlap and chunk
//! sizing.

use vstd::prelude::*;

verus! {

/// Two half-open byte ranges overlap.
pub open spec fn spec_ranges_overlap(start1: int, len1: int, start2: int, len2: int) -> bool {
    start1 < start2 + len2 && start2 < start1 + len1
}

/// Whether the half-open ranges [start1, start1+len1) and [start2, start2+len2)
/// share any byte.
pub fn ranges_overlap(start1: usize, len1: usize, start2: usize, len2: usize) -> (r: bool)
    requires
        start1 + len1 <= usize::MAX,
        start2 + len2 <= usize::MAX,
    ensures
        r == spec_ranges_overlap(start1 as int, len1 as int, start2 as int, len2 as int),
{
    let end1 = start1 + len1;
    let end2 = start2 + len2;
    start1 < end2 && start2 < end1
}

/// The least multiple of `alignment` that is at least `size`.
pub open spec fn spec_align_up(size: int, alignment: int) -> int {
    ((size + alignment - 1) / alignment) * alignment
}

/// `spec_align_up` rounds up to a multiple of the alignment without
/// overshooting by a full alignment.
pub proof fn lemma_align_up(size: int, alignment: int)
    requires
        size >= 0,
        alignment >= 1,
    ensures
        spec_align_up(size, alignment) % alignment == 0,
        size <= spec_align_up(size, alignment) < size + alignment,
{
    let q = (size + (alignment - 1)) / alignment;
    assert(q * alignment % alignment == 0 && size <= q * alignment < size + alignment)
        by (nonlinear_arith)
        requires
            size >= 0,
            alignment >= 1,
            q == (size + alignment - 1) / alignment,
    ;
}

/// Rounds `size` up to the next multiple of `alignment`.
pub fn align_size(size: usize, alignment: usize) -> (r: usize)
    requires
        alignment >= 1,
        size + alignment - 1 <= usize::MAX,
    ensures
        r == spec_align_up(size as int, alignment as int),
        r % alignment == 0,
        size <= r < size + alignment,
{
    proof {
        lemma_align_up(size as int, alignment as int);
    }
    let q = (size + (alignment - 1)) / alignment;
    proof {
        assert(q * alignment == spec_align_up(size as int, alignment as int));
    }
    q * alignment
}

/// Aligning a value already on the boundary leaves it unchanged.
pub proof fn lemma_align_up_noop(size: int, alignment: int)
    requires
        size >= 0,
        alignment >= 1,
        size % alignment == 0,
    ensures
        spec_align_up(size, alignment) == size,
{
    assert(((size + alignment - 1) / alignment) * alignment == size) by (nonlinear_arith)
        requires
            size >= 0,
            alignment >= 1,
            size % alignment == 0,
    ;
}

/// Chunk size for splitting `total_size` items across workers, never below
/// the minimum worthwhile chunk of 1024.
pub fn calculate_chunk_size(total_size: usize, num_threads: usize) -> (r: usize)
    requires
        num_threads >= 1,
        total_size + num_threads - 1 <= usize::MAX,
    ensures
        r == if (total_size + num_threads - 1) / (num_threads as int) > 1024 {
            (total_size + num_threads - 1) / (num_threads as int)
        } else {
            1024int
        },
{
    let calculated = (total_size + (num_threads - 1)) / num_threads;
    if calculated > 1024 {
        calculated
    } else {
        1024
    }
}

/// How many vector registers to process per unrolled iteration, by input
/// length.
pub fn get_optimal_chunk_size(len: usize) -> (r: usize)
    ensures
        len >= 1024 ==> r == 8,
        256 <= len < 1024 ==> r == 4,
        len < 256 ==> r == 1,
{
    if len >= 1024 {
        8
    } else if len >= 256 {
        4
    } else {
        1
    }
}

} // verus!
