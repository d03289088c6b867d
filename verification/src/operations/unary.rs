//! Unary element-wise kernels. Integer negate, absolute value and square are
//! verified end to end as two's-complement arithmetic on lane bit patterns;
//! float operations go through the same walker with a caller-supplied scalar
//! function.

use vstd::prelude::*;
use crate::types::{WasmOperation, WasmError};
use crate::operations::lanes::{spec_lane, map_lanes, pow256, lemma_lane_in_range};

verus! {

/// Two's-complement negation of a 32-bit lane.
pub open spec fn spec_neg32(x: u64) -> int {
    (0x100000000 - (x as int % 0x100000000)) % 0x100000000
}

/// Two's-complement absolute value of a 32-bit lane: the sign bit decides,
/// and the minimum value stays itself, as wrapping negation has it.
pub open spec fn spec_abs32(x: u64) -> int {
    let v = x as int % 0x100000000;
    if v < 0x80000000 {
        v
    } else {
        (0x100000000 - v) % 0x100000000
    }
}

/// Wrapping square of a 32-bit lane: the product modulo two to the
/// thirty-second, which is the two's-complement wrapping product.
pub open spec fn spec_square32(x: u64) -> int {
    let v = x as int % 0x100000000;
    (v * v) % 0x100000000
}

/// Negates a 32-bit lane in two's complement.
pub fn lane_neg32(x: u64) -> (r: u64)
    ensures
        r == spec_neg32(x),
        r < 0x100000000,
{
    let v = x % 0x100000000;
    (0x100000000 - v) % 0x100000000
}

/// Absolute value of a 32-bit lane in two's complement.
pub fn lane_abs32(x: u64) -> (r: u64)
    ensures
        r == spec_abs32(x),
        r < 0x100000000,
{
    let v = x % 0x100000000;
    if v < 0x80000000 {
        v
    } else {
        (0x100000000 - v) % 0x100000000
    }
}

/// Wrapping square of a 32-bit lane.
pub fn lane_square32(x: u64) -> (r: u64)
    ensures
        r == spec_square32(x),
        r < 0x100000000,
{
    let v = x % 0x100000000;
    proof {
        assert(v * v <= 0xFFFFFFFFu64 * 0xFFFFFFFFu64) by (nonlinear_arith)
            requires
                0 <= v <= 0xFFFFFFFFu64,
        ;
    }
    (v * v) % 0x100000000
}

/// Two's-complement negation of an 8-bit lane.
pub open spec fn spec_neg8(x: u64) -> int {
    (0x100 - (x as int % 0x100)) % 0x100
}

/// Two's-complement absolute value of an 8-bit lane.
pub open spec fn spec_abs8(x: u64) -> int {
    let v = x as int % 0x100;
    if v < 0x80 {
        v
    } else {
        (0x100 - v) % 0x100
    }
}

/// Wrapping square of an 8-bit lane.
pub open spec fn spec_square8(x: u64) -> int {
    let v = x as int % 0x100;
    (v * v) % 0x100
}

/// Negates an 8-bit lane in two's complement.
pub fn lane_neg8(x: u64) -> (r: u64)
    ensures
        r == spec_neg8(x),
        r < 0x100,
{
    let v = x % 0x100;
    (0x100 - v) % 0x100
}

/// Absolute value of an 8-bit lane in two's complement.
pub fn lane_abs8(x: u64) -> (r: u64)
    ensures
        r == spec_abs8(x),
        r < 0x100,
{
    let v = x % 0x100;
    if v < 0x80 {
        v
    } else {
        (0x100 - v) % 0x100
    }
}

/// Wrapping square of an 8-bit lane.
pub fn lane_square8(x: u64) -> (r: u64)
    ensures
        r == spec_square8(x),
        r < 0x100,
{
    let v = x % 0x100;
    proof {
        assert(v * v <= 0xFFu64 * 0xFFu64) by (nonlinear_arith)
            requires
                0 <= v <= 0xFFu64,
        ;
    }
    (v * v) % 0x100
}

/// 256^4 is two to the thirty-second, 256^1 is two-hundred-fifty-six.
pub proof fn lemma_pow256_small()
    ensures
        pow256(4) == 0x100000000,
        pow256(1) == 0x100,
        pow256(8) == 0x10000000000000000,
{
    reveal_with_fuel(pow256, 9);
}

/// Element-wise unary operation on 32-bit integer lanes: negate, absolute
/// value or wrapping square; any other tag is refused as invalid for this
/// dtype.
pub fn execute_unary_i32(operation: WasmOperation, input: &Vec<u8>, count: usize) -> (r: Result<
    Vec<u8>,
    WasmError,
>)
    requires
        count * 4 <= input@.len(),
    ensures
        (r is Ok <==> operation == WasmOperation::Neg || operation == WasmOperation::Abs
            || operation == WasmOperation::Square),
        r is Err ==> r->Err_0 == WasmError::InvalidOperation,
        r is Ok ==> {
            let out = r->Ok_0;
            &&& out@.len() == count * 4
            &&& forall|k: int|
                0 <= k < count ==> spec_lane(out@, 4, k) == (
                if operation == WasmOperation::Neg {
                    spec_neg32(spec_lane(input@, 4, k) as u64)
                } else if operation == WasmOperation::Abs {
                    spec_abs32(spec_lane(input@, 4, k) as u64)
                } else {
                    spec_square32(spec_lane(input@, 4, k) as u64)
                })
        },
{
    proof {
        lemma_pow256_small();
    }
    match operation {
        WasmOperation::Neg => {
            let out = map_lanes(input, 4, count, &lane_neg32);
            proof {
                assert forall|k: int| 0 <= k < count implies 0 <= #[trigger] spec_lane(out@, 4, k)
                    < pow256(8) && 0 <= spec_lane(input@, 4, k) < pow256(8) by {
                    lemma_lane_in_range(out@, 4, k);
                    lemma_lane_in_range(input@, 4, k);
                    crate::operations::lanes::lemma_pow256_le(4, 8);
                }
            }
            Ok(out)
        },
        WasmOperation::Abs => {
            let out = map_lanes(input, 4, count, &lane_abs32);
            proof {
                assert forall|k: int| 0 <= k < count implies 0 <= #[trigger] spec_lane(out@, 4, k)
                    < pow256(8) && 0 <= spec_lane(input@, 4, k) < pow256(8) by {
                    lemma_lane_in_range(out@, 4, k);
                    lemma_lane_in_range(input@, 4, k);
                    crate::operations::lanes::lemma_pow256_le(4, 8);
                }
            }
            Ok(out)
        },
        WasmOperation::Square => {
            let out = map_lanes(input, 4, count, &lane_square32);
            proof {
                assert forall|k: int| 0 <= k < count implies 0 <= #[trigger] spec_lane(out@, 4, k)
                    < pow256(8) && 0 <= spec_lane(input@, 4, k) < pow256(8) by {
                    lemma_lane_in_range(out@, 4, k);
                    lemma_lane_in_range(input@, 4, k);
                    crate::operations::lanes::lemma_pow256_le(4, 8);
                }
            }
            Ok(out)
        },
        _ => Err(WasmError::InvalidOperation),
    }
}

/// Element-wise unary operation on 8-bit integer lanes.
pub fn execute_unary_i8(operation: WasmOperation, input: &Vec<u8>, count: usize) -> (r: Result<
    Vec<u8>,
    WasmError,
>)
    requires
        count * 1 <= input@.len(),
    ensures
        (r is Ok <==> operation == WasmOperation::Neg || operation == WasmOperation::Abs
            || operation == WasmOperation::Square),
        r is Err ==> r->Err_0 == WasmError::InvalidOperation,
        r is Ok ==> {
            let out = r->Ok_0;
            &&& out@.len() == count * 1
            &&& forall|k: int|
                0 <= k < count ==> spec_lane(out@, 1, k) == (
                if operation == WasmOperation::Neg {
                    spec_neg8(spec_lane(input@, 1, k) as u64)
                } else if operation == WasmOperation::Abs {
                    spec_abs8(spec_lane(input@, 1, k) as u64)
                } else {
                    spec_square8(spec_lane(input@, 1, k) as u64)
                })
        },
{
    proof {
        lemma_pow256_small();
    }
    match operation {
        WasmOperation::Neg => {
            let out = map_lanes(input, 1, count, &lane_neg8);
            proof {
                assert forall|k: int| 0 <= k < count implies 0 <= #[trigger] spec_lane(out@, 1, k)
                    < pow256(8) && 0 <= spec_lane(input@, 1, k) < pow256(8) by {
                    lemma_lane_in_range(out@, 1, k);
                    lemma_lane_in_range(input@, 1, k);
                    crate::operations::lanes::lemma_pow256_le(1, 8);
                }
            }
            Ok(out)
        },
        WasmOperation::Abs => {
            let out = map_lanes(input, 1, count, &lane_abs8);
            proof {
                assert forall|k: int| 0 <= k < count implies 0 <= #[trigger] spec_lane(out@, 1, k)
                    < pow256(8) && 0 <= spec_lane(input@, 1, k) < pow256(8) by {
                    lemma_lane_in_range(out@, 1, k);
                    lemma_lane_in_range(input@, 1, k);
                    crate::operations::lanes::lemma_pow256_le(1, 8);
                }
            }
            Ok(out)
        },
        WasmOperation::Square => {
            let out = map_lanes(input, 1, count, &lane_square8);
            proof {
                assert forall|k: int| 0 <= k < count implies 0 <= #[trigger] spec_lane(out@, 1, k)
                    < pow256(8) && 0 <= spec_lane(input@, 1, k) < pow256(8) by {
                    lemma_lane_in_range(out@, 1, k);
                    lemma_lane_in_range(input@, 1, k);
                    crate::operations::lanes::lemma_pow256_le(1, 8);
                }
            }
            Ok(out)
        },
        _ => Err(WasmError::InvalidOperation),
    }
}

} // verus!
