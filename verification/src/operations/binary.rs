//! Binary element-wise kernels with broadcasting. Integer add, subtract and
//! multiply wrap in two's complement; integer division truncates and clamps
//! to the type extrema on a zero divisor. Float operations go through the
//! same walkers with caller-supplied scalar functions.

use vstd::prelude::*;
use crate::types::{WasmOperation, WasmError};
use crate::shape::{
    spec_product, spec_flat_index, spec_unflatten, spec_broadcast_indices, all_positive,
    suffix_products_fit, try_strides_and_count, flat_index_to_indices, try_flat_index,
};
use crate::operations::lanes::{spec_lane, combine_lanes, pow256, lemma_lane_in_range};
use crate::operations::unary::lemma_pow256_small;

verus! {

/// Wrapping 32-bit sum of two lanes.
pub open spec fn spec_add32(x: u64, y: u64) -> int {
    ((x as int % 0x100000000) + (y as int % 0x100000000)) % 0x100000000
}

/// Wrapping 32-bit difference of two lanes.
pub open spec fn spec_sub32(x: u64, y: u64) -> int {
    ((x as int % 0x100000000) - (y as int % 0x100000000) + 0x100000000) % 0x100000000
}

/// Wrapping 32-bit product of two lanes.
pub open spec fn spec_mul32(x: u64, y: u64) -> int {
    ((x as int % 0x100000000) * (y as int % 0x100000000)) % 0x100000000
}

/// Signed value of a 32-bit lane.
pub open spec fn spec_signed32(x: u64) -> int {
    let v = x as int % 0x100000000;
    if v < 0x80000000 {
        v
    } else {
        v - 0x100000000
    }
}

/// Signed 32-bit division of lanes: the quotient truncated toward zero
/// (magnitude quotient carrying the product of the signs), and the type
/// extrema on a zero divisor — the maximum for a positive dividend, the
/// minimum otherwise — re-encoded as a lane bit pattern.
pub open spec fn spec_div32(x: u64, y: u64) -> int {
    let a = spec_signed32(x);
    let b = spec_signed32(y);
    let q = if b == 0 {
        if a > 0 {
            0x7FFFFFFF
        } else {
            -0x80000000
        }
    } else {
        let mag = (if a >= 0 {
            a
        } else {
            -a
        }) / (if b >= 0 {
            b
        } else {
            -b
        });
        if (a < 0) == (b < 0) {
            mag
        } else {
            -mag
        }
    };
    (q + 0x100000000) % 0x100000000
}

/// Wrapping 32-bit lane addition.
pub fn lane_add32(x: u64, y: u64) -> (r: u64)
    ensures
        r == spec_add32(x, y),
        r < 0x100000000,
{
    ((x % 0x100000000) + (y % 0x100000000)) % 0x100000000
}

/// Wrapping 32-bit lane subtraction.
pub fn lane_sub32(x: u64, y: u64) -> (r: u64)
    ensures
        r == spec_sub32(x, y),
        r < 0x100000000,
{
    ((x % 0x100000000) + 0x100000000 - (y % 0x100000000)) % 0x100000000
}

/// Wrapping 32-bit lane multiplication.
pub fn lane_mul32(x: u64, y: u64) -> (r: u64)
    ensures
        r == spec_mul32(x, y),
        r < 0x100000000,
{
    let a = x % 0x100000000;
    let b = y % 0x100000000;
    proof {
        assert(a * b <= 0xFFFFFFFFu64 * 0xFFFFFFFFu64) by (nonlinear_arith)
            requires
                0 <= a <= 0xFFFFFFFFu64,
                0 <= b <= 0xFFFFFFFFu64,
        ;
    }
    (a * b) % 0x100000000
}

/// Signed, truncated 32-bit lane division with extrema clamping on zero.
pub fn lane_div32(x: u64, y: u64) -> (r: u64)
    ensures
        r == spec_div32(x, y),
        r < 0x100000000,
{
    let a_bits = x % 0x100000000;
    let b_bits = y % 0x100000000;
    let a_neg = a_bits >= 0x80000000;
    let b_neg = b_bits >= 0x80000000;
    let a_mag: u64 = if a_neg {
        0x100000000 - a_bits
    } else {
        a_bits
    };
    let b_mag: u64 = if b_neg {
        0x100000000 - b_bits
    } else {
        b_bits
    };
    if b_mag == 0 {
        if a_bits > 0 && !a_neg {
            return 0x7FFFFFFF;
        }
        return 0x80000000;
    }
    let q_mag = a_mag / b_mag;
    let q: u64 = if a_neg == b_neg {
        q_mag
    } else {
        (0x100000000 - q_mag % 0x100000000) % 0x100000000
    };
    proof {
        let a = spec_signed32(x);
        let b = spec_signed32(y);
        assert(a_mag == if a >= 0 {
            a
        } else {
            -a
        });
        assert(b_mag == if b >= 0 {
            b
        } else {
            -b
        });
        assert(q_mag <= a_mag) by (nonlinear_arith)
            requires
                b_mag >= 1,
                a_mag >= 0,
                q_mag == a_mag as int / b_mag as int,
        ;
    }
    q
}

/// The identity index map over `count` elements.
pub fn identity_map(count: usize) -> (r: Vec<usize>)
    ensures
        r@.len() == count,
        forall|k: int| 0 <= k < count ==> #[trigger] r@[k] == k,
{
    let mut out: Vec<usize> = Vec::new();
    let mut i: usize = 0;
    while i < count
        invariant
            i <= count,
            out@.len() == i,
            forall|k: int| 0 <= k < i ==> #[trigger] out@[k] == k,
        decreases count - i,
    {
        out.push(i);
        i += 1;
    }
    out
}

/// A broadcast source map succeeds exactly when the output shape's strides
/// fit machine words, the input rank does not exceed the output rank, a
/// stride is present for every input axis, and every mapped source element
/// lies within the input byte length.
pub open spec fn broadcast_map_ok(
    input_len_bytes: int,
    elem: int,
    input_shape: Seq<usize>,
    input_strides: Seq<usize>,
    output_shape: Seq<usize>,
) -> bool {
    &&& suffix_products_fit(output_shape)
    &&& input_shape.len() <= output_shape.len()
    &&& input_strides.len() >= input_shape.len()
    &&& forall|o: int|
        0 <= o < spec_product(output_shape) ==> (#[trigger] spec_flat_index(
            spec_broadcast_indices(
                spec_unflatten(o, output_shape),
                input_shape,
                output_shape.len() as int,
            ),
            input_strides.subrange(0, input_shape.len() as int),
        ) + 1) * elem <= input_len_bytes
}

/// Builds the source index map of a broadcast input for every output
/// position: where an input axis has extent one the index is zero, elsewhere
/// it follows the output, axes aligned from the right.
pub fn broadcast_source_map(
    output_shape: &Vec<usize>,
    input_shape: &Vec<usize>,
    input_strides: &Vec<usize>,
    input_len_bytes: usize,
    elem: usize,
) -> (r: Result<Vec<usize>, WasmError>)
    requires
        1 <= elem <= 8,
    ensures
        (r is Ok <==> broadcast_map_ok(
            input_len_bytes as int,
            elem as int,
            input_shape@,
            input_strides@,
            output_shape@,
        )),
        r is Ok ==> {
            let map = r->Ok_0;
            &&& suffix_products_fit(output_shape@)
            &&& map@.len() == spec_product(output_shape@)
            &&& forall|m: int|
                0 <= m < map@.len() ==> #[trigger] map@[m] == spec_flat_index(
                    spec_broadcast_indices(
                        spec_unflatten(m, output_shape@),
                        input_shape@,
                        output_shape@.len() as int,
                    ),
                    input_strides@.subrange(0, input_shape@.len() as int),
                )
            &&& forall|m: int|
                0 <= m < map@.len() ==> (#[trigger] map@[m] + 1) * elem <= input_len_bytes
        },
        r is Err ==> r->Err_0 == WasmError::InvalidInput || r->Err_0 == WasmError::InvalidShape,
{
    let ghost ok = broadcast_map_ok(
        input_len_bytes as int,
        elem as int,
        input_shape@,
        input_strides@,
        output_shape@,
    );
    let counted = try_strides_and_count(output_shape);
    let total = match counted {
        None => {
            return Err(WasmError::InvalidShape);
        },
        Some((_, count)) => count,
    };
    if input_shape.len() > output_shape.len() || input_strides.len() < input_shape.len() {
        return Err(WasmError::InvalidInput);
    }
    if total > 0 {
        let mut d2: usize = 0;
        while d2 < output_shape.len()
            invariant
                d2 <= output_shape@.len(),
                total == spec_product(output_shape@),
                total > 0,
                forall|m: int| 0 <= m < d2 ==> #[trigger] output_shape@[m] >= 1,
            decreases output_shape@.len() - d2,
        {
            if output_shape[d2] == 0 {
                proof {
                    crate::shape::lemma_product_zero(output_shape@, d2 as int);
                }
                return Err(WasmError::InvalidInput);
            }
            d2 += 1;
        }
    }
    let mut map: Vec<usize> = Vec::new();
    let mut o: usize = 0;
    while o < total
        invariant
            o <= total,
            1 <= elem <= 8,
            ok == broadcast_map_ok(
                input_len_bytes as int,
                elem as int,
                input_shape@,
                input_strides@,
                output_shape@,
            ),
            total == spec_product(output_shape@),
            suffix_products_fit(output_shape@),
            all_positive(output_shape@) || total == 0,
            input_shape@.len() <= output_shape@.len(),
            input_strides@.len() >= input_shape@.len(),
            map@.len() == o,
            forall|m: int|
                0 <= m < o ==> #[trigger] map@[m] == spec_flat_index(
                    spec_broadcast_indices(
                        spec_unflatten(m, output_shape@),
                        input_shape@,
                        output_shape@.len() as int,
                    ),
                    input_strides@.subrange(0, input_shape@.len() as int),
                ),
            forall|m: int| 0 <= m < o ==> (#[trigger] map@[m] + 1) * elem <= input_len_bytes,
        decreases total - o,
    {
        let idx = flat_index_to_indices(o, output_shape);
        let ghost eff = spec_broadcast_indices(
            spec_unflatten(o as int, output_shape@),
            input_shape@,
            output_shape@.len() as int,
        );
        let ndim_out = output_shape.len();
        let ndim_in = input_shape.len();
        let off = ndim_out - ndim_in;
        let mut in_idx: Vec<usize> = Vec::new();
        let mut i: usize = 0;
        while i < ndim_in
            invariant
                i <= ndim_in,
                ndim_in == input_shape@.len(),
                ndim_out == output_shape@.len(),
                ndim_in <= ndim_out,
                off == ndim_out - ndim_in,
                idx@.len() == ndim_out,
                idx@ == spec_unflatten(o as int, output_shape@),
                eff == spec_broadcast_indices(idx@, input_shape@, ndim_out as int),
                in_idx@.len() == i,
                forall|m: int| 0 <= m < i ==> #[trigger] in_idx@[m] == eff[m],
            decreases ndim_in - i,
        {
            if input_shape[i] == 1 {
                in_idx.push(0);
            } else {
                in_idx.push(idx[i + off]);
            }
            i += 1;
        }
        proof {
            assert(in_idx@ =~= eff);
        }
        let ghost src_spec = spec_flat_index(
            eff,
            input_strides@.subrange(0, input_shape@.len() as int),
        );
        let src = match try_flat_index(&in_idx, input_strides) {
            None => {
                proof {
                    if ok {
                        assert((src_spec + 1) * elem <= input_len_bytes);
                        assert((src_spec + 1) * elem == src_spec * elem + elem)
                            by (nonlinear_arith);
                        assert(src_spec <= src_spec * elem) by (nonlinear_arith)
                            requires
                                src_spec >= 0,
                                elem >= 1,
                        ;
                        crate::shape::lemma_flat_index_nonneg(
                            eff,
                            input_strides@.subrange(0, input_shape@.len() as int),
                        );
                        assert(false);
                    }
                }
                return Err(WasmError::InvalidInput);
            },
            Some(s) => s,
        };
        if src > usize::MAX / elem {
            proof {
                if ok {
                    assert((src_spec + 1) * elem <= input_len_bytes);
                    assert((src as int + 1) * elem == src as int * elem + elem)
                        by (nonlinear_arith);
                    crate::operations::view::lemma_mul_le_div(src as int, elem as int);
                    assert(false);
                }
            }
            return Err(WasmError::InvalidInput);
        }
        proof {
            crate::operations::view::lemma_mul_div_bound(src as int, elem as int);
            assert((src as int + 1) * elem == src as int * elem + elem) by (nonlinear_arith);
        }
        let src_bytes = src * elem;
        if src_bytes > input_len_bytes || elem > input_len_bytes - src_bytes {
            proof {
                if ok {
                    assert((src_spec + 1) * elem <= input_len_bytes);
                    assert(false);
                }
            }
            return Err(WasmError::InvalidInput);
        }
        map.push(src);
        o += 1;
    }
    proof {
        assert forall|o: int| 0 <= o < total implies (#[trigger] spec_flat_index(
            spec_broadcast_indices(
                spec_unflatten(o, output_shape@),
                input_shape@,
                output_shape@.len() as int,
            ),
            input_strides@.subrange(0, input_shape@.len() as int),
        ) + 1) * elem <= input_len_bytes by {
            assert(map@[o] == spec_flat_index(
                spec_broadcast_indices(
                    spec_unflatten(o, output_shape@),
                    input_shape@,
                    output_shape@.len() as int,
                ),
                input_strides@.subrange(0, input_shape@.len() as int),
            ));
            assert((map@[o] + 1) * elem <= input_len_bytes);
        }
    }
    Ok(map)
}

/// Same-size binary operation on 32-bit integer lanes: add, subtract and
/// multiply wrap, divide truncates and clamps on zero. Any other tag is
/// refused.
pub fn execute_binary_i32(
    operation: WasmOperation,
    a: &Vec<u8>,
    b: &Vec<u8>,
    count: usize,
) -> (r: Result<Vec<u8>, WasmError>)
    requires
        count * 4 <= a@.len(),
        count * 4 <= b@.len(),
        count * 4 <= usize::MAX,
    ensures
        (r is Ok <==> operation == WasmOperation::Add || operation == WasmOperation::Sub
            || operation == WasmOperation::Mul || operation == WasmOperation::Div),
        r is Err ==> r->Err_0 == WasmError::InvalidOperation,
        r is Ok ==> {
            let out = r->Ok_0;
            &&& out@.len() == count * 4
            &&& forall|k: int|
                0 <= k < count ==> spec_lane(out@, 4, k) == (
                if operation == WasmOperation::Add {
                    spec_add32(spec_lane(a@, 4, k) as u64, spec_lane(b@, 4, k) as u64)
                } else if operation == WasmOperation::Sub {
                    spec_sub32(spec_lane(a@, 4, k) as u64, spec_lane(b@, 4, k) as u64)
                } else if operation == WasmOperation::Mul {
                    spec_mul32(spec_lane(a@, 4, k) as u64, spec_lane(b@, 4, k) as u64)
                } else {
                    spec_div32(spec_lane(a@, 4, k) as u64, spec_lane(b@, 4, k) as u64)
                })
        },
{
    proof {
        lemma_pow256_small();
    }
    let ids = identity_map(count);
    proof {
        assert forall|k: int| 0 <= k < count implies (#[trigger] ids@[k] + 1) * 4 <= a@.len()
            && (ids@[k] + 1) * 4 <= b@.len() by {
            assert((k + 1) * 4 <= count * 4) by (nonlinear_arith)
                requires
                    k + 1 <= count,
            ;
        }
    }
    let out = match operation {
        WasmOperation::Add => combine_lanes(a, b, 4, &ids, &ids, &lane_add32),
        WasmOperation::Sub => combine_lanes(a, b, 4, &ids, &ids, &lane_sub32),
        WasmOperation::Mul => combine_lanes(a, b, 4, &ids, &ids, &lane_mul32),
        WasmOperation::Div => combine_lanes(a, b, 4, &ids, &ids, &lane_div32),
        _ => {
            return Err(WasmError::InvalidOperation);
        },
    };
    proof {
        assert forall|k: int| 0 <= k < count implies 0 <= #[trigger] spec_lane(out@, 4, k)
            < pow256(8) && 0 <= spec_lane(a@, 4, k) < pow256(8) && 0 <= spec_lane(b@, 4, k)
            < pow256(8) by {
            lemma_lane_in_range(out@, 4, k);
            lemma_lane_in_range(a@, 4, k);
            lemma_lane_in_range(b@, 4, k);
            crate::operations::lanes::lemma_pow256_le(4, 8);
        }
    }
    Ok(out)
}

} // verus!
