//! Reductions. Full 32-bit integer reductions are verified exactly: sum and
//! mean accumulate in a wide register and clamp on output, maximum and
//! minimum compare as signed values, product saturates and stops multiplying
//! once out of range. Axis reductions and float reductions run through the
//! generic fold walker with caller-supplied scalar functions.

use vstd::prelude::*;
use crate::types::{WasmOperation, WasmError};
use crate::operations::lanes::{spec_lane, read_lane, push_lane, lemma_lane_in_range};
use crate::operations::binary::spec_signed32;
use crate::operations::unary::lemma_pow256_small;

verus! {

/// True integer sum of the first `count` signed 32-bit lanes.
pub open spec fn spec_sum32(data: Seq<u8>, count: int) -> int
    decreases count,
{
    if count <= 0 {
        0
    } else {
        spec_sum32(data, count - 1) + spec_signed32(spec_lane(data, 4, count - 1) as u64)
    }
}

/// Signed maximum of the first `count` lanes, starting from the smallest
/// 32-bit value.
pub open spec fn spec_max32(data: Seq<u8>, count: int) -> int
    decreases count,
{
    if count <= 0 {
        -0x80000000
    } else {
        let prev = spec_max32(data, count - 1);
        let v = spec_signed32(spec_lane(data, 4, count - 1) as u64);
        if v > prev {
            v
        } else {
            prev
        }
    }
}

/// Signed minimum of the first `count` lanes, starting from the largest
/// 32-bit value.
pub open spec fn spec_min32(data: Seq<u8>, count: int) -> int
    decreases count,
{
    if count <= 0 {
        0x7FFFFFFF
    } else {
        let prev = spec_min32(data, count - 1);
        let v = spec_signed32(spec_lane(data, 4, count - 1) as u64);
        if v < prev {
            v
        } else {
            prev
        }
    }
}

/// Product of the first `count` signed lanes with an early stop: once the
/// running product leaves the 32-bit range it stays as it is, and the output
/// clamp takes over.
pub open spec fn spec_prod32(data: Seq<u8>, count: int) -> int
    decreases count,
{
    if count <= 0 {
        1
    } else {
        let prev = spec_prod32(data, count - 1);
        if prev > 0x7FFFFFFF || prev < -0x7FFFFFFF {
            prev
        } else {
            prev * spec_signed32(spec_lane(data, 4, count - 1) as u64)
        }
    }
}

/// Clamps a wide value to the signed 32-bit range and re-encodes it as a
/// lane bit pattern.
pub open spec fn spec_clamp32(v: int) -> int {
    let c = if v > 0x7FFFFFFF {
        0x7FFFFFFF
    } else if v < -0x80000000 {
        -0x80000000
    } else {
        v
    };
    (c + 0x100000000) % 0x100000000
}

/// Truncated division of the wide sum by the element count.
pub open spec fn spec_trunc_div(a: int, b: int) -> int {
    let mag = (if a >= 0 {
        a
    } else {
        -a
    }) / b;
    if a >= 0 {
        mag
    } else {
        -mag
    }
}

/// Encodes a clamped signed 32-bit value as a lane.
fn encode_clamped(v: i64) -> (r: u64)
    ensures
        r == spec_clamp32(v as int),
        r < 0x100000000,
{
    let c: i64 = if v > 0x7FFFFFFF {
        0x7FFFFFFF
    } else if v < -0x80000000 {
        -0x80000000
    } else {
        v
    };
    if c >= 0 {
        c as u64
    } else {
        (0x100000000i64 + c) as u64
    }
}

/// Reads lane `k` as a signed 32-bit value into a wide register.
fn read_signed32(data: &Vec<u8>, k: usize) -> (r: i64)
    requires
        (k + 1) * 4 <= data@.len(),
    ensures
        r == spec_signed32(spec_lane(data@, 4, k as int) as u64),
        -0x80000000 <= r <= 0x7FFFFFFF,
{
    proof {
        lemma_lane_in_range(data@, 4, k as int);
        lemma_pow256_small();
    }
    let bits = read_lane(data, 4, k);
    if bits >= 0x80000000 {
        (bits as i64) - 0x100000000i64
    } else {
        bits as i64
    }
}

/// Full reduction of `count` 32-bit integer lanes to one lane. Sum and mean
/// accumulate exactly in a wide register and clamp on output; mean divides
/// the sum by the count, truncating toward zero; maximum and minimum compare
/// as signed values; product saturates. Zero-element sums yield zero; a
/// zero-element mean is refused; other tags are refused as invalid.
pub fn execute_full_reduction_i32(operation: WasmOperation, input: &Vec<u8>, count: usize) -> (r:
    Result<Vec<u8>, WasmError>)
    requires
        count * 4 <= input@.len(),
        count <= 0x40000000,
    ensures
        (r is Ok <==> (operation == WasmOperation::Sum || operation == WasmOperation::Max
            || operation == WasmOperation::Min || operation == WasmOperation::Prod || (operation
            == WasmOperation::Mean && count > 0))),
        r is Err ==> r->Err_0 == WasmError::InvalidOperation || r->Err_0
            == WasmError::InvalidInput,
        r is Ok ==> {
            let out = r->Ok_0;
            &&& out@.len() == 4
            &&& spec_lane(out@, 4, 0) == (if operation == WasmOperation::Sum {
                spec_clamp32(spec_sum32(input@, count as int))
            } else if operation == WasmOperation::Mean {
                spec_clamp32(spec_trunc_div(spec_sum32(input@, count as int), count as int))
            } else if operation == WasmOperation::Max {
                spec_clamp32(spec_max32(input@, count as int))
            } else if operation == WasmOperation::Min {
                spec_clamp32(spec_min32(input@, count as int))
            } else {
                spec_clamp32(spec_prod32(input@, count as int))
            })
        },
{
    proof {
        lemma_pow256_small();
    }
    let value: u64 = match operation {
        WasmOperation::Sum => {
            let s = sum_lanes(input, count);
            encode_clamped(s)
        },
        WasmOperation::Mean => {
            if count == 0 {
                return Err(WasmError::InvalidInput);
            }
            let s = sum_lanes(input, count);
            let mag: i64 = if s >= 0 {
                s
            } else {
                -s
            };
            let q = mag / (count as i64);
            let signed_q: i64 = if s >= 0 {
                q
            } else {
                -q
            };
            proof {
                assert(q <= mag) by (nonlinear_arith)
                    requires
                        count >= 1,
                        mag >= 0,
                        q == mag as int / count as int,
                ;
            }
            encode_clamped(signed_q)
        },
        WasmOperation::Max => {
            let mut acc: i64 = -0x80000000;
            let mut k: usize = 0;
            while k < count
                invariant
                    k <= count,
                    count * 4 <= input@.len(),
                    acc == spec_max32(input@, k as int),
                    -0x80000000 <= acc <= 0x7FFFFFFF,
                decreases count - k,
            {
                proof {
                    assert((k + 1) * 4 <= count * 4) by (nonlinear_arith)
                        requires
                            k + 1 <= count,
                    ;
                }
                let v = read_signed32(input, k);
                if v > acc {
                    acc = v;
                }
                k += 1;
            }
            encode_clamped(acc)
        },
        WasmOperation::Min => {
            let mut acc: i64 = 0x7FFFFFFF;
            let mut k: usize = 0;
            while k < count
                invariant
                    k <= count,
                    count * 4 <= input@.len(),
                    acc == spec_min32(input@, k as int),
                    -0x80000000 <= acc <= 0x7FFFFFFF,
                decreases count - k,
            {
                proof {
                    assert((k + 1) * 4 <= count * 4) by (nonlinear_arith)
                        requires
                            k + 1 <= count,
                    ;
                }
                let v = read_signed32(input, k);
                if v < acc {
                    acc = v;
                }
                k += 1;
            }
            encode_clamped(acc)
        },
        WasmOperation::Prod => {
            let mut acc: i64 = 1;
            let mut k: usize = 0;
            while k < count
                invariant
                    k <= count,
                    count * 4 <= input@.len(),
                    acc == spec_prod32(input@, k as int),
                    -0x4000000000000000 <= acc <= 0x4000000000000000,
                decreases count - k,
            {
                proof {
                    assert((k + 1) * 4 <= count * 4) by (nonlinear_arith)
                        requires
                            k + 1 <= count,
                    ;
                }
                let v = read_signed32(input, k);
                if acc <= 0x7FFFFFFF && acc >= -0x7FFFFFFF {
                    proof {
                        assert(-0x4000000000000000 <= acc as int * v as int
                            <= 0x4000000000000000) by (nonlinear_arith)
                            requires
                                -0x7FFFFFFF <= acc <= 0x7FFFFFFF,
                                -0x80000000 <= v <= 0x7FFFFFFF,
                        ;
                    }
                    acc = acc * v;
                }
                k += 1;
            }
            encode_clamped(acc)
        },
        _ => {
            return Err(WasmError::InvalidOperation);
        },
    };
    let mut out: Vec<u8> = Vec::new();
    push_lane(&mut out, 4, value);
    proof {
        assert(out@.subrange(0, 4) =~= out@);
    }
    Ok(out)
}

/// Exact wide sum of the signed lanes.
fn sum_lanes(input: &Vec<u8>, count: usize) -> (r: i64)
    requires
        count * 4 <= input@.len(),
        count <= 0x40000000,
    ensures
        r == spec_sum32(input@, count as int),
        -0x4000000000000000 <= r <= 0x4000000000000000,
{
    let mut acc: i64 = 0;
    let mut k: usize = 0;
    while k < count
        invariant
            k <= count,
            count <= 0x40000000,
            count * 4 <= input@.len(),
            acc == spec_sum32(input@, k as int),
            -0x80000000 * k as int <= acc <= 0x7FFFFFFF * k as int,
        decreases count - k,
    {
        proof {
            assert((k + 1) * 4 <= count * 4) by (nonlinear_arith)
                requires
                    k + 1 <= count,
            ;
            assert(-0x80000000 * (k as int) >= -0x80000000 * 0x40000000) by (nonlinear_arith)
                requires
                    k <= 0x40000000,
            ;
            assert(0x7FFFFFFF * (k as int) <= 0x7FFFFFFF * 0x40000000) by (nonlinear_arith)
                requires
                    k <= 0x40000000,
            ;
            assert(-0x80000000 * (k as int + 1) == -0x80000000 * (k as int) + -0x80000000)
                by (nonlinear_arith);
            assert(0x7FFFFFFF * (k as int + 1) == 0x7FFFFFFF * (k as int) + 0x7FFFFFFF)
                by (nonlinear_arith);
        }
        let v = read_signed32(input, k);
        acc = acc + v;
        k += 1;
    }
    proof {
        assert(-0x80000000 * (count as int) >= -0x4000000000000000) by (nonlinear_arith)
            requires
                count <= 0x40000000,
        ;
        assert(0x7FFFFFFF * (count as int) <= 0x4000000000000000) by (nonlinear_arith)
            requires
                count <= 0x40000000,
        ;
    }
    acc
}

/// Which axes a reduction removes: true exactly where the axis is listed.
pub open spec fn spec_axes_mask(axes: Seq<usize>, ndim: int) -> Seq<bool> {
    Seq::new(ndim as nat, |i: int| axes.contains(i as usize))
}

/// The values at unmasked positions, in order.
pub open spec fn spec_kept_values(mask: Seq<bool>, vals: Seq<usize>) -> Seq<usize>
    decreases vals.len(),
{
    if vals.len() == 0 || mask.len() != vals.len() {
        Seq::<usize>::empty()
    } else {
        let rest = spec_kept_values(mask.drop_last(), vals.drop_last());
        if mask.last() {
            rest
        } else {
            rest.push(vals.last())
        }
    }
}

/// The values at masked positions, in order.
pub open spec fn spec_reduced_values(mask: Seq<bool>, vals: Seq<usize>) -> Seq<usize>
    decreases vals.len(),
{
    if vals.len() == 0 || mask.len() != vals.len() {
        Seq::<usize>::empty()
    } else {
        let rest = spec_reduced_values(mask.drop_last(), vals.drop_last());
        if mask.last() {
            rest.push(vals.last())
        } else {
            rest
        }
    }
}

/// Two equally long value lists keep and reduce equally many positions
/// under one mask.
pub proof fn lemma_partition_lens(mask: Seq<bool>, a: Seq<usize>, b: Seq<usize>)
    requires
        a.len() == b.len(),
    ensures
        spec_kept_values(mask, a).len() == spec_kept_values(mask, b).len(),
        spec_reduced_values(mask, a).len() == spec_reduced_values(mask, b).len(),
    decreases a.len(),
{
    if a.len() > 0 && mask.len() == a.len() {
        lemma_partition_lens(mask.drop_last(), a.drop_last(), b.drop_last());
    }
}

/// Splits a tensor's axes into the kept and the reduced ones, in order: axis
/// `i` goes to the reduced side exactly when `axes` lists it. An axis out of
/// range is refused.
pub fn partition_axes(shape: &Vec<usize>, strides: &Vec<usize>, axes: &Vec<usize>) -> (r: Result<
    (Vec<usize>, Vec<usize>, Vec<usize>, Vec<usize>),
    WasmError,
>)
    requires
        strides@.len() == shape@.len(),
    ensures
        (r is Ok <==> forall|a: int| 0 <= a < axes@.len() ==> #[trigger] axes@[a] < shape@.len()),
        r is Ok ==> {
            let mask = spec_axes_mask(axes@, shape@.len() as int);
            let (kept_shape, kept_strides, red_shape, red_strides) = r->Ok_0;
            &&& kept_shape@ == spec_kept_values(mask, shape@)
            &&& kept_strides@ == spec_kept_values(mask, strides@)
            &&& red_shape@ == spec_reduced_values(mask, shape@)
            &&& red_strides@ == spec_reduced_values(mask, strides@)
        },
        r is Err ==> r->Err_0 == WasmError::InvalidInput,
{
    let ndim = shape.len();
    let mut reduced = vec![false; ndim];
    let mut a: usize = 0;
    while a < axes.len()
        invariant
            a <= axes@.len(),
            reduced@.len() == ndim,
            ndim == shape@.len(),
            forall|m: int| 0 <= m < a ==> #[trigger] axes@[m] < ndim,
            forall|i: int|
                0 <= i < ndim ==> (#[trigger] reduced@[i] <==> exists|m: int|
                    0 <= m < a && axes@[m] == i),
        decreases axes@.len() - a,
    {
        let axis = axes[a];
        if axis >= ndim {
            return Err(WasmError::InvalidInput);
        }
        proof {
            assert forall|i: int|
                0 <= i < ndim implies (#[trigger] reduced@.update(axis as int, true)[i] <==> exists|
                m: int,
            |
                0 <= m < a + 1 && axes@[m] == i) by {
                if reduced@.update(axis as int, true)[i] {
                    if i == axis {
                        assert(axes@[a as int] == i);
                    } else {
                        let m = choose|m: int| 0 <= m < a && axes@[m] == i;
                        assert(0 <= m < a + 1 && axes@[m] == i);
                    }
                }
            }
        }
        reduced.set(axis, true);
        a += 1;
    }
    proof {
        assert forall|i: int| 0 <= i < ndim implies (#[trigger] reduced@[i] <==> axes@.contains(
            i as usize,
        )) by {
            if reduced@[i] {
                let m = choose|m: int| 0 <= m < axes@.len() && axes@[m] == i;
                assert(axes@[m] == i as usize);
            }
            if axes@.contains(i as usize) {
                let m = choose|m: int| 0 <= m < axes@.len() && axes@[m] == i as usize;
                assert(0 <= m < axes@.len() && axes@[m] == i);
            }
        }
        assert(reduced@ =~= spec_axes_mask(axes@, shape@.len() as int));
    }
    let mut kept_shape: Vec<usize> = Vec::new();
    let mut kept_strides: Vec<usize> = Vec::new();
    let mut red_shape: Vec<usize> = Vec::new();
    let mut red_strides: Vec<usize> = Vec::new();
    let mut i: usize = 0;
    proof {
        assert(reduced@.subrange(0, 0) =~= Seq::<bool>::empty());
        assert(shape@.subrange(0, 0) =~= Seq::<usize>::empty());
        assert(strides@.subrange(0, 0) =~= Seq::<usize>::empty());
    }
    while i < ndim
        invariant
            i <= ndim,
            ndim == shape@.len(),
            strides@.len() == ndim,
            reduced@.len() == ndim,
            kept_shape@ == spec_kept_values(
                reduced@.subrange(0, i as int),
                shape@.subrange(0, i as int),
            ),
            kept_strides@ == spec_kept_values(
                reduced@.subrange(0, i as int),
                strides@.subrange(0, i as int),
            ),
            red_shape@ == spec_reduced_values(
                reduced@.subrange(0, i as int),
                shape@.subrange(0, i as int),
            ),
            red_strides@ == spec_reduced_values(
                reduced@.subrange(0, i as int),
                strides@.subrange(0, i as int),
            ),
        decreases ndim - i,
    {
        proof {
            assert(reduced@.subrange(0, i + 1).drop_last() =~= reduced@.subrange(0, i as int));
            assert(shape@.subrange(0, i + 1).drop_last() =~= shape@.subrange(0, i as int));
            assert(strides@.subrange(0, i + 1).drop_last() =~= strides@.subrange(0, i as int));
            assert(reduced@.subrange(0, i + 1).last() == reduced@[i as int]);
            assert(shape@.subrange(0, i + 1).last() == shape@[i as int]);
            assert(strides@.subrange(0, i + 1).last() == strides@[i as int]);
        }
        if reduced[i] {
            red_shape.push(shape[i]);
            red_strides.push(strides[i]);
        } else {
            kept_shape.push(shape[i]);
            kept_strides.push(strides[i]);
        }
        i += 1;
    }
    proof {
        assert(reduced@.subrange(0, ndim as int) =~= reduced@);
        assert(shape@.subrange(0, ndim as int) =~= shape@);
        assert(strides@.subrange(0, ndim as int) =~= strides@);
    }
    Ok((kept_shape, kept_strides, red_shape, red_strides))
}

/// One reduction group is enumerable: for output slot `slot` the kept-axes
/// offset fits a machine word and, for every member of the group, the
/// element position lies within the input byte length.
pub open spec fn group_indices_ok(
    input_len_bytes: int,
    elem: int,
    kept_shape: Seq<usize>,
    kept_strides: Seq<usize>,
    red_shape: Seq<usize>,
    red_strides: Seq<usize>,
    slot: int,
) -> bool {
    let base = crate::shape::spec_flat_index(
        crate::shape::spec_unflatten(slot, kept_shape),
        kept_strides,
    );
    &&& crate::shape::suffix_products_fit(kept_shape)
    &&& crate::shape::suffix_products_fit(red_shape)
    &&& slot < crate::shape::spec_product(kept_shape)
    &&& base <= usize::MAX
    &&& forall|j: int|
        0 <= j < crate::shape::spec_product(red_shape) ==> (base
            + #[trigger] crate::shape::spec_flat_index(
            crate::shape::spec_unflatten(j, red_shape),
            red_strides,
        ) + 1) * elem <= input_len_bytes
}

/// Flat element positions of one reduction group: for output slot `slot`,
/// the input elements, in row-major order of the reduced axes, that fold
/// into that slot. The position is the slot's offset over the kept axes plus
/// the member's offset over the reduced axes.
#[verifier::loop_isolation(false)]
pub fn reduction_group_indices(
    kept_shape: &Vec<usize>,
    kept_strides: &Vec<usize>,
    red_shape: &Vec<usize>,
    red_strides: &Vec<usize>,
    slot: usize,
    input_len_bytes: usize,
    elem: usize,
) -> (r: Result<Vec<usize>, WasmError>)
    requires
        1 <= elem <= 8,
        kept_strides@.len() == kept_shape@.len(),
        red_strides@.len() == red_shape@.len(),
    ensures
        (r is Ok <==> group_indices_ok(
            input_len_bytes as int,
            elem as int,
            kept_shape@,
            kept_strides@,
            red_shape@,
            red_strides@,
            slot as int,
        )),
        r is Ok ==> {
            let out = r->Ok_0;
            &&& crate::shape::suffix_products_fit(kept_shape@)
            &&& crate::shape::suffix_products_fit(red_shape@)
            &&& slot < crate::shape::spec_product(kept_shape@)
            &&& out@.len() == crate::shape::spec_product(red_shape@)
            &&& forall|j: int|
                0 <= j < out@.len() ==> #[trigger] out@[j] == crate::shape::spec_flat_index(
                    crate::shape::spec_unflatten(slot as int, kept_shape@),
                    kept_strides@,
                ) + crate::shape::spec_flat_index(
                    crate::shape::spec_unflatten(j, red_shape@),
                    red_strides@,
                )
            &&& forall|j: int| 0 <= j < out@.len() ==> (#[trigger] out@[j] + 1) * elem
                <= input_len_bytes
        },
        r is Err ==> r->Err_0 == WasmError::InvalidInput || r->Err_0 == WasmError::InvalidShape,
{
    let ghost ok = group_indices_ok(
        input_len_bytes as int,
        elem as int,
        kept_shape@,
        kept_strides@,
        red_shape@,
        red_strides@,
        slot as int,
    );
    let ghost base_spec = crate::shape::spec_flat_index(
        crate::shape::spec_unflatten(slot as int, kept_shape@),
        kept_strides@,
    );
    let kept_counted = crate::shape::try_strides_and_count(kept_shape);
    let slots = match kept_counted {
        None => {
            return Err(WasmError::InvalidShape);
        },
        Some((_, count)) => count,
    };
    let red_counted = crate::shape::try_strides_and_count(red_shape);
    let members = match red_counted {
        None => {
            return Err(WasmError::InvalidShape);
        },
        Some((_, count)) => count,
    };
    if slot >= slots {
        return Err(WasmError::InvalidInput);
    }
    let mut d: usize = 0;
    while d < kept_shape.len()
        invariant
            d <= kept_shape@.len(),
            slot < slots,
            slots == crate::shape::spec_product(kept_shape@),
            forall|m: int| 0 <= m < d ==> #[trigger] kept_shape@[m] >= 1,
        decreases kept_shape@.len() - d,
    {
        if kept_shape[d] == 0 {
            proof {
                crate::shape::lemma_product_zero(kept_shape@, d as int);
            }
            return Err(WasmError::InvalidInput);
        }
        d += 1;
    }
    if members > 0 {
        let mut d2: usize = 0;
        while d2 < red_shape.len()
            invariant
                d2 <= red_shape@.len(),
                members > 0,
                members == crate::shape::spec_product(red_shape@),
                forall|m: int| 0 <= m < d2 ==> #[trigger] red_shape@[m] >= 1,
            decreases red_shape@.len() - d2,
        {
            if red_shape[d2] == 0 {
                proof {
                    crate::shape::lemma_product_zero(red_shape@, d2 as int);
                }
                return Err(WasmError::InvalidInput);
            }
            d2 += 1;
        }
    }
    let slot_idx = crate::shape::flat_index_to_indices(slot, kept_shape);
    proof {
        assert(kept_strides@.subrange(0, slot_idx@.len() as int) =~= kept_strides@);
    }
    let base = match crate::shape::try_flat_index(&slot_idx, kept_strides) {
        None => {
            return Err(WasmError::InvalidInput);
        },
        Some(b) => b,
    };
    let mut out: Vec<usize> = Vec::new();
    let mut j: usize = 0;
    while j < members
        invariant
            j <= members,
            1 <= elem <= 8,
            members == crate::shape::spec_product(red_shape@),
            base == base_spec,
            ok == group_indices_ok(
                input_len_bytes as int,
                elem as int,
                kept_shape@,
                kept_strides@,
                red_shape@,
                red_strides@,
                slot as int,
            ),
            out@.len() == j,
            forall|m: int|
                0 <= m < j ==> #[trigger] out@[m] == crate::shape::spec_flat_index(
                    crate::shape::spec_unflatten(slot as int, kept_shape@),
                    kept_strides@,
                ) + crate::shape::spec_flat_index(
                    crate::shape::spec_unflatten(m, red_shape@),
                    red_strides@,
                ),
            forall|m: int| 0 <= m < j ==> (#[trigger] out@[m] + 1) * elem <= input_len_bytes,
        decreases members - j,
    {
        let ghost off_spec = crate::shape::spec_flat_index(
            crate::shape::spec_unflatten(j as int, red_shape@),
            red_strides@,
        );
        let member_idx = crate::shape::flat_index_to_indices(j, red_shape);
        proof {
            assert(red_strides@.subrange(0, member_idx@.len() as int) =~= red_strides@);
        }
        let offset = match crate::shape::try_flat_index(&member_idx, red_strides) {
            None => {
                proof {
                    if ok {
                        assert((base_spec + off_spec + 1) * elem <= input_len_bytes);
                        assert((base_spec + off_spec + 1) * elem == (base_spec + off_spec) * elem
                            + elem) by (nonlinear_arith);
                        assert(base_spec + off_spec <= (base_spec + off_spec) * elem)
                            by (nonlinear_arith)
                            requires
                                base_spec + off_spec >= 0,
                                elem >= 1,
                        ;
                        crate::shape::lemma_flat_index_nonneg(
                            crate::shape::spec_unflatten(j as int, red_shape@),
                            red_strides@,
                        );
                        assert(false);
                    }
                }
                return Err(WasmError::InvalidInput);
            },
            Some(o) => o,
        };
        if base > usize::MAX - offset {
            proof {
                if ok {
                    assert((base_spec + off_spec + 1) * elem <= input_len_bytes);
                    assert((base_spec + off_spec + 1) * elem == (base_spec + off_spec) * elem
                        + elem) by (nonlinear_arith);
                    assert(base_spec + off_spec <= (base_spec + off_spec) * elem)
                        by (nonlinear_arith)
                        requires
                            base_spec + off_spec >= 0,
                            elem >= 1,
                    ;
                    assert(false);
                }
            }
            return Err(WasmError::InvalidInput);
        }
        let pos = base + offset;
        if pos > usize::MAX / elem {
            proof {
                if ok {
                    assert((base_spec + off_spec + 1) * elem <= input_len_bytes);
                    assert((pos as int + 1) * elem == pos as int * elem + elem)
                        by (nonlinear_arith);
                    crate::operations::view::lemma_mul_le_div(pos as int, elem as int);
                    assert(false);
                }
            }
            return Err(WasmError::InvalidInput);
        }
        proof {
            crate::operations::view::lemma_mul_div_bound(pos as int, elem as int);
            assert((pos as int + 1) * elem == pos as int * elem + elem) by (nonlinear_arith);
        }
        let pos_bytes = pos * elem;
        if pos_bytes > input_len_bytes || elem > input_len_bytes - pos_bytes {
            proof {
                if ok {
                    assert((base_spec + off_spec + 1) * elem <= input_len_bytes);
                    assert(false);
                }
            }
            return Err(WasmError::InvalidInput);
        }
        out.push(pos);
        j += 1;
    }
    proof {
        assert forall|m: int|
            0 <= m < members implies (base_spec + #[trigger] crate::shape::spec_flat_index(
            crate::shape::spec_unflatten(m, red_shape@),
            red_strides@,
        ) + 1) * elem <= input_len_bytes by {
            assert(out@[m] == base_spec + crate::shape::spec_flat_index(
                crate::shape::spec_unflatten(m, red_shape@),
                red_strides@,
            ));
            assert((out@[m] + 1) * elem <= input_len_bytes);
        }
    }
    Ok(out)
}

/// The lanes one reduction group reads, gathered in row-major order of the
/// reduced axes: byte `i` of the result is byte `i % 4` of the input lane at
/// the group's member `i / 4`.
pub open spec fn spec_group_gather(
    input: Seq<u8>,
    kept: Seq<usize>,
    kept_str: Seq<usize>,
    red: Seq<usize>,
    red_str: Seq<usize>,
    o: int,
) -> Seq<u8> {
    Seq::new(
        (crate::shape::spec_product(red) * 4) as nat,
        |i: int|
            input[(crate::shape::spec_flat_index(
                crate::shape::spec_unflatten(o, kept),
                kept_str,
            ) + crate::shape::spec_flat_index(
                crate::shape::spec_unflatten(i / 4, red),
                red_str,
            )) * 4 + i % 4],
    )
}

/// The reduced lane an axis reduction writes to output slot `o`.
pub open spec fn spec_axis_reduce_lane(
    operation: WasmOperation,
    input: Seq<u8>,
    kept: Seq<usize>,
    kept_str: Seq<usize>,
    red: Seq<usize>,
    red_str: Seq<usize>,
    o: int,
) -> int {
    let g = spec_group_gather(input, kept, kept_str, red, red_str, o);
    let n = crate::shape::spec_product(red) as int;
    if operation == WasmOperation::Sum {
        spec_clamp32(spec_sum32(g, n))
    } else if operation == WasmOperation::Mean {
        spec_clamp32(spec_trunc_div(spec_sum32(g, n), n))
    } else if operation == WasmOperation::Max {
        spec_clamp32(spec_max32(g, n))
    } else if operation == WasmOperation::Min {
        spec_clamp32(spec_min32(g, n))
    } else {
        spec_clamp32(spec_prod32(g, n))
    }
}

/// An axis reduction succeeds exactly when the operation is one the integer
/// path computes (a mean needs members), both partitions' products fit,
/// the output bytes fit a machine word, the group size is within the lane
/// cap, and every group lies inside the input.
pub open spec fn axis_reduce_ok(
    operation: WasmOperation,
    input_len: int,
    kept: Seq<usize>,
    kept_str: Seq<usize>,
    red: Seq<usize>,
    red_str: Seq<usize>,
) -> bool {
    let slots = crate::shape::spec_product(kept);
    let n = crate::shape::spec_product(red);
    &&& (operation == WasmOperation::Sum || operation == WasmOperation::Max || operation
        == WasmOperation::Min || operation == WasmOperation::Prod || operation
        == WasmOperation::Mean)
    &&& (operation == WasmOperation::Mean ==> n > 0)
    &&& crate::shape::suffix_products_fit(kept)
    &&& crate::shape::suffix_products_fit(red)
    &&& slots * 4 <= usize::MAX
    &&& n <= 0x40000000
    &&& n * 4 <= usize::MAX
    &&& forall|o: int|
        0 <= o < slots ==> group_indices_ok(input_len, 4, kept, kept_str, red, red_str, o)
}

/// Reductions over lanes depend only on the lanes they read.
pub proof fn lemma_reduce_lanes_eq(a: Seq<u8>, b: Seq<u8>, count: int)
    requires
        forall|j: int| 0 <= j < count ==> spec_lane(a, 4, j) == spec_lane(b, 4, j),
    ensures
        spec_sum32(a, count) == spec_sum32(b, count),
        spec_max32(a, count) == spec_max32(b, count),
        spec_min32(a, count) == spec_min32(b, count),
        spec_prod32(a, count) == spec_prod32(b, count),
    decreases count,
{
    if count > 0 {
        lemma_reduce_lanes_eq(a, b, count - 1);
    }
}

/// Reduction over a set of axes of a strided 32-bit integer tensor: output
/// slot `o` reduces the input lanes of the group whose kept-axis position
/// unflattens to `o`. Succeeds exactly when every group is realisable within
/// the input and the operation is computable.
pub fn execute_axis_reduction_i32(
    operation: WasmOperation,
    input: &Vec<u8>,
    kept_shape: &Vec<usize>,
    kept_strides: &Vec<usize>,
    red_shape: &Vec<usize>,
    red_strides: &Vec<usize>,
) -> (r: Result<Vec<u8>, WasmError>)
    requires
        kept_strides@.len() == kept_shape@.len(),
        red_strides@.len() == red_shape@.len(),
    ensures
        (r is Ok <==> axis_reduce_ok(
            operation,
            input@.len() as int,
            kept_shape@,
            kept_strides@,
            red_shape@,
            red_strides@,
        )),
        r is Ok ==> {
            let out = r->Ok_0;
            let slots = crate::shape::spec_product(kept_shape@);
            &&& out@.len() == slots * 4
            &&& forall|o: int|
                0 <= o < slots ==> spec_lane(out@, 4, o) == spec_axis_reduce_lane(
                    operation,
                    input@,
                    kept_shape@,
                    kept_strides@,
                    red_shape@,
                    red_strides@,
                    o,
                )
        },
        r is Err ==> r->Err_0 == WasmError::InvalidOperation || r->Err_0
            == WasmError::InvalidInput || r->Err_0 == WasmError::InvalidShape || r->Err_0
            == WasmError::NotImplemented,
{
    let ghost ok = axis_reduce_ok(
        operation,
        input@.len() as int,
        kept_shape@,
        kept_strides@,
        red_shape@,
        red_strides@,
    );
    match operation {
        WasmOperation::Sum | WasmOperation::Mean | WasmOperation::Max | WasmOperation::Min
            | WasmOperation::Prod => {
        },
        _ => {
            return Err(WasmError::InvalidOperation);
        },
    }
    let kept_counted = crate::shape::try_strides_and_count(kept_shape);
    let slots = match kept_counted {
        None => {
            return Err(WasmError::InvalidShape);
        },
        Some((_, c)) => c,
    };
    let red_counted = crate::shape::try_strides_and_count(red_shape);
    let red_count = match red_counted {
        None => {
            return Err(WasmError::InvalidShape);
        },
        Some((_, c)) => c,
    };
    if slots > usize::MAX / 4 {
        proof {
            crate::operations::view::lemma_gt_div_mul(slots as int, 4);
        }
        return Err(WasmError::InvalidShape);
    }
    proof {
        crate::operations::view::lemma_mul_div_bound(slots as int, 4);
    }
    if red_count > 0x40000000 {
        return Err(WasmError::NotImplemented);
    }
    if red_count > usize::MAX / 4 {
        proof {
            crate::operations::view::lemma_gt_div_mul(red_count as int, 4);
        }
        return Err(WasmError::InvalidShape);
    }
    proof {
        crate::operations::view::lemma_mul_div_bound(red_count as int, 4);
    }
    if red_count == 0 {
        match operation {
            WasmOperation::Mean => {
                return Err(WasmError::InvalidInput);
            },
            _ => {
            },
        }
    }
    let mut out: Vec<u8> = Vec::new();
    let mut o: usize = 0;
    while o < slots
        invariant
            o <= slots,
            out@.len() == o * 4,
            slots == crate::shape::spec_product(kept_shape@),
            red_count == crate::shape::spec_product(red_shape@),
            slots * 4 <= usize::MAX,
            red_count <= 0x40000000,
            red_count * 4 <= usize::MAX,
            kept_strides@.len() == kept_shape@.len(),
            red_strides@.len() == red_shape@.len(),
            operation == WasmOperation::Sum || operation == WasmOperation::Mean || operation
                == WasmOperation::Max || operation == WasmOperation::Min || operation
                == WasmOperation::Prod,
            operation == WasmOperation::Mean ==> red_count > 0,
            ok == axis_reduce_ok(
                operation,
                input@.len() as int,
                kept_shape@,
                kept_strides@,
                red_shape@,
                red_strides@,
            ),
            forall|m: int|
                0 <= m < o ==> group_indices_ok(
                    input@.len() as int,
                    4,
                    kept_shape@,
                    kept_strides@,
                    red_shape@,
                    red_strides@,
                    m,
                ),
            forall|m: int|
                0 <= m < o ==> spec_lane(out@, 4, m) == spec_axis_reduce_lane(
                    operation,
                    input@,
                    kept_shape@,
                    kept_strides@,
                    red_shape@,
                    red_strides@,
                    m,
                ),
        decreases slots - o,
    {
        let group = match reduction_group_indices(
            kept_shape,
            kept_strides,
            red_shape,
            red_strides,
            o,
            input.len(),
            4,
        ) {
            Ok(g) => g,
            Err(e) => {
                proof {
                    if ok {
                        assert(group_indices_ok(
                            input@.len() as int,
                            4,
                            kept_shape@,
                            kept_strides@,
                            red_shape@,
                            red_strides@,
                            o as int,
                        ));
                        assert(false);
                    }
                }
                return Err(e);
            },
        };
        proof {
            assert(group@.len() == crate::shape::spec_product(red_shape@));
            assert(group@.len() * 4 <= usize::MAX);
        }
        let gathered = crate::operations::view::gather_elements(input, 4, &group);
        let ghost gg = spec_group_gather(
            input@,
            kept_shape@,
            kept_strides@,
            red_shape@,
            red_strides@,
            o as int,
        );
        proof {
            assert forall|j: int| 0 <= j < red_count implies spec_lane(gathered@, 4, j)
                == spec_lane(gg, 4, j) by {
                assert(spec_lane(gathered@, 4, j) == spec_lane(input@, 4, group@[j] as int));
                let idx = group@[j] as int;
                assert((idx + 1) * 4 <= input@.len());
                assert(idx * 4 + 4 <= input@.len()) by (nonlinear_arith)
                    requires
                        (idx + 1) * 4 <= input@.len(),
                ;
                assert(gg.subrange(j * 4, j * 4 + 4) =~= input@.subrange(idx * 4, idx * 4 + 4))
                    by {
                    assert forall|t: int| 0 <= t < 4 implies #[trigger] (gg[j * 4 + t])
                        == input@[idx * 4 + t] by {
                        assert((j * 4 + t) / 4 == j && (j * 4 + t) % 4 == t) by (nonlinear_arith)
                            requires
                                0 <= t < 4,
                                j >= 0,
                        ;
                    }
                }
            }
            lemma_reduce_lanes_eq(gathered@, gg, red_count as int);
        }
        let reduced = match execute_full_reduction_i32(operation, &gathered, red_count) {
            Ok(b) => b,
            Err(_) => {
                proof {
                    assert(false);
                }
                return Err(WasmError::InvalidInput);
            },
        };
        proof {
            lemma_lane_in_range(reduced@, 4, 0);
        }
        let value = read_lane(&reduced, 4, 0);
        let ghost out_pre = out@;
        push_lane(&mut out, 4, value);
        proof {
            assert forall|m: int|
                0 <= m < o + 1 implies spec_lane(out@, 4, m) == spec_axis_reduce_lane(
                operation,
                input@,
                kept_shape@,
                kept_strides@,
                red_shape@,
                red_strides@,
                m,
            ) by {
                if m < o {
                    assert(m * 4 + 4 <= out_pre.len()) by (nonlinear_arith)
                        requires
                            0 <= m < o,
                            out_pre.len() == o * 4,
                    ;
                    assert(out@.subrange(m * 4, m * 4 + 4) =~= out_pre.subrange(m * 4, m * 4 + 4))
                        by {
                        assert(out@.subrange(0, out_pre.len() as int) == out_pre);
                        assert forall|t: int| 0 <= t < 4 implies #[trigger] (out@.subrange(
                            m * 4,
                            m * 4 + 4,
                        )[t]) == out_pre.subrange(m * 4, m * 4 + 4)[t] by {
                            assert(out@[m * 4 + t] == out@.subrange(0, out_pre.len() as int)[m * 4
                                + t]);
                        }
                    }
                    assert(spec_lane(out@, 4, m) == spec_lane(out_pre, 4, m));
                    assert(spec_lane(out_pre, 4, m) == spec_axis_reduce_lane(
                        operation,
                        input@,
                        kept_shape@,
                        kept_strides@,
                        red_shape@,
                        red_strides@,
                        m,
                    ));
                } else {
                    assert(out_pre.len() == o * 4);
                    assert(out@.subrange(o as int * 4, o as int * 4 + 4) =~= out@.subrange(
                        out_pre.len() as int,
                        out@.len() as int,
                    ));
                    assert(spec_lane(out@, 4, o as int) == value as int);
                    assert(value == spec_lane(reduced@, 4, 0));
                    assert(spec_sum32(gathered@, red_count as int) == spec_sum32(
                        gg,
                        red_count as int,
                    ));
                }
            }
        }
        o += 1;
    }
    proof {
        assert(crate::shape::suffix_products_fit(kept_shape@));
        assert(crate::shape::suffix_products_fit(red_shape@));
        assert(ok);
    }
    Ok(out)
}

} // verus!
