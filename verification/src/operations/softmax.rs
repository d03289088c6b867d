//! Softmax support: the index walk that locates, for each slice, the lane
//! positions along the chosen axis. The three floating-point passes — the
//! stabilising maximum, the exponentials with their sum, and the
//! normalisation — run outside the verified core on exactly these positions.

use vstd::prelude::*;
use crate::types::WasmError;
use crate::shape::{
    spec_product, spec_flat_index, spec_unflatten, suffix_products_fit, try_strides_and_count,
    flat_index_to_indices, try_flat_index, all_positive,
};

verus! {

/// Resolves a possibly negative axis: negative values index from the end.
/// Refused when the resolved axis is out of range.
pub fn resolve_axis(axis: i32, ndim: usize) -> (r: Result<usize, WasmError>)
    requires
        ndim <= 0x10000,
    ensures
        (r is Ok <==> (axis >= 0 && axis < ndim) || (axis < 0 && 0 <= ndim + axis)),
        r is Ok ==> r->Ok_0 == if axis >= 0 {
            axis as int
        } else {
            ndim + axis
        },
        r is Err ==> r->Err_0 == WasmError::InvalidInput,
{
    if axis >= 0 {
        if (axis as usize) < ndim {
            Ok(axis as usize)
        } else {
            Err(WasmError::InvalidInput)
        }
    } else {
        let back = -(axis as i64);
        if back <= ndim as i64 {
            Ok(ndim - (back as usize))
        } else {
            Err(WasmError::InvalidInput)
        }
    }
}

/// One softmax slice is enumerable: the slice's base offset fits a machine
/// word and every lane position along the axis lies within the input byte
/// length.
pub open spec fn slice_indices_ok(
    input_len_bytes: int,
    elem: int,
    shape: Seq<usize>,
    strides: Seq<usize>,
    axis: int,
    slice: int,
) -> bool {
    let rest_shape = shape.remove(axis);
    let rest_strides = strides.remove(axis);
    let base = spec_flat_index(spec_unflatten(slice, rest_shape), rest_strides);
    &&& suffix_products_fit(rest_shape)
    &&& slice < spec_product(rest_shape)
    &&& base <= usize::MAX
    &&& forall|j: int|
        0 <= j < shape[axis] ==> (base + #[trigger] (j * strides[axis]) + 1) * elem
            <= input_len_bytes
}

/// Lane positions of one softmax slice: for slice `s` of a tensor, the flat
/// element indices, in order, of the extent along `axis`. A slice is a
/// position of the remaining axes, numbered in row-major order over the
/// shape with `axis` removed.
#[verifier::loop_isolation(false)]
pub fn softmax_slice_indices(
    shape: &Vec<usize>,
    strides: &Vec<usize>,
    axis: usize,
    slice: usize,
    input_len_bytes: usize,
    elem: usize,
) -> (r: Result<Vec<usize>, WasmError>)
    requires
        1 <= elem <= 8,
        axis < shape@.len(),
        strides@.len() == shape@.len(),
    ensures
        (r is Ok <==> slice_indices_ok(
            input_len_bytes as int,
            elem as int,
            shape@,
            strides@,
            axis as int,
            slice as int,
        )),
        r is Ok ==> {
            let out = r->Ok_0;
            let rest_shape = shape@.remove(axis as int);
            let rest_strides = strides@.remove(axis as int);
            &&& suffix_products_fit(rest_shape)
            &&& slice < spec_product(rest_shape)
            &&& out@.len() == shape@[axis as int]
            &&& forall|j: int|
                0 <= j < out@.len() ==> #[trigger] out@[j] == spec_flat_index(
                    spec_unflatten(slice as int, rest_shape),
                    rest_strides,
                ) + j * strides@[axis as int]
            &&& forall|j: int| 0 <= j < out@.len() ==> (#[trigger] out@[j] + 1) * elem
                <= input_len_bytes
        },
        r is Err ==> r->Err_0 == WasmError::InvalidInput || r->Err_0 == WasmError::InvalidShape,
{
    let ndim = shape.len();
    proof {
        assert(shape@.remove(axis as int) =~= shape@.subrange(0, axis as int) + shape@.subrange(
            axis as int + 1,
            shape@.len() as int,
        ));
        assert(strides@.remove(axis as int) =~= strides@.subrange(0, axis as int)
            + strides@.subrange(axis as int + 1, strides@.len() as int));
    }
    let mut rest_shape: Vec<usize> = Vec::new();
    let mut rest_strides: Vec<usize> = Vec::new();
    let mut i: usize = 0;
    while i < ndim
        invariant
            i <= ndim,
            ndim == shape@.len(),
            strides@.len() == ndim,
            axis < ndim,
            rest_shape@.len() == if i <= axis {
                i as int
            } else {
                i - 1
            },
            rest_strides@.len() == rest_shape@.len(),
            forall|m: int|
                0 <= m < rest_shape@.len() ==> #[trigger] rest_shape@[m] == shape@.remove(
                    axis as int,
                )[m],
            forall|m: int|
                0 <= m < rest_strides@.len() ==> #[trigger] rest_strides@[m] == strides@.remove(
                    axis as int,
                )[m],
        decreases ndim - i,
    {
        if i != axis {
            proof {
                if i < axis {
                    assert(shape@.remove(axis as int)[i as int] == shape@[i as int]);
                    assert(strides@.remove(axis as int)[i as int] == strides@[i as int]);
                } else {
                    assert(shape@.remove(axis as int)[i - 1] == shape@[i as int]);
                    assert(strides@.remove(axis as int)[i - 1] == strides@[i as int]);
                }
            }
            rest_shape.push(shape[i]);
            rest_strides.push(strides[i]);
        }
        i += 1;
    }
    proof {
        assert(rest_shape@ =~= shape@.remove(axis as int));
        assert(rest_strides@ =~= strides@.remove(axis as int));
    }
    let ghost ok = slice_indices_ok(
        input_len_bytes as int,
        elem as int,
        shape@,
        strides@,
        axis as int,
        slice as int,
    );
    let ghost base_spec = spec_flat_index(
        spec_unflatten(slice as int, shape@.remove(axis as int)),
        strides@.remove(axis as int),
    );
    let counted = try_strides_and_count(&rest_shape);
    let slices = match counted {
        None => {
            return Err(WasmError::InvalidShape);
        },
        Some((_, count)) => count,
    };
    if slice >= slices {
        return Err(WasmError::InvalidInput);
    }
    let mut d: usize = 0;
    while d < rest_shape.len()
        invariant
            d <= rest_shape@.len(),
            slice < slices,
            slices == spec_product(rest_shape@),
            forall|m: int| 0 <= m < d ==> #[trigger] rest_shape@[m] >= 1,
        decreases rest_shape@.len() - d,
    {
        if rest_shape[d] == 0 {
            proof {
                crate::shape::lemma_product_zero(rest_shape@, d as int);
            }
            return Err(WasmError::InvalidInput);
        }
        d += 1;
    }
    let idx = flat_index_to_indices(slice, &rest_shape);
    proof {
        assert(rest_strides@.subrange(0, idx@.len() as int) =~= rest_strides@);
    }
    let base = match try_flat_index(&idx, &rest_strides) {
        None => {
            return Err(WasmError::InvalidInput);
        },
        Some(b) => b,
    };
    let extent = shape[axis];
    let step = strides[axis];
    let mut out: Vec<usize> = Vec::new();
    let mut j: usize = 0;
    while j < extent
        invariant
            j <= extent,
            1 <= elem <= 8,
            out@.len() == j,
            ok == slice_indices_ok(
                input_len_bytes as int,
                elem as int,
                shape@,
                strides@,
                axis as int,
                slice as int,
            ),
            base == base_spec,
            base == spec_flat_index(
                spec_unflatten(slice as int, shape@.remove(axis as int)),
                strides@.remove(axis as int),
            ),
            extent == shape@[axis as int],
            step == strides@[axis as int],
            forall|m: int|
                0 <= m < j ==> #[trigger] out@[m] == base + m * step,
            forall|m: int| 0 <= m < j ==> (#[trigger] out@[m] + 1) * elem <= input_len_bytes,
        decreases extent - j,
    {
        if step != 0 && j > usize::MAX / step {
            proof {
                if ok {
                    assert((base_spec + j as int * step + 1) * elem <= input_len_bytes);
                    assert((base_spec + j as int * step + 1) * elem == (base_spec + j as int
                        * step) * elem + elem) by (nonlinear_arith);
                    assert(base_spec + j as int * step <= (base_spec + j as int * step) * elem)
                        by (nonlinear_arith)
                        requires
                            base_spec >= 0,
                            j as int * step >= 0,
                            elem >= 1,
                    ;
                    assert(j as int * step >= 0) by (nonlinear_arith)
                        requires
                            j >= 0,
                            step >= 0,
                    ;
                    crate::operations::view::lemma_mul_le_div(j as int, step as int);
                    assert(false);
                }
            }
            return Err(WasmError::InvalidInput);
        }
        proof {
            crate::operations::view::lemma_mul_div_bound(j as int, step as int);
        }
        let offset = j * step;
        if base > usize::MAX - offset {
            proof {
                if ok {
                    assert((base_spec + j as int * step + 1) * elem <= input_len_bytes);
                    assert((base_spec + j as int * step + 1) * elem == (base_spec + j as int
                        * step) * elem + elem) by (nonlinear_arith);
                    assert(base_spec + j as int * step <= (base_spec + j as int * step) * elem)
                        by (nonlinear_arith)
                        requires
                            base_spec >= 0,
                            offset >= 0,
                            offset == j as int * step,
                            elem >= 1,
                    ;
                    assert(false);
                }
            }
            return Err(WasmError::InvalidInput);
        }
        let pos = base + offset;
        if pos > usize::MAX / elem {
            proof {
                if ok {
                    assert((base_spec + j as int * step + 1) * elem <= input_len_bytes);
                    assert((pos as int + 1) * elem == pos as int * elem + elem)
                        by (nonlinear_arith);
                    crate::operations::view::lemma_mul_le_div(pos as int, elem as int);
                    assert(false);
                }
            }
            return Err(WasmError::InvalidInput);
        }
        proof {
            crate::operations::view::lemma_mul_div_bound(pos as int, elem as int);
            assert((pos as int + 1) * elem == pos as int * elem + elem) by (nonlinear_arith);
        }
        let pos_bytes = pos * elem;
        if pos_bytes > input_len_bytes || elem > input_len_bytes - pos_bytes {
            proof {
                if ok {
                    assert((base_spec + j as int * step + 1) * elem <= input_len_bytes);
                    assert(false);
                }
            }
            return Err(WasmError::InvalidInput);
        }
        out.push(pos);
        j += 1;
    }
    proof {
        assert forall|j: int|
            0 <= j < shape@[axis as int] implies (base_spec + #[trigger] (j * strides@[
            axis as int
        ]) + 1) * elem <= input_len_bytes by {
            assert(out@[j] == base_spec + j * step);
            assert((out@[j] + 1) * elem <= input_len_bytes);
        }
    }
    Ok(out)
}

} // verus!
