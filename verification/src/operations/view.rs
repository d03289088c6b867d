//! View kernels: reshape, transpose, slice, tile and expand materialise a new
//! buffer whose elements are copies of input elements at verified positions.
//! All of them move whole elements, so they serve every dtype.

use vstd::prelude::*;
use crate::types::WasmError;
use crate::shape::{
    spec_product, spec_flat_index, spec_unflatten, spec_broadcast_indices, all_positive,
    suffix_products_fit, try_strides_and_count, flat_index_to_indices,
    map_tile_output_to_input_indices, try_flat_index,
};
use crate::operations::lanes::{spec_lane, read_lane, push_lane, lemma_le_bound, lemma_pow256_le, lemma_pow256_8};

verus! {

/// Copies the elements selected by `indices` into a fresh buffer: element `k`
/// of the result is element `indices[k]` of the input.
pub fn gather_elements(input: &Vec<u8>, elem: usize, indices: &Vec<usize>) -> (r: Vec<u8>)
    requires
        1 <= elem <= 8,
        indices@.len() * elem <= usize::MAX,
        forall|k: int| 0 <= k < indices@.len() ==> (#[trigger] indices@[k] + 1) * elem
            <= input@.len(),
    ensures
        r@.len() == indices@.len() * elem,
        forall|k: int|
            0 <= k < indices@.len() ==> spec_lane(r@, elem as int, k) == spec_lane(
                input@,
                elem as int,
                indices@[k] as int,
            ),
{
    let count = indices.len();
    let mut out: Vec<u8> = Vec::new();
    let mut k: usize = 0;
    while k < count
        invariant
            k <= count,
            1 <= elem <= 8,
            count == indices@.len(),
            count * elem <= usize::MAX,
            forall|m: int| 0 <= m < count ==> (#[trigger] indices@[m] + 1) * elem <= input@.len(),
            out@.len() == k * elem,
            forall|m: int|
                0 <= m < k ==> spec_lane(out@, elem as int, m) == spec_lane(
                    input@,
                    elem as int,
                    indices@[m] as int,
                ),
        decreases count - k,
    {
        proof {
            assert((k + 1) * elem == k * elem + elem) by (nonlinear_arith);
            assert((k + 1) * elem <= count * elem) by (nonlinear_arith)
                requires
                    k + 1 <= count,
                    elem >= 1,
            ;
            assert((indices@[k as int] + 1) * elem == indices@[k as int] * elem + elem)
                by (nonlinear_arith);
            assert(indices@[k as int] * elem >= 0) by (nonlinear_arith)
                requires
                    indices@[k as int] >= 0,
                    elem >= 1,
            ;
            lemma_le_bound(input@.subrange(
                indices@[k as int] as int * elem as int,
                indices@[k as int] as int * elem as int + elem as int,
            ));
            lemma_pow256_le(elem as int, 8);
            lemma_pow256_8();
        }
        let x = read_lane(input, elem, indices[k]);
        let ghost pre_out = out@;
        push_lane(&mut out, elem, x);
        proof {
            assert(out@.subrange(k as int * elem as int, k as int * elem as int + elem as int)
                =~= out@.subrange(pre_out.len() as int, out@.len() as int));
            assert(spec_lane(out@, elem as int, k as int) == x);
            assert forall|m: int|
                0 <= m < k implies spec_lane(out@, elem as int, m) == spec_lane(
                pre_out,
                elem as int,
                m,
            ) by {
                assert((m + 1) * elem == m * elem + elem) by (nonlinear_arith);
                assert((m + 1) * elem <= k * elem) by (nonlinear_arith)
                    requires
                        m + 1 <= k,
                        elem >= 1,
                ;
                assert(m * elem >= 0) by (nonlinear_arith)
                    requires
                        m >= 0,
                        elem >= 1,
                ;
                assert forall|j: int| m * elem <= j < m * elem + elem implies out@[j]
                    == pre_out[j] by {
                    assert(out@.subrange(0, pre_out.len() as int)[j] == pre_out[j]);
                }
                assert(out@.subrange(m * elem, m * elem + elem) =~= pre_out.subrange(
                    m * elem,
                    m * elem + elem,
                ));
            }
            assert forall|m: int|
                0 <= m < k + 1 implies spec_lane(out@, elem as int, m) == spec_lane(
                input@,
                elem as int,
                indices@[m] as int,
            ) by {
                if m < k {
                    assert(spec_lane(out@, elem as int, m) == spec_lane(pre_out, elem as int, m));
                    assert(spec_lane(pre_out, elem as int, m) == spec_lane(
                        input@,
                        elem as int,
                        indices@[m] as int,
                    ));
                } else {
                    assert(spec_lane(out@, elem as int, m) == x);
                }
            }
        }
        k += 1;
    }
    out
}

/// Reshape, view, flatten, squeeze and unsqueeze all materialise as a plain
/// copy: the element order does not change. Refused exactly when the element
/// counts differ.
pub fn execute_copy_reshape(input: &Vec<u8>, input_size: usize, output_size: usize) -> (r: Result<
    Vec<u8>,
    WasmError,
>)
    ensures
        (r is Ok <==> input_size == output_size),
        r is Ok ==> r->Ok_0@ == input@,
        r is Err ==> r->Err_0 == WasmError::InvalidShape,
{
    if input_size != output_size {
        return Err(WasmError::InvalidShape);
    }
    let n = input.len();
    let mut out: Vec<u8> = Vec::new();
    let mut i: usize = 0;
    while i < n
        invariant
            i <= n,
            n == input@.len(),
            out@ =~= input@.subrange(0, i as int),
        decreases n - i,
    {
        out.push(input[i]);
        proof {
            assert(out@ =~= input@.subrange(0, i + 1));
        }
        i += 1;
    }
    proof {
        assert(input@.subrange(0, n as int) =~= input@);
    }
    Ok(out)
}

/// A reshape round trip is the identity: copying a buffer to a new shape and
/// back leaves every byte as it was.
pub proof fn lemma_reshape_round_trip(a: Seq<u8>, b: Seq<u8>, c: Seq<u8>)
    requires
        b == a,
        c == b,
    ensures
        c == a,
{
}

/// Source element index of output element `o` under a two-dimensional
/// transpose: the output is column-major over the input's strides.
pub open spec fn spec_transpose_src(o: int, rows: int, s0: int, s1: int) -> int {
    (o % rows) * s0 + (o / rows) * s1
}

/// Every transposed source element lies within the input buffer; this is
/// exactly when the transpose succeeds.
pub open spec fn transpose_ok(
    input_len: int,
    elem: int,
    rows: int,
    cols: int,
    s0: int,
    s1: int,
) -> bool {
    forall|o: int|
        0 <= o < rows * cols ==> (#[trigger] spec_transpose_src(o, rows, s0, s1) + 1) * elem
            <= input_len
}

/// Two-dimensional transpose: output element `j·rows + i` is input element
/// `i·s0 + j·s1`. Succeeds exactly when every transposed source element lies
/// within the input buffer.
pub fn execute_transpose_2d(
    input: &Vec<u8>,
    elem: usize,
    rows: usize,
    cols: usize,
    s0: usize,
    s1: usize,
) -> (r: Result<Vec<u8>, WasmError>)
    requires
        1 <= elem <= 8,
        rows >= 1,
        cols >= 1,
        rows * cols * elem <= usize::MAX,
    ensures
        (r is Ok <==> transpose_ok(
            input@.len() as int,
            elem as int,
            rows as int,
            cols as int,
            s0 as int,
            s1 as int,
        )),
        r is Ok ==> {
            let out = r->Ok_0;
            &&& out@.len() == rows * cols * elem
            &&& forall|o: int|
                0 <= o < rows * cols ==> spec_lane(out@, elem as int, o) == spec_lane(
                    input@,
                    elem as int,
                    spec_transpose_src(o, rows as int, s0 as int, s1 as int),
                )
        },
        r is Err ==> r->Err_0 == WasmError::InvalidInput,
    {
    proof {
        assert(rows * cols <= rows * cols * elem) by (nonlinear_arith)
            requires
                elem >= 1,
                rows >= 1,
                cols >= 1,
        ;
    }
    let total = rows * cols;
    proof {
        assert(total * elem == rows * cols * elem) by (nonlinear_arith)
            requires
                total == rows * cols,
        ;
    }
    let ilen = input.len();
    let mut map: Vec<usize> = Vec::new();
    let mut o: usize = 0;
    while o < total
        invariant
            o <= total,
            rows >= 1,
            cols >= 1,
            total == rows * cols,
            total * elem <= usize::MAX,
            1 <= elem <= 8,
            ilen == input@.len(),
            map@.len() == o,
            forall|m: int|
                0 <= m < o ==> #[trigger] map@[m] == spec_transpose_src(
                    m,
                    rows as int,
                    s0 as int,
                    s1 as int,
                ),
            forall|m: int| 0 <= m < o ==> (#[trigger] map@[m] + 1) * elem <= input@.len(),
        decreases total - o,
    {
        let i = o % rows;
        let j = o / rows;
        let ghost src_spec = spec_transpose_src(o as int, rows as int, s0 as int, s1 as int);
        proof {
            assert(i as int * s0 as int >= 0 && j as int * s1 as int >= 0) by (nonlinear_arith)
                requires
                    i >= 0,
                    j >= 0,
                    s0 >= 0,
                    s1 >= 0,
            ;
        }
        if s0 != 0 && i > usize::MAX / s0 {
            proof {
                if transpose_ok(ilen as int, elem as int, rows as int, cols as int, s0 as int,
                    s1 as int) {
                    assert((src_spec + 1) * elem <= ilen);
                    assert(src_spec * elem <= src_spec * elem + elem) by (nonlinear_arith)
                        requires
                            elem >= 1,
                    ;
                    assert((src_spec + 1) * elem == src_spec * elem + elem) by (nonlinear_arith);
                    assert(src_spec <= src_spec * elem) by (nonlinear_arith)
                        requires
                            src_spec >= 0,
                            elem >= 1,
                    ;
                    lemma_mul_le_div(i as int, s0 as int);
                    assert(false);
                }
            }
            return Err(WasmError::InvalidInput);
        }
        proof {
            lemma_mul_div_bound(i as int, s0 as int);
        }
        let a = i * s0;
        if s1 != 0 && j > usize::MAX / s1 {
            proof {
                if transpose_ok(ilen as int, elem as int, rows as int, cols as int, s0 as int,
                    s1 as int) {
                    assert((src_spec + 1) * elem <= ilen);
                    assert((src_spec + 1) * elem == src_spec * elem + elem) by (nonlinear_arith);
                    assert(src_spec <= src_spec * elem) by (nonlinear_arith)
                        requires
                            src_spec >= 0,
                            elem >= 1,
                    ;
                    lemma_mul_le_div(j as int, s1 as int);
                    assert(false);
                }
            }
            return Err(WasmError::InvalidInput);
        }
        proof {
            lemma_mul_div_bound(j as int, s1 as int);
        }
        let b = j * s1;
        if a > usize::MAX - b {
            proof {
                if transpose_ok(ilen as int, elem as int, rows as int, cols as int, s0 as int,
                    s1 as int) {
                    assert((src_spec + 1) * elem <= ilen);
                    assert((src_spec + 1) * elem == src_spec * elem + elem) by (nonlinear_arith);
                    assert(src_spec <= src_spec * elem) by (nonlinear_arith)
                        requires
                            src_spec >= 0,
                            elem >= 1,
                    ;
                    assert(false);
                }
            }
            return Err(WasmError::InvalidInput);
        }
        let src = a + b;
        proof {
            assert((src as int + 1) * elem == src as int * elem + elem) by (nonlinear_arith);
        }
        if src > usize::MAX / elem {
            proof {
                if transpose_ok(ilen as int, elem as int, rows as int, cols as int, s0 as int,
                    s1 as int) {
                    assert((src_spec + 1) * elem <= ilen);
                    assert((src_spec + 1) * elem == src_spec * elem + elem) by (nonlinear_arith);
                    lemma_mul_le_div(src as int, elem as int);
                    assert(false);
                }
            }
            return Err(WasmError::InvalidInput);
        }
        proof {
            lemma_mul_div_bound(src as int, elem as int);
        }
        let src_bytes = src * elem;
        if src_bytes > ilen || elem > ilen - src_bytes {
            proof {
                if transpose_ok(ilen as int, elem as int, rows as int, cols as int, s0 as int,
                    s1 as int) {
                    assert((src_spec + 1) * elem <= ilen);
                    assert((src_spec + 1) * elem == src_spec * elem + elem) by (nonlinear_arith);
                    assert(false);
                }
            }
            return Err(WasmError::InvalidInput);
        }
        map.push(src);
        o += 1;
    }
    proof {
        assert forall|o: int|
            0 <= o < rows * cols implies (#[trigger] spec_transpose_src(
            o,
            rows as int,
            s0 as int,
            s1 as int,
        ) + 1) * elem <= ilen by {
            assert(map@[o] == spec_transpose_src(o, rows as int, s0 as int, s1 as int));
            assert((map@[o] + 1) * elem <= input@.len());
        }
    }
    Ok(gather_elements(input, elem, &map))
}

/// A product within the machine range bounds its left factor by the divided
/// maximum.
pub(crate) proof fn lemma_mul_le_div(x: int, f: int)
    requires
        f >= 1,
        x >= 0,
        x * f <= usize::MAX,
    ensures
        x <= usize::MAX as int / f,
{
    let q = usize::MAX as int / f;
    vstd::arithmetic::div_mod::lemma_fundamental_div_mod(usize::MAX as int, f);
    assert(x <= q) by (nonlinear_arith)
        requires
            x * f <= usize::MAX,
            usize::MAX == f * q + usize::MAX as int % f,
            0 <= usize::MAX as int % f < f,
            f >= 1,
            x >= 0,
    ;
}

/// A factor beyond the divided maximum pushes the product past the maximum.
pub(crate) proof fn lemma_gt_div_mul(x: int, f: int)
    requires
        f >= 1,
        x > usize::MAX as int / f,
    ensures
        x * f > usize::MAX,
{
    let q = usize::MAX as int / f;
    vstd::arithmetic::div_mod::lemma_fundamental_div_mod(usize::MAX as int, f);
    assert(x * f > usize::MAX) by (nonlinear_arith)
        requires
            x >= q + 1,
            usize::MAX == f * q + usize::MAX as int % f,
            0 <= usize::MAX as int % f < f,
            f >= 1,
    ;
}

/// A factor beyond a divided length pushes the product past that length.
pub(crate) proof fn lemma_gt_div_mul_len(x: int, f: int, len: int)
    requires
        f >= 1,
        x > len / f,
        len >= 0,
    ensures
        x * f > len,
{
    let q = len / f;
    vstd::arithmetic::div_mod::lemma_fundamental_div_mod(len, f);
    assert(x * f > len) by (nonlinear_arith)
        requires
            x >= q + 1,
            len == f * q + len % f,
            0 <= len % f < f,
            f >= 1,
    ;
}

/// A factor within a divided length keeps the product within that length.
pub(crate) proof fn lemma_le_div_mul_len(x: int, f: int, len: int)
    requires
        f >= 1,
        0 <= x <= len / f,
        len >= 0,
    ensures
        x * f <= len,
{
    let q = len / f;
    vstd::arithmetic::div_mod::lemma_fundamental_div_mod(len, f);
    assert(x * f <= len) by (nonlinear_arith)
        requires
            x <= q,
            x >= 0,
            len == f * q + len % f,
            0 <= len % f < f,
            f >= 1,
    ;
}

/// Multiplying by a factor at most `usize::MAX / factor` stays in range.
pub(crate) proof fn lemma_mul_div_bound(x: int, f: int)
    requires
        x >= 0,
        f >= 0,
        f == 0 || x <= usize::MAX as int / f,
    ensures
        x * f <= usize::MAX,
{
    if f > 0 {
        let q = usize::MAX as int / f;
        vstd::arithmetic::div_mod::lemma_fundamental_div_mod(usize::MAX as int, f);
        assert(x * f <= usize::MAX) by (nonlinear_arith)
            requires
                x <= q,
                x >= 0,
                usize::MAX == f * q + usize::MAX as int % f,
                0 <= usize::MAX as int % f < f,
                f >= 1,
        ;
    } else {
        assert(x * 0 == 0) by (nonlinear_arith);
    }
}

/// Transposing twice is the identity on element indices: for canonical
/// row-major layouts, the transpose of the transpose of position `p` is `p`
/// again.
pub proof fn lemma_transpose_involution(rows: int, cols: int, p: int)
    requires
        rows >= 1,
        cols >= 1,
        0 <= p < rows * cols,
    ensures
        spec_transpose_src(
            spec_transpose_src(p, cols, rows, 1),
            rows,
            cols,
            1,
        ) == p,
{
    let i = p / cols;
    let j = p % cols;
    vstd::arithmetic::div_mod::lemma_fundamental_div_mod(p, cols);
    assert(0 <= j < cols);
    assert(i < rows) by (nonlinear_arith)
        requires
            p == cols * i + j,
            0 <= j < cols,
            p < rows * cols,
            rows >= 1,
            cols >= 1,
            i >= 0,
    ;
    assert(i >= 0) by (nonlinear_arith)
        requires
            p == cols * i + j,
            0 <= j < cols,
            p >= 0,
            cols >= 1,
    ;
    let q = j * rows + i;
    assert(spec_transpose_src(p, cols, rows, 1) == q) by {
        assert((p % cols) * rows + (p / cols) * 1 == j * rows + i);
    }
    assert(q % rows == i && q / rows == j) by (nonlinear_arith)
        requires
            q == j * rows + i,
            0 <= i < rows,
            0 <= j,
            rows >= 1,
    ;
    assert(spec_transpose_src(q, rows, cols, 1) == i * cols + j);
    assert(i * cols + j == p) by (nonlinear_arith)
        requires
            p == cols * i + j,
    ;
}

/// Source element index of output element `o` for a slice at the given row
/// and column offsets: the output position with the offsets added on the
/// first two axes, flattened by the input strides.
pub open spec fn spec_slice_indices(idx: Seq<usize>, row_start: usize, col_start: usize) -> Seq<
    usize,
> {
    Seq::new(
        idx.len(),
        |i: int|
            if i == 0 {
                (idx[0] + row_start) as usize
            } else if i == 1 {
                (idx[1] + col_start) as usize
            } else {
                idx[i]
            },
    )
}

/// One output position of a slice is realisable: the shifted indices fit
/// machine words and the source element lies within the input buffer.
pub open spec fn slice_pos_ok(
    o: int,
    output_shape: Seq<usize>,
    input_strides: Seq<usize>,
    row_start: usize,
    col_start: usize,
    elem: int,
    input_len: int,
) -> bool {
    let idx = spec_unflatten(o, output_shape);
    &&& (output_shape.len() >= 1 ==> idx[0] + row_start <= usize::MAX)
    &&& (output_shape.len() >= 2 ==> idx[1] + col_start <= usize::MAX)
    &&& (spec_flat_index(
        spec_slice_indices(idx, row_start, col_start),
        input_strides.subrange(0, output_shape.len() as int),
    ) + 1) * elem <= input_len
}

/// A slice succeeds exactly when the output shape's strides fit machine
/// words, its byte size fits as well, a stride is present for every output
/// axis, and every output position is realisable.
pub open spec fn slice_ok(
    input_len: int,
    elem: int,
    input_strides: Seq<usize>,
    output_shape: Seq<usize>,
    row_start: usize,
    col_start: usize,
) -> bool {
    &&& suffix_products_fit(output_shape)
    &&& input_strides.len() >= output_shape.len()
    &&& spec_product(output_shape) * elem <= usize::MAX
    &&& forall|o: int|
        0 <= o < spec_product(output_shape) ==> slice_pos_ok(
            o,
            output_shape,
            input_strides,
            row_start,
            col_start,
            elem,
            input_len,
        )
}

/// Slice with explicit offsets: output element `o` is the input element at
/// the output position shifted by `row_start` on the first axis and
/// `col_start` on the second. Succeeds exactly when every output position is
/// realisable within the input buffer.
pub fn execute_slice_with_offsets(
    input: &Vec<u8>,
    elem: usize,
    input_strides: &Vec<usize>,
    output_shape: &Vec<usize>,
    row_start: usize,
    col_start: usize,
) -> (r: Result<Vec<u8>, WasmError>)
    requires
        1 <= elem <= 8,
    ensures
        (r is Ok <==> slice_ok(
            input@.len() as int,
            elem as int,
            input_strides@,
            output_shape@,
            row_start,
            col_start,
        )),
        r is Ok ==> {
            let out = r->Ok_0;
            &&& suffix_products_fit(output_shape@)
            &&& out@.len() == spec_product(output_shape@) * elem
            &&& forall|o: int|
                0 <= o < spec_product(output_shape@) ==> spec_lane(out@, elem as int, o)
                    == spec_lane(
                    input@,
                    elem as int,
                    spec_flat_index(
                        spec_slice_indices(
                            spec_unflatten(o, output_shape@),
                            row_start,
                            col_start,
                        ),
                        input_strides@.subrange(0, output_shape@.len() as int),
                    ),
                )
        },
        r is Err ==> r->Err_0 == WasmError::InvalidInput || r->Err_0 == WasmError::InvalidShape,
{
    let ghost ok = slice_ok(
        input@.len() as int,
        elem as int,
        input_strides@,
        output_shape@,
        row_start,
        col_start,
    );
    let ilen = input.len();
    let counted = try_strides_and_count(output_shape);
    let total = match counted {
        None => {
            return Err(WasmError::InvalidShape);
        },
        Some((_, count)) => count,
    };
    if input_strides.len() < output_shape.len() {
        return Err(WasmError::InvalidInput);
    }
    if total > 0 {
        let mut d: usize = 0;
        while d < output_shape.len()
            invariant
                d <= output_shape@.len(),
                total == spec_product(output_shape@),
                total > 0,
                forall|m: int| 0 <= m < d ==> #[trigger] output_shape@[m] >= 1,
            decreases output_shape@.len() - d,
        {
            if output_shape[d] == 0 {
                proof {
                    crate::shape::lemma_product_zero(output_shape@, d as int);
                }
                return Err(WasmError::InvalidInput);
            }
            d += 1;
        }
    }
    if elem != 0 && total > usize::MAX / elem {
        proof {
            lemma_gt_div_mul(total as int, elem as int);
        }
        return Err(WasmError::InvalidInput);
    }
    proof {
        lemma_mul_div_bound(total as int, elem as int);
        assert(total <= total * elem) by (nonlinear_arith)
            requires
                elem >= 1,
                total >= 0,
        ;
    }
    let mut map: Vec<usize> = Vec::new();
    let mut o: usize = 0;
    while o < total
        invariant
            o <= total,
            1 <= elem <= 8,
            ilen == input@.len(),
            ok == slice_ok(
                input@.len() as int,
                elem as int,
                input_strides@,
                output_shape@,
                row_start,
                col_start,
            ),
            total == spec_product(output_shape@),
            total * elem <= usize::MAX,
            suffix_products_fit(output_shape@),
            all_positive(output_shape@) || total == 0,
            input_strides@.len() >= output_shape@.len(),
            map@.len() == o,
            forall|m: int|
                0 <= m < o ==> slice_pos_ok(
                    m,
                    output_shape@,
                    input_strides@,
                    row_start,
                    col_start,
                    elem as int,
                    input@.len() as int,
                ),
            forall|m: int|
                0 <= m < o ==> #[trigger] map@[m] == spec_flat_index(
                    spec_slice_indices(
                        spec_unflatten(m, output_shape@),
                        row_start,
                        col_start,
                    ),
                    input_strides@.subrange(0, output_shape@.len() as int),
                ),
            forall|m: int| 0 <= m < o ==> (#[trigger] map@[m] + 1) * elem <= input@.len(),
        decreases total - o,
    {
        let idx = flat_index_to_indices(o, output_shape);
        let mut adjusted: Vec<usize> = Vec::new();
        let mut i: usize = 0;
        let ghost target = spec_slice_indices(spec_unflatten(o as int, output_shape@), row_start, col_start);
        while i < idx.len()
            invariant
                i <= idx@.len(),
                o < total,
                total == spec_product(output_shape@),
                ilen == input@.len(),
                ok == slice_ok(
                    input@.len() as int,
                    elem as int,
                    input_strides@,
                    output_shape@,
                    row_start,
                    col_start,
                ),
                1 <= elem <= 8,
                idx@.len() == target.len(),
                idx@.len() == output_shape@.len(),
                idx@ == spec_unflatten(o as int, output_shape@),
                target == spec_slice_indices(idx@, row_start, col_start),
                adjusted@.len() == i,
                forall|m: int|
                    0 <= m < i ==> #[trigger] adjusted@[m] == idx@[m] + (if m == 0 {
                        row_start as int
                    } else if m == 1 {
                        col_start as int
                    } else {
                        0int
                    }),
            decreases idx@.len() - i,
        {
            let v = idx[i];
            let add = if i == 0 {
                row_start
            } else if i == 1 {
                col_start
            } else {
                0
            };
            if v > usize::MAX - add {
                proof {
                    if ok {
                        assert(slice_pos_ok(
                            o as int,
                            output_shape@,
                            input_strides@,
                            row_start,
                            col_start,
                            elem as int,
                            input@.len() as int,
                        ));
                        assert(false);
                    }
                }
                return Err(WasmError::InvalidInput);
            }
            adjusted.push(v + add);
            i += 1;
        }
        proof {
            assert forall|m: int| 0 <= m < target.len() implies adjusted@[m] == target[m] by {
                if m == 0 {
                    assert(target[0] == ((idx@[0] + row_start) as usize));
                } else if m == 1 {
                    assert(target[1] == ((idx@[1] + col_start) as usize));
                }
            }
            assert(adjusted@ =~= target);
        }
        let src = match try_flat_index(&adjusted, input_strides) {
            None => {
                proof {
                    if ok {
                        assert(slice_pos_ok(
                            o as int,
                            output_shape@,
                            input_strides@,
                            row_start,
                            col_start,
                            elem as int,
                            input@.len() as int,
                        ));
                        let v = spec_flat_index(
                            target,
                            input_strides@.subrange(0, output_shape@.len() as int),
                        );
                        assert((v + 1) * elem == v * elem + elem) by (nonlinear_arith);
                        assert(v <= v * elem) by (nonlinear_arith)
                            requires
                                v >= 0,
                                elem >= 1,
                        ;
                        crate::shape::lemma_flat_index_nonneg(
                            target,
                            input_strides@.subrange(0, output_shape@.len() as int),
                        );
                        assert(false);
                    }
                }
                return Err(WasmError::InvalidInput);
            },
            Some(s) => s,
        };
        if src > usize::MAX / elem {
            proof {
                if ok {
                    assert(slice_pos_ok(
                        o as int,
                        output_shape@,
                        input_strides@,
                        row_start,
                        col_start,
                        elem as int,
                        input@.len() as int,
                    ));
                    assert((src as int + 1) * elem == src as int * elem + elem)
                        by (nonlinear_arith);
                    lemma_mul_le_div(src as int, elem as int);
                    assert(false);
                }
            }
            return Err(WasmError::InvalidInput);
        }
        proof {
            lemma_mul_div_bound(src as int, elem as int);
            assert((src as int + 1) * elem == src as int * elem + elem) by (nonlinear_arith);
        }
        let src_bytes = src * elem;
        if src_bytes > ilen || elem > ilen - src_bytes {
            proof {
                if ok {
                    assert(slice_pos_ok(
                        o as int,
                        output_shape@,
                        input_strides@,
                        row_start,
                        col_start,
                        elem as int,
                        input@.len() as int,
                    ));
                    assert(false);
                }
            }
            return Err(WasmError::InvalidInput);
        }
        proof {
            if output_shape@.len() >= 1 {
                assert(adjusted@[0] == idx@[0] + row_start as int);
                assert(idx@[0] + row_start <= usize::MAX);
            }
            if output_shape@.len() >= 2 {
                assert(adjusted@[1] == idx@[1] + col_start as int);
                assert(idx@[1] + col_start <= usize::MAX);
            }
            assert(src == spec_flat_index(
                target,
                input_strides@.subrange(0, output_shape@.len() as int),
            ));
            assert((src as int + 1) * elem <= input@.len());
            assert(slice_pos_ok(
                o as int,
                output_shape@,
                input_strides@,
                row_start,
                col_start,
                elem as int,
                input@.len() as int,
            ));
        }
        map.push(src);
        o += 1;
    }
    proof {
        assert(map@.len() * elem == total * elem) by (nonlinear_arith)
            requires
                map@.len() == total,
        ;
        assert(slice_ok(
            input@.len() as int,
            elem as int,
            input_strides@,
            output_shape@,
            row_start,
            col_start,
        ));
    }
    Ok(gather_elements(input, elem, &map))
}

/// Per-axis input indices of a tile operation: output indices taken modulo
/// the input extents, axes aligned from the right.
pub open spec fn spec_tile_indices(out_idx: Seq<usize>, in_shape: Seq<usize>) -> Seq<usize> {
    Seq::new(
        in_shape.len(),
        |i: int|
            (out_idx[i + out_idx.len() - in_shape.len()] as int % in_shape[i] as int) as usize,
    )
}

/// A tile succeeds exactly when the output shape's strides and byte size fit
/// machine words, the input rank does not exceed the output rank, a stride
/// is present for every input axis, every input extent is positive (the
/// modulo mapping needs it), and every mapped source element lies within the
/// input buffer.
pub open spec fn tile_ok(
    input_len: int,
    elem: int,
    input_shape: Seq<usize>,
    input_strides: Seq<usize>,
    output_shape: Seq<usize>,
) -> bool {
    &&& suffix_products_fit(output_shape)
    &&& input_shape.len() <= output_shape.len()
    &&& input_strides.len() >= input_shape.len()
    &&& all_positive(input_shape)
    &&& spec_product(output_shape) * elem <= usize::MAX
    &&& forall|o: int|
        0 <= o < spec_product(output_shape) ==> (#[trigger] spec_flat_index(
            spec_tile_indices(spec_unflatten(o, output_shape), input_shape),
            input_strides.subrange(0, input_shape.len() as int),
        ) + 1) * elem <= input_len
}

/// Tile: every output element is the input element whose index along each
/// aligned axis is the output index modulo the input extent; extra output
/// axes on the left loop the whole input.
pub fn execute_tile(
    input: &Vec<u8>,
    elem: usize,
    input_shape: &Vec<usize>,
    input_strides: &Vec<usize>,
    output_shape: &Vec<usize>,
) -> (r: Result<Vec<u8>, WasmError>)
    requires
        1 <= elem <= 8,
    ensures
        (r is Ok <==> tile_ok(
            input@.len() as int,
            elem as int,
            input_shape@,
            input_strides@,
            output_shape@,
        )),
        r is Ok ==> {
            let out = r->Ok_0;
            &&& suffix_products_fit(output_shape@)
            &&& out@.len() == spec_product(output_shape@) * elem
            &&& forall|o: int|
                0 <= o < spec_product(output_shape@) ==> spec_lane(out@, elem as int, o)
                    == spec_lane(
                    input@,
                    elem as int,
                    spec_flat_index(
                        spec_tile_indices(spec_unflatten(o, output_shape@), input_shape@),
                        input_strides@.subrange(0, input_shape@.len() as int),
                    ),
                )
        },
        r is Err ==> r->Err_0 == WasmError::InvalidInput || r->Err_0 == WasmError::InvalidShape,
{
    let ghost ok = tile_ok(
        input@.len() as int,
        elem as int,
        input_shape@,
        input_strides@,
        output_shape@,
    );
    let ilen = input.len();
    let counted = try_strides_and_count(output_shape);
    let total = match counted {
        None => {
            return Err(WasmError::InvalidShape);
        },
        Some((_, count)) => count,
    };
    if input_shape.len() > output_shape.len() || input_strides.len() < input_shape.len() {
        return Err(WasmError::InvalidInput);
    }
    let mut d: usize = 0;
    while d < input_shape.len()
        invariant
            d <= input_shape@.len(),
            forall|m: int| 0 <= m < d ==> #[trigger] input_shape@[m] >= 1,
        decreases input_shape@.len() - d,
    {
        if input_shape[d] == 0 {
            return Err(WasmError::InvalidInput);
        }
        d += 1;
    }
    if total > 0 {
        let mut d2: usize = 0;
        while d2 < output_shape.len()
            invariant
                d2 <= output_shape@.len(),
                total == spec_product(output_shape@),
                total > 0,
                forall|m: int| 0 <= m < d2 ==> #[trigger] output_shape@[m] >= 1,
            decreases output_shape@.len() - d2,
        {
            if output_shape[d2] == 0 {
                proof {
                    crate::shape::lemma_product_zero(output_shape@, d2 as int);
                }
                return Err(WasmError::InvalidInput);
            }
            d2 += 1;
        }
    }
    if elem != 0 && total > usize::MAX / elem {
        proof {
            lemma_gt_div_mul(total as int, elem as int);
        }
        return Err(WasmError::InvalidInput);
    }
    proof {
        lemma_mul_div_bound(total as int, elem as int);
        assert(total <= total * elem) by (nonlinear_arith)
            requires
                elem >= 1,
                total >= 0,
        ;
    }
    let mut map: Vec<usize> = Vec::new();
    let mut o: usize = 0;
    while o < total
        invariant
            o <= total,
            1 <= elem <= 8,
            ilen == input@.len(),
            ok == tile_ok(
                input@.len() as int,
                elem as int,
                input_shape@,
                input_strides@,
                output_shape@,
            ),
            total == spec_product(output_shape@),
            total * elem <= usize::MAX,
            suffix_products_fit(output_shape@),
            all_positive(output_shape@) || total == 0,
            all_positive(input_shape@),
            input_shape@.len() <= output_shape@.len(),
            input_strides@.len() >= input_shape@.len(),
            map@.len() == o,
            forall|m: int|
                0 <= m < o ==> #[trigger] map@[m] == spec_flat_index(
                    spec_tile_indices(spec_unflatten(m, output_shape@), input_shape@),
                    input_strides@.subrange(0, input_shape@.len() as int),
                ),
            forall|m: int| 0 <= m < o ==> (#[trigger] map@[m] + 1) * elem <= input@.len(),
        decreases total - o,
    {
        let ghost src_spec = spec_flat_index(
            spec_tile_indices(spec_unflatten(o as int, output_shape@), input_shape@),
            input_strides@.subrange(0, input_shape@.len() as int),
        );
        let idx = flat_index_to_indices(o, output_shape);
        let in_idx = map_tile_output_to_input_indices(&idx, input_shape, output_shape);
        proof {
            assert(in_idx@ =~= spec_tile_indices(
                spec_unflatten(o as int, output_shape@),
                input_shape@,
            ));
        }
        let src = match try_flat_index(&in_idx, input_strides) {
            None => {
                proof {
                    if ok {
                        assert((src_spec + 1) * elem <= ilen);
                        assert((src_spec + 1) * elem == src_spec * elem + elem)
                            by (nonlinear_arith);
                        assert(src_spec <= src_spec * elem) by (nonlinear_arith)
                            requires
                                src_spec >= 0,
                                elem >= 1,
                        ;
                        crate::shape::lemma_flat_index_nonneg(
                            in_idx@,
                            input_strides@.subrange(0, input_shape@.len() as int),
                        );
                        assert(false);
                    }
                }
                return Err(WasmError::InvalidInput);
            },
            Some(s) => s,
        };
        if src > usize::MAX / elem {
            proof {
                if ok {
                    assert((src_spec + 1) * elem <= ilen);
                    assert((src as int + 1) * elem == src as int * elem + elem)
                        by (nonlinear_arith);
                    lemma_mul_le_div(src as int, elem as int);
                    assert(false);
                }
            }
            return Err(WasmError::InvalidInput);
        }
        proof {
            lemma_mul_div_bound(src as int, elem as int);
            assert((src as int + 1) * elem == src as int * elem + elem) by (nonlinear_arith);
        }
        let src_bytes = src * elem;
        if src_bytes > ilen || elem > ilen - src_bytes {
            proof {
                if ok {
                    assert((src_spec + 1) * elem <= ilen);
                    assert(false);
                }
            }
            return Err(WasmError::InvalidInput);
        }
        map.push(src);
        o += 1;
    }
    proof {
        assert(map@.len() * elem == total * elem) by (nonlinear_arith)
            requires
                map@.len() == total,
        ;
        assert forall|o: int| 0 <= o < total implies (#[trigger] spec_flat_index(
            spec_tile_indices(spec_unflatten(o, output_shape@), input_shape@),
            input_strides@.subrange(0, input_shape@.len() as int),
        ) + 1) * elem <= input@.len() by {
            assert(map@[o] == spec_flat_index(
                spec_tile_indices(spec_unflatten(o, output_shape@), input_shape@),
                input_strides@.subrange(0, input_shape@.len() as int),
            ));
            assert((map@[o] + 1) * elem <= input@.len());
        }
    }
    Ok(gather_elements(input, elem, &map))
}

/// An expand succeeds exactly when the output shape's strides and byte size
/// fit machine words, the input rank does not exceed the output rank, a
/// stride is present for every input axis, each input extent is one or
/// matches the output extent (axes aligned from the right), and every mapped
/// source element lies within the input buffer.
pub open spec fn expand_ok(
    input_len: int,
    elem: int,
    input_shape: Seq<usize>,
    input_strides: Seq<usize>,
    output_shape: Seq<usize>,
) -> bool {
    &&& suffix_products_fit(output_shape)
    &&& input_shape.len() <= output_shape.len()
    &&& input_strides.len() >= input_shape.len()
    &&& (forall|i: int|
        0 <= i < input_shape.len() ==> #[trigger] input_shape[i] == 1 || input_shape[i]
            == output_shape[i + output_shape.len() - input_shape.len()])
    &&& spec_product(output_shape) * elem <= usize::MAX
    &&& forall|o: int|
        0 <= o < spec_product(output_shape) ==> (#[trigger] spec_flat_index(
            spec_broadcast_indices(
                spec_unflatten(o, output_shape),
                input_shape,
                output_shape.len() as int,
            ),
            input_strides.subrange(0, input_shape.len() as int),
        ) + 1) * elem <= input_len
}

/// Expand: every output element is the input element at the same position,
/// with broadcast axes (input extent one) pinned to index zero; the input
/// shape is aligned to the output from the right. Mismatched non-unit
/// extents are refused.
pub fn execute_expand(
    input: &Vec<u8>,
    elem: usize,
    input_shape: &Vec<usize>,
    input_strides: &Vec<usize>,
    output_shape: &Vec<usize>,
) -> (r: Result<Vec<u8>, WasmError>)
    requires
        1 <= elem <= 8,
    ensures
        (r is Ok <==> expand_ok(
            input@.len() as int,
            elem as int,
            input_shape@,
            input_strides@,
            output_shape@,
        )),
        r is Ok ==> {
            let out = r->Ok_0;
            &&& suffix_products_fit(output_shape@)
            &&& out@.len() == spec_product(output_shape@) * elem
            &&& (forall|i: int|
                0 <= i < input_shape@.len() ==> #[trigger] input_shape@[i] == 1
                    || input_shape@[i] == output_shape@[i + output_shape@.len()
                    - input_shape@.len()])
            &&& forall|o: int|
                0 <= o < spec_product(output_shape@) ==> spec_lane(out@, elem as int, o)
                    == spec_lane(
                    input@,
                    elem as int,
                    spec_flat_index(
                        spec_broadcast_indices(
                            spec_unflatten(o, output_shape@),
                            input_shape@,
                            output_shape@.len() as int,
                        ),
                        input_strides@.subrange(0, input_shape@.len() as int),
                    ),
                )
        },
        r is Err ==> r->Err_0 == WasmError::InvalidInput || r->Err_0 == WasmError::InvalidShape,
{
    let ghost ok = expand_ok(
        input@.len() as int,
        elem as int,
        input_shape@,
        input_strides@,
        output_shape@,
    );
    let ilen = input.len();
    let counted = try_strides_and_count(output_shape);
    let total = match counted {
        None => {
            return Err(WasmError::InvalidShape);
        },
        Some((_, count)) => count,
    };
    if input_shape.len() > output_shape.len() || input_strides.len() < input_shape.len() {
        return Err(WasmError::InvalidInput);
    }
    let offset = output_shape.len() - input_shape.len();
    let in_rank = input_shape.len();
    let out_rank = output_shape.len();
    let mut d: usize = 0;
    while d < in_rank
        invariant
            d <= input_shape@.len(),
            in_rank == input_shape@.len(),
            out_rank == output_shape@.len(),
            input_shape@.len() <= output_shape@.len(),
            offset == output_shape@.len() - input_shape@.len(),
            forall|m: int|
                0 <= m < d ==> #[trigger] input_shape@[m] == 1 || input_shape@[m]
                    == output_shape@[m + offset],
        decreases input_shape@.len() - d,
    {
        if input_shape[d] != 1 && input_shape[d] != output_shape[d + offset] {
            return Err(WasmError::InvalidShape);
        }
        d += 1;
    }
    if total > 0 {
        let mut d2: usize = 0;
        while d2 < output_shape.len()
            invariant
                d2 <= output_shape@.len(),
                total == spec_product(output_shape@),
                total > 0,
                forall|m: int| 0 <= m < d2 ==> #[trigger] output_shape@[m] >= 1,
            decreases output_shape@.len() - d2,
        {
            if output_shape[d2] == 0 {
                proof {
                    crate::shape::lemma_product_zero(output_shape@, d2 as int);
                }
                return Err(WasmError::InvalidInput);
            }
            d2 += 1;
        }
    }
    if elem != 0 && total > usize::MAX / elem {
        proof {
            lemma_gt_div_mul(total as int, elem as int);
        }
        return Err(WasmError::InvalidInput);
    }
    proof {
        lemma_mul_div_bound(total as int, elem as int);
        assert(total <= total * elem) by (nonlinear_arith)
            requires
                elem >= 1,
                total >= 0,
        ;
    }
    let mut map: Vec<usize> = Vec::new();
    let mut o: usize = 0;
    while o < total
        invariant
            o <= total,
            1 <= elem <= 8,
            ilen == input@.len(),
            ok == expand_ok(
                input@.len() as int,
                elem as int,
                input_shape@,
                input_strides@,
                output_shape@,
            ),
            total == spec_product(output_shape@),
            total * elem <= usize::MAX,
            suffix_products_fit(output_shape@),
            all_positive(output_shape@) || total == 0,
            input_shape@.len() <= output_shape@.len(),
            input_strides@.len() >= input_shape@.len(),
            map@.len() == o,
            forall|m: int|
                0 <= m < o ==> #[trigger] map@[m] == spec_flat_index(
                    spec_broadcast_indices(
                        spec_unflatten(m, output_shape@),
                        input_shape@,
                        output_shape@.len() as int,
                    ),
                    input_strides@.subrange(0, input_shape@.len() as int),
                ),
            forall|m: int| 0 <= m < o ==> (#[trigger] map@[m] + 1) * elem <= input@.len(),
        decreases total - o,
    {
        let idx = flat_index_to_indices(o, output_shape);
        let ghost eff = spec_broadcast_indices(
            spec_unflatten(o as int, output_shape@),
            input_shape@,
            output_shape@.len() as int,
        );
        let ndim_out = output_shape.len();
        let ndim_in = input_shape.len();
        let off = ndim_out - ndim_in;
        let mut in_idx: Vec<usize> = Vec::new();
        let mut i: usize = 0;
        while i < ndim_in
            invariant
                i <= ndim_in,
                ndim_in == input_shape@.len(),
                ndim_out == output_shape@.len(),
                ndim_in <= ndim_out,
                off == ndim_out - ndim_in,
                idx@.len() == ndim_out,
                idx@ == spec_unflatten(o as int, output_shape@),
                eff == spec_broadcast_indices(idx@, input_shape@, ndim_out as int),
                in_idx@.len() == i,
                forall|m: int| 0 <= m < i ==> #[trigger] in_idx@[m] == eff[m],
            decreases ndim_in - i,
        {
            if input_shape[i] == 1 {
                in_idx.push(0);
            } else {
                in_idx.push(idx[i + off]);
            }
            i += 1;
        }
        proof {
            assert(in_idx@ =~= eff);
        }
        let ghost src_spec = spec_flat_index(
            eff,
            input_strides@.subrange(0, input_shape@.len() as int),
        );
        let src = match try_flat_index(&in_idx, input_strides) {
            None => {
                proof {
                    if ok {
                        assert((src_spec + 1) * elem <= ilen);
                        assert((src_spec + 1) * elem == src_spec * elem + elem)
                            by (nonlinear_arith);
                        assert(src_spec <= src_spec * elem) by (nonlinear_arith)
                            requires
                                src_spec >= 0,
                                elem >= 1,
                        ;
                        crate::shape::lemma_flat_index_nonneg(
                            eff,
                            input_strides@.subrange(0, input_shape@.len() as int),
                        );
                        assert(false);
                    }
                }
                return Err(WasmError::InvalidInput);
            },
            Some(s) => s,
        };
        if src > usize::MAX / elem {
            proof {
                if ok {
                    assert((src_spec + 1) * elem <= ilen);
                    assert((src as int + 1) * elem == src as int * elem + elem)
                        by (nonlinear_arith);
                    lemma_mul_le_div(src as int, elem as int);
                    assert(false);
                }
            }
            return Err(WasmError::InvalidInput);
        }
        proof {
            lemma_mul_div_bound(src as int, elem as int);
            assert((src as int + 1) * elem == src as int * elem + elem) by (nonlinear_arith);
        }
        let src_bytes = src * elem;
        if src_bytes > ilen || elem > ilen - src_bytes {
            proof {
                if ok {
                    assert((src_spec + 1) * elem <= ilen);
                    assert(false);
                }
            }
            return Err(WasmError::InvalidInput);
        }
        map.push(src);
        o += 1;
    }
    proof {
        assert(map@.len() * elem == total * elem) by (nonlinear_arith)
            requires
                map@.len() == total,
        ;
        assert forall|o: int| 0 <= o < total implies (#[trigger] spec_flat_index(
            spec_broadcast_indices(
                spec_unflatten(o, output_shape@),
                input_shape@,
                output_shape@.len() as int,
            ),
            input_strides@.subrange(0, input_shape@.len() as int),
        ) + 1) * elem <= input@.len() by {
            assert(map@[o] == spec_flat_index(
                spec_broadcast_indices(
                    spec_unflatten(o, output_shape@),
                    input_shape@,
                    output_shape@.len() as int,
                ),
                input_strides@.subrange(0, input_shape@.len() as int),
            ));
            assert((map@[o] + 1) * elem <= input@.len());
        }
    }
    Ok(gather_elements(input, elem, &map))
}

} // verus!
