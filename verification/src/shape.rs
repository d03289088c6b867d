//! Shape and index arithmetic shared by every kernel: row-major strides,
//! flat/multi-dimensional index conversion, and the broadcasting rule.

use vstd::prelude::*;

verus! {

/// Product of all extents of a shape, as a mathematical integer.
pub open spec fn spec_product(shape: Seq<usize>) -> int
    decreases shape.len(),
{
    if shape.len() == 0 {
        1
    } else {
        spec_product(shape.drop_last()) * shape.last()
    }
}

/// Every suffix product of the shape fits in a machine word; this is what
/// row-major stride computation needs to stay in bounds.
pub open spec fn suffix_products_fit(shape: Seq<usize>) -> bool {
    forall|i: int|
        0 <= i <= shape.len() ==> spec_product(#[trigger] shape.subrange(i, shape.len() as int))
            <= usize::MAX
}

/// Every shape product is non-negative.
pub proof fn lemma_product_nonneg(shape: Seq<usize>)
    ensures
        0 <= spec_product(shape),
    decreases shape.len(),
{
    if shape.len() > 0 {
        lemma_product_nonneg(shape.drop_last());
    }
}

/// product(shape[i..]) == shape[i] * product(shape[i+1..]).
pub proof fn lemma_product_split_at(shape: Seq<usize>, i: int)
    requires
        0 <= i < shape.len(),
    ensures
        spec_product(shape.subrange(i, shape.len() as int)) == shape[i] * spec_product(
            shape.subrange(i + 1, shape.len() as int),
        ),
    decreases shape.len() - i,
{
    let suffix = shape.subrange(i, shape.len() as int);
    if i + 1 == shape.len() {
        assert(suffix.drop_last() =~= Seq::<usize>::empty());
        assert(shape.subrange(i + 1, shape.len() as int) =~= Seq::<usize>::empty());
        assert(suffix.last() == shape[i]);
        assert(spec_product(Seq::<usize>::empty()) == 1);
        assert(spec_product(suffix) == spec_product(suffix.drop_last()) * suffix.last());
    } else {
        lemma_product_head(suffix, shape.subrange(i + 1, shape.len() as int));
        assert(suffix[0] == shape[i]);
    }
}

/// The product of a non-empty sequence equals its head times the product of
/// its tail, stated through `rest == s[1..]`.
proof fn lemma_product_head(s: Seq<usize>, rest: Seq<usize>)
    requires
        s.len() >= 1,
        rest =~= s.subrange(1, s.len() as int),
    ensures
        spec_product(s) == s[0] * spec_product(rest),
    decreases s.len(),
{
    if s.len() == 1 {
        assert(spec_product(Seq::<usize>::empty()) == 1);
        assert(s.drop_last() =~= Seq::<usize>::empty());
        assert(rest =~= Seq::<usize>::empty());
        assert(spec_product(s) == spec_product(s.drop_last()) * s.last());
    } else {
        let sd = s.drop_last();
        lemma_product_head(sd, sd.subrange(1, sd.len() as int));
        assert(rest.drop_last() =~= sd.subrange(1, sd.len() as int));
        assert(rest.last() == s.last());
        assert(s[0] == sd[0]);
        assert(s[0] * spec_product(rest) == spec_product(sd) * s.last()) by (nonlinear_arith)
            requires
                spec_product(rest) == spec_product(rest.drop_last()) * rest.last(),
                rest.drop_last() =~= sd.subrange(1, sd.len() as int),
                rest.last() == s.last(),
                spec_product(sd) == sd[0] * spec_product(sd.subrange(1, sd.len() as int)),
                s[0] == sd[0],
        ;
    }
}

/// Row-major strides for a shape; the stride of each axis is the product of
/// the extents to its right.
pub fn calculate_strides(shape: &Vec<usize>) -> (strides: Vec<usize>)
    requires
        suffix_products_fit(shape@),
    ensures
        strides.len() == shape.len(),
        forall|i: int|
            0 <= i < shape@.len() ==> strides@[i] == spec_product(
                shape@.subrange(i + 1, shape@.len() as int),
            ),
{
    let n = shape.len();
    let mut strides: Vec<usize> = Vec::new();
    let mut i: usize = 0;
    while i < n
        invariant
            i <= n,
            n == shape.len(),
            strides.len() == i,
            forall|m: int| 0 <= m < i ==> strides@[m] == 1,
        decreases n - i,
    {
        strides.push(1);
        i += 1;
    }
    if n == 0 {
        return strides;
    }
    proof {
        assert(shape@.subrange(n as int, n as int) =~= Seq::<usize>::empty());
    }
    let mut j: usize = n - 1;
    while j > 0
        invariant
            0 <= j < n,
            n == shape.len(),
            strides.len() == n,
            suffix_products_fit(shape@),
            forall|k: int|
                j <= k < n ==> strides@[k] == spec_product(
                    shape@.subrange(k + 1, n as int),
                ),
        decreases j,
    {
        proof {
            lemma_product_split_at(shape@, j as int);
            lemma_product_nonneg(shape@.subrange(j + 1, n as int));
            assert(spec_product(shape@.subrange(j as int, shape@.len() as int)) <= usize::MAX);
            assert(spec_product(shape@.subrange(j as int, n as int)) == shape@[j as int]
                * spec_product(shape@.subrange(j + 1, n as int)));
        }
        let next = strides[j];
        let prod = shape[j] * next;
        strides.set(j - 1, prod);
        j -= 1;
    }
    strides
}

/// Weighted sum of indices and strides: the flat element index of a
/// multi-dimensional position inside a strided tensor.
pub open spec fn spec_flat_index(indices: Seq<usize>, strides: Seq<usize>) -> int
    decreases indices.len(),
{
    if indices.len() == 0 {
        0
    } else {
        spec_flat_index(indices.drop_last(), strides.drop_last()) + indices.last()
            * strides.last()
    }
}

/// Flat indices are non-negative.
pub proof fn lemma_flat_index_nonneg(indices: Seq<usize>, strides: Seq<usize>)
    ensures
        0 <= spec_flat_index(indices, strides),
    decreases indices.len(),
{
    if indices.len() > 0 {
        lemma_flat_index_nonneg(indices.drop_last(), strides.drop_last());
        assert(indices.last() * strides.last() >= 0) by (nonlinear_arith)
            requires
                indices.last() >= 0,
                strides.last() >= 0,
        ;
    }
}

/// A prefix of the weighted sum never exceeds the whole (all terms are
/// non-negative).
pub proof fn lemma_flat_index_prefix_le(indices: Seq<usize>, strides: Seq<usize>, i: int)
    requires
        indices.len() <= strides.len(),
        0 <= i <= indices.len(),
    ensures
        spec_flat_index(indices.subrange(0, i), strides.subrange(0, i)) <= spec_flat_index(
            indices.subrange(0, indices.len() as int),
            strides.subrange(0, indices.len() as int),
        ),
    decreases indices.len() - i,
{
    if i < indices.len() {
        lemma_flat_index_prefix_le(indices, strides, i + 1);
        let ind1 = indices.subrange(0, i + 1);
        let str1 = strides.subrange(0, i + 1);
        assert(ind1.drop_last() =~= indices.subrange(0, i));
        assert(str1.drop_last() =~= strides.subrange(0, i));
        assert(ind1.last() * str1.last() >= 0) by (nonlinear_arith)
            requires
                ind1.last() >= 0,
                str1.last() >= 0,
        ;
    }
}

/// Flat element index of a multi-dimensional position: the sum over all axes
/// of index times stride.
pub fn compute_flat_index(indices: &Vec<usize>, strides: &Vec<usize>) -> (r: usize)
    requires
        indices.len() <= strides.len(),
        spec_flat_index(indices@, strides@.subrange(0, indices@.len() as int)) <= usize::MAX,
    ensures
        r == spec_flat_index(indices@, strides@.subrange(0, indices@.len() as int)),
{
    let n = indices.len();
    proof {
        assert(strides@.subrange(0, n as int).subrange(0, n as int) =~= strides@.subrange(
            0,
            n as int,
        ));
    }
    let mut acc: usize = 0;
    let mut i: usize = 0;
    while i < n
        invariant
            i <= n,
            n == indices.len(),
            n <= strides.len(),
            acc == spec_flat_index(indices@.subrange(0, i as int), strides@.subrange(0, i as int)),
            spec_flat_index(indices@, strides@.subrange(0, n as int)) <= usize::MAX,
        decreases n - i,
    {
        proof {
            let ind1 = indices@.subrange(0, i + 1);
            let str1 = strides@.subrange(0, i + 1);
            assert(ind1.drop_last() =~= indices@.subrange(0, i as int));
            assert(str1.drop_last() =~= strides@.subrange(0, i as int));
            lemma_flat_index_prefix_le(indices@, strides@, i + 1);
            assert(indices@.subrange(0, n as int) =~= indices@);
            lemma_flat_index_nonneg(indices@.subrange(0, i as int), strides@.subrange(0, i as int));
            assert(spec_flat_index(ind1, str1) == acc + ind1.last() * str1.last());
        }
        let term = indices[i] * strides[i];
        acc = acc + term;
        i += 1;
    }
    proof {
        assert(indices@.subrange(0, n as int) =~= indices@);
    }
    acc
}

/// Flat element index of a multi-dimensional position, refusing positions
/// whose weighted sum overflows a machine word.
pub fn try_flat_index(indices: &Vec<usize>, strides: &Vec<usize>) -> (r: Option<usize>)
    requires
        indices.len() <= strides.len(),
    ensures
        r is Some <==> spec_flat_index(indices@, strides@.subrange(0, indices@.len() as int))
            <= usize::MAX,
        r is Some ==> r->Some_0 == spec_flat_index(
            indices@,
            strides@.subrange(0, indices@.len() as int),
        ),
{
    let n = indices.len();
    let mut acc: usize = 0;
    let mut i: usize = 0;
    proof {
        assert(indices@.subrange(0, 0) =~= Seq::<usize>::empty());
        assert(strides@.subrange(0, 0) =~= Seq::<usize>::empty());
    }
    while i < n
        invariant
            i <= n,
            n == indices@.len(),
            n <= strides@.len(),
            acc == spec_flat_index(indices@.subrange(0, i as int), strides@.subrange(0, i as int)),
        decreases n - i,
    {
        let ghost ind1 = indices@.subrange(0, i + 1);
        let ghost str1 = strides@.subrange(0, i + 1);
        proof {
            assert(ind1.drop_last() =~= indices@.subrange(0, i as int));
            assert(str1.drop_last() =~= strides@.subrange(0, i as int));
            lemma_flat_index_nonneg(indices@.subrange(0, i as int), strides@.subrange(0, i as int));
        }
        let ix = indices[i];
        let st = strides[i];
        if ix != 0 && st > usize::MAX / ix {
            proof {
                let q = usize::MAX as int / ix as int;
                vstd::arithmetic::div_mod::lemma_fundamental_div_mod(usize::MAX as int, ix as int);
                assert(ix * st > usize::MAX) by (nonlinear_arith)
                    requires
                        st >= q + 1,
                        usize::MAX == ix as int * q + usize::MAX as int % (ix as int),
                        0 <= usize::MAX as int % (ix as int) < ix as int,
                        ix >= 1,
                ;
                lemma_flat_index_suffix_ge(indices@, strides@, i as int);
            }
            return None;
        }
        proof {
            if ix != 0 {
                let q = usize::MAX as int / ix as int;
                vstd::arithmetic::div_mod::lemma_fundamental_div_mod(usize::MAX as int, ix as int);
                assert(ix * st <= usize::MAX) by (nonlinear_arith)
                    requires
                        st <= q,
                        st >= 0,
                        usize::MAX == ix as int * q + usize::MAX as int % (ix as int),
                        0 <= usize::MAX as int % (ix as int) < ix as int,
                        ix >= 1,
                ;
            }
        }
        let term = ix * st;
        if acc > usize::MAX - term {
            proof {
                lemma_flat_index_suffix_ge(indices@, strides@, i as int);
            }
            return None;
        }
        acc = acc + term;
        i += 1;
    }
    proof {
        assert(indices@.subrange(0, n as int) =~= indices@);
    }
    Some(acc)
}

/// The full weighted sum is at least any prefix plus its next term.
proof fn lemma_flat_index_suffix_ge(indices: Seq<usize>, strides: Seq<usize>, i: int)
    requires
        indices.len() <= strides.len(),
        0 <= i < indices.len(),
    ensures
        spec_flat_index(indices, strides.subrange(0, indices.len() as int)) >= spec_flat_index(
            indices.subrange(0, i),
            strides.subrange(0, i),
        ) + indices[i] * strides[i],
{
    lemma_flat_index_prefix_le(indices, strides, i + 1);
    let ind1 = indices.subrange(0, i + 1);
    let str1 = strides.subrange(0, i + 1);
    assert(ind1.drop_last() =~= indices.subrange(0, i));
    assert(str1.drop_last() =~= strides.subrange(0, i));
    assert(spec_flat_index(ind1, str1) == spec_flat_index(
        indices.subrange(0, i),
        strides.subrange(0, i),
    ) + indices[i] * strides[i]);
    assert(indices.subrange(0, indices.len() as int) =~= indices);
}

/// All extents of the shape are at least one, so every flat index below the
/// element count decomposes uniquely.
pub open spec fn all_positive(shape: Seq<usize>) -> bool {
    forall|i: int| 0 <= i < shape.len() ==> #[trigger] shape[i] >= 1
}

/// A product of positive extents is positive.
pub proof fn lemma_product_positive(shape: Seq<usize>)
    requires
        all_positive(shape),
    ensures
        spec_product(shape) >= 1,
    decreases shape.len(),
{
    if shape.len() > 0 {
        lemma_product_positive(shape.drop_last());
        assert(spec_product(shape.drop_last()) * shape.last() >= 1) by (nonlinear_arith)
            requires
                spec_product(shape.drop_last()) >= 1,
                shape.last() >= 1,
        ;
    }
}


/// Row-major decomposition of a flat index: per-axis indices, most
/// significant axis first.
pub open spec fn spec_unflatten(flat: int, shape: Seq<usize>) -> Seq<usize>
    decreases shape.len(),
{
    if shape.len() == 0 {
        Seq::<usize>::empty()
    } else {
        let stride = spec_product(shape.subrange(1, shape.len() as int));
        seq![(flat / stride) as usize] + spec_unflatten(flat % stride, shape.subrange(1, shape.len() as int))
    }
}

/// A zero extent anywhere makes the whole product zero.
pub proof fn lemma_product_zero(shape: Seq<usize>, i: int)
    requires
        0 <= i < shape.len(),
        shape[i] == 0,
    ensures
        spec_product(shape) == 0,
    decreases shape.len(),
{
    if i == shape.len() - 1 {
        assert(spec_product(shape) == spec_product(shape.drop_last()) * 0);
        assert(spec_product(shape.drop_last()) * 0 == 0) by (nonlinear_arith);
    } else {
        lemma_product_zero(shape.drop_last(), i);
        assert(spec_product(shape) == 0 * shape.last());
        assert(0 * shape.last() == 0) by (nonlinear_arith);
    }
}

/// Converts a flat row-major index into per-axis indices; the inverse of
/// `compute_flat_index` with canonical strides.
pub fn flat_index_to_indices(flat_index: usize, shape: &Vec<usize>) -> (indices: Vec<usize>)
    requires
        all_positive(shape@),
        suffix_products_fit(shape@),
        flat_index < spec_product(shape@),
    ensures
        indices.len() == shape.len(),
        forall|i: int| 0 <= i < shape@.len() ==> indices@[i] < shape@[i],
        spec_flat_index(indices@, spec_row_major_of(shape@)) == flat_index,
        indices@ == spec_unflatten(flat_index as int, shape@),
{
    let n = shape.len();
    let strides = calculate_strides(shape);
    proof {
        assert(spec_row_major_of(shape@) =~= strides@);
    }
    let mut indices: Vec<usize> = Vec::new();
    let mut remaining: usize = flat_index;
    let mut i: usize = 0;
    proof {
        assert(shape@.subrange(0, n as int) =~= shape@);
        assert(indices@.subrange(0, 0) =~= indices@);
        assert(strides@.subrange(0, 0) =~= Seq::<usize>::empty());
        assert(indices@ + spec_unflatten(flat_index as int, shape@.subrange(0 as int, n as int))
            =~= spec_unflatten(flat_index as int, shape@));
    }
    while i < n
        invariant
            i <= n,
            n == shape.len(),
            strides.len() == n,
            indices.len() == i,
            all_positive(shape@),
            forall|k: int|
                0 <= k < n ==> strides@[k] == spec_product(
                    shape@.subrange(k + 1, n as int),
                ),
            forall|k: int| 0 <= k < i ==> indices@[k] < shape@[k],
            remaining < spec_product(shape@.subrange(i as int, n as int)),
            flat_index == spec_flat_index(indices@, strides@.subrange(0, i as int)) + remaining,
            spec_unflatten(flat_index as int, shape@) == indices@ + spec_unflatten(
                remaining as int,
                shape@.subrange(i as int, n as int),
            ),
        decreases n - i,
    {
        proof {
            lemma_product_split_at(shape@, i as int);
            lemma_product_positive(shape@.subrange(i + 1, n as int));
        }
        let stride = strides[i];
        let q = remaining / stride;
        let r = remaining % stride;
        proof {
            assert(q < shape@[i as int] && r < stride) by (nonlinear_arith)
                requires
                    stride >= 1,
                    remaining < shape@[i as int] * stride,
                    q == remaining as int / stride as int,
                    r == remaining as int % stride as int,
            ;
            assert(remaining == q * stride + r) by (nonlinear_arith)
                requires
                    stride >= 1,
                    q == remaining as int / stride as int,
                    r == remaining as int % stride as int,
            ;
            let ind1 = indices@.push(q);
            let str1 = strides@.subrange(0, i + 1);
            assert(ind1.drop_last() =~= indices@);
            assert(str1.drop_last() =~= strides@.subrange(0, i as int));
            assert(spec_flat_index(ind1, str1) == spec_flat_index(
                indices@,
                strides@.subrange(0, i as int),
            ) + q * stride);
        }
        proof {
            let suffix = shape@.subrange(i as int, n as int);
            let tail = shape@.subrange(i + 1, n as int);
            assert(suffix.subrange(1, suffix.len() as int) =~= tail);
            assert(spec_unflatten(remaining as int, suffix) == seq![q] + spec_unflatten(
                r as int,
                tail,
            ));
            assert(indices@.push(q) + spec_unflatten(r as int, tail) =~= indices@ + spec_unflatten(
                remaining as int,
                suffix,
            ));
        }
        indices.push(q);
        remaining = r;
        i += 1;
    }
    proof {
        assert(strides@.subrange(0, n as int) =~= strides@);
        assert(shape@.subrange(n as int, n as int) =~= Seq::<usize>::empty());
        assert(spec_product(Seq::<usize>::empty()) == 1);
        lemma_flat_index_nonneg(indices@, strides@);
        assert(indices@ + spec_unflatten(remaining as int, Seq::<usize>::empty()) =~= indices@);
    }
    indices
}

/// Canonical row-major strides of a shape, as a sequence of machine words.
pub open spec fn spec_row_major_of(shape: Seq<usize>) -> Seq<usize> {
    Seq::new(
        shape.len(),
        |i: int| spec_product(shape.subrange(i + 1, shape.len() as int)) as usize,
    )
}

/// Computes canonical strides and the element count, refusing shapes whose
/// suffix products do not fit a machine word.
pub fn try_strides_and_count(shape: &Vec<usize>) -> (r: Option<(Vec<usize>, usize)>)
    ensures
        r is Some <==> suffix_products_fit(shape@),
        r is Some ==> {
            let (strides, count) = r->Some_0;
            &&& strides@.len() == shape@.len()
            &&& forall|i: int|
                0 <= i < shape@.len() ==> strides@[i] == spec_product(
                    shape@.subrange(i + 1, shape@.len() as int),
                )
            &&& count == spec_product(shape@)
        },
{
    let n = shape.len();
    let mut strides: Vec<usize> = Vec::new();
    let mut k: usize = 0;
    while k < n
        invariant
            k <= n,
            n == shape.len(),
            strides.len() == k,
        decreases n - k,
    {
        strides.push(1);
        k += 1;
    }
    let mut acc: usize = 1;
    let mut i: usize = n;
    proof {
        assert(shape@.subrange(n as int, n as int) =~= Seq::<usize>::empty());
    }
    while i > 0
        invariant
            i <= n,
            n == shape.len(),
            strides.len() == n,
            acc == spec_product(shape@.subrange(i as int, n as int)),
            forall|j: int|
                i <= j <= n ==> spec_product(#[trigger] shape@.subrange(j, n as int))
                    <= usize::MAX,
            forall|j: int|
                i <= j < n ==> strides@[j] == spec_product(shape@.subrange(j + 1, n as int)),
        decreases i,
    {
        i -= 1;
        strides.set(i, acc);
        let d = shape[i];
        proof {
            lemma_product_split_at(shape@, i as int);
            lemma_product_nonneg(shape@.subrange(i + 1, n as int));
        }
        if d == 0 {
            acc = 0;
            proof {
                assert(spec_product(shape@.subrange(i as int, n as int)) == 0)
                    by (nonlinear_arith)
                    requires
                        spec_product(shape@.subrange(i as int, n as int)) == shape@[i as int]
                            * spec_product(shape@.subrange(i + 1, n as int)),
                        shape@[i as int] == 0,
                ;
            }
        } else {
            if acc > usize::MAX / d {
                proof {
                    let q = usize::MAX as int / d as int;
                    vstd::arithmetic::div_mod::lemma_fundamental_div_mod(
                        usize::MAX as int,
                        d as int,
                    );
                    assert(spec_product(shape@.subrange(i as int, n as int)) > usize::MAX)
                        by (nonlinear_arith)
                        requires
                            spec_product(shape@.subrange(i as int, n as int)) == shape@[
                                i as int
                            ] * spec_product(shape@.subrange(i + 1, n as int)),
                            shape@[i as int] == d,
                            spec_product(shape@.subrange(i + 1, n as int)) == acc,
                            acc >= q + 1,
                            usize::MAX == d as int * q + usize::MAX as int % (d as int),
                            0 <= usize::MAX as int % (d as int) < d as int,
                            d >= 1,
                    ;
                    assert(!suffix_products_fit(shape@));
                }
                return None;
            }
            proof {
                let q = usize::MAX as int / d as int;
                vstd::arithmetic::div_mod::lemma_fundamental_div_mod(usize::MAX as int, d as int);
                assert(d * acc == spec_product(shape@.subrange(i as int, n as int)) && d * acc
                    <= usize::MAX) by (nonlinear_arith)
                    requires
                        spec_product(shape@.subrange(i as int, n as int)) == shape@[i as int]
                            * spec_product(shape@.subrange(i + 1, n as int)),
                        shape@[i as int] == d,
                        spec_product(shape@.subrange(i + 1, n as int)) == acc,
                        acc <= q,
                        usize::MAX == d as int * q + usize::MAX as int % (d as int),
                        0 <= usize::MAX as int % (d as int) < d as int,
                        d >= 1,
                        acc >= 0,
                ;
            }
            acc = d * acc;
        }
    }
    proof {
        assert(shape@.subrange(0, n as int) =~= shape@);
    }
    Some((strides, acc))
}

/// Per-axis indices into a broadcast input: axes of extent one are pinned to
/// zero, the others follow the output position. Axes align from the right.
pub open spec fn spec_broadcast_indices(
    out_indices: Seq<usize>,
    tensor_shape: Seq<usize>,
    out_rank: int,
) -> Seq<usize> {
    Seq::new(
        tensor_shape.len(),
        |i: int|
            if tensor_shape[i] == 1 {
                0usize
            } else {
                out_indices[i + out_rank - tensor_shape.len()]
            },
    )
}

/// Flat index into a (possibly broadcast) input tensor for a given output
/// position, following the universal broadcasting rule: where an input axis
/// has extent one the index is zero, elsewhere it matches the output index,
/// with axes aligned from the right.
pub fn compute_broadcast_index(
    out_indices: &Vec<usize>,
    tensor_shape: &Vec<usize>,
    tensor_strides: &Vec<usize>,
    output_shape: &Vec<usize>,
) -> (r: usize)
    requires
        tensor_shape.len() <= out_indices.len(),
        tensor_shape.len() <= tensor_strides.len(),
        out_indices.len() == output_shape.len(),
        spec_flat_index(
            spec_broadcast_indices(out_indices@, tensor_shape@, output_shape@.len() as int),
            tensor_strides@.subrange(0, tensor_shape@.len() as int),
        ) <= usize::MAX,
    ensures
        r == spec_flat_index(
            spec_broadcast_indices(out_indices@, tensor_shape@, output_shape@.len() as int),
            tensor_strides@.subrange(0, tensor_shape@.len() as int),
        ),
{
    let ndim_out = output_shape.len();
    let ndim_tensor = tensor_shape.len();
    let offset = ndim_out - ndim_tensor;
    let ghost eff = spec_broadcast_indices(out_indices@, tensor_shape@, ndim_out as int);
    let mut effective: Vec<usize> = Vec::new();
    let mut i: usize = 0;
    while i < ndim_tensor
        invariant
            i <= ndim_tensor,
            ndim_tensor == tensor_shape.len(),
            ndim_out == out_indices.len(),
            ndim_tensor <= ndim_out,
            offset == ndim_out - ndim_tensor,
            effective.len() == i,
            eff == spec_broadcast_indices(out_indices@, tensor_shape@, ndim_out as int),
            forall|k: int| 0 <= k < i ==> effective@[k] == eff[k],
        decreases ndim_tensor - i,
    {
        if tensor_shape[i] == 1 {
            effective.push(0);
        } else {
            effective.push(out_indices[i + offset]);
        }
        i += 1;
    }
    proof {
        assert(effective@ =~= eff);
    }
    compute_flat_index(&effective, tensor_strides)
}

/// Per-axis input indices for a tile operation: the output index taken modulo
/// the input extent on each axis, with axes aligned from the right.
pub fn map_tile_output_to_input_indices(
    output_indices: &Vec<usize>,
    input_shape: &Vec<usize>,
    output_shape: &Vec<usize>,
) -> (r: Vec<usize>)
    requires
        input_shape.len() <= output_shape.len(),
        output_indices.len() == output_shape.len(),
        all_positive(input_shape@),
    ensures
        r.len() == input_shape.len(),
        forall|i: int|
            0 <= i < input_shape@.len() ==> r@[i] == output_indices@[i + output_shape@.len()
                - input_shape@.len()] as int % input_shape@[i] as int,
        forall|i: int| 0 <= i < input_shape@.len() ==> r@[i] < input_shape@[i],
{
    let input_rank = input_shape.len();
    let output_rank = output_shape.len();
    let dim_offset = output_rank - input_rank;
    let mut input_indices: Vec<usize> = Vec::new();
    let mut i: usize = 0;
    while i < input_rank
        invariant
            i <= input_rank,
            input_rank == input_shape.len(),
            output_rank == output_shape.len(),
            output_indices.len() == output_rank,
            input_rank <= output_rank,
            dim_offset == output_rank - input_rank,
            all_positive(input_shape@),
            input_indices.len() == i,
            forall|k: int|
                0 <= k < i ==> input_indices@[k] == output_indices@[k + dim_offset] as int
                    % input_shape@[k] as int,
            forall|k: int| 0 <= k < i ==> input_indices@[k] < input_shape@[k],
        decreases input_rank - i,
    {
        let output_idx = output_indices[i + dim_offset];
        let input_dim = input_shape[i];
        input_indices.push(output_idx % input_dim);
        i += 1;
    }
    input_indices
}

} // verus!
