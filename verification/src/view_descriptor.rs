//! View descriptors: metadata-only reshaping, transposition, permutation,
//! squeezing, unsqueezing and expansion of tensors sharing one buffer.

use vstd::prelude::*;
use crate::types::{WasmDType, WasmTensorMeta, WasmError};
use crate::shape::{spec_product, suffix_products_fit, try_strides_and_count};

verus! {

/// How a view was derived from its base tensor.
#[derive(Clone, Copy, Debug, PartialEq, Eq, Structural)]
pub enum ViewType {
    /// Original tensor owning the data.
    Base,
    /// Different shape, same element order.
    Reshape,
    /// Swapped axes and strides.
    Transpose,
    /// Arbitrary axis reordering.
    Permute,
    /// Subset of the data.
    Slice,
    /// Broadcast with zero strides.
    Expand,
    /// Unit dimensions removed.
    Squeeze,
    /// Unit dimensions added.
    Unsqueeze,
}

/// A view: the metadata it exposes, how it was derived, and the id of the
/// buffer it reads.
pub struct WasmViewDescriptor {
    pub buffer_id: u64,
    pub view_type: ViewType,
    pub meta: WasmTensorMeta,
}

/// Strides describe a row-major contiguous layout for this shape.
pub open spec fn spec_contiguous(shape: Seq<usize>, strides: Seq<usize>) -> bool {
    &&& strides.len() == shape.len()
    &&& forall|i: int|
        0 <= i < shape.len() ==> #[trigger] strides[i] == spec_product(
            shape.subrange(i + 1, shape.len() as int),
        )
}

impl WasmViewDescriptor {
    /// A base view over a buffer.
    pub fn new_base(buffer_id: u64, meta: WasmTensorMeta) -> (r: WasmViewDescriptor)
        ensures
            r.buffer_id == buffer_id,
            r.view_type == ViewType::Base,
            r.meta == meta,
    {
        WasmViewDescriptor { buffer_id, view_type: ViewType::Base, meta }
    }

    /// Whether the view is C-contiguous: every stride is the row-major stride
    /// of its axis.
    pub fn is_contiguous(&self) -> (r: bool)
        requires
            self.meta.consistent(),
        ensures
            r == spec_contiguous(self.meta.spec_shape(), self.meta.spec_strides()),
    {
        let shape = self.meta.shape();
        let strides = self.meta.strides();
        let n = shape.len();
        let mut expected: usize = 1;
        let mut i: usize = n;
        proof {
            assert(shape@.subrange(n as int, n as int) =~= Seq::<usize>::empty());
        }
        while i > 0
            invariant
                i <= n,
                n == shape@.len(),
                strides@.len() == n,
                shape@ == self.meta.spec_shape(),
                strides@ == self.meta.spec_strides(),
                self.meta.consistent(),
                expected == spec_product(shape@.subrange(i as int, n as int)),
                forall|k: int|
                    i <= k < n ==> #[trigger] strides@[k] == spec_product(
                        shape@.subrange(k + 1, n as int),
                    ),
            decreases i,
        {
            proof {
                crate::shape::lemma_product_split_at(shape@, i - 1);
                crate::shape::lemma_product_nonneg(shape@.subrange(i as int, n as int));
                assert(spec_product(shape@.subrange(i - 1, shape@.len() as int)) <= usize::MAX);
            }
            i -= 1;
            if strides[i] != expected {
                return false;
            }
            expected = shape[i] * expected;
        }
        proof {
            assert(shape@.subrange(0, n as int) =~= shape@);
        }
        true
    }

    /// A reshape view: same buffer, new shape in row-major order. Refused
    /// exactly when the element counts differ, the view is not contiguous, or
    /// the new shape overflows stride arithmetic.
    pub fn reshape(&self, new_shape: Vec<usize>) -> (r: Result<WasmViewDescriptor, WasmError>)
        requires
            self.meta.consistent(),
        ensures
            (r is Ok <==> spec_product(new_shape@) == self.meta.spec_size() && spec_contiguous(
                self.meta.spec_shape(),
                self.meta.spec_strides(),
            ) && suffix_products_fit(new_shape@)),
            r is Ok ==> {
                let v = r->Ok_0;
                &&& v.buffer_id == self.buffer_id
                &&& v.view_type == ViewType::Reshape
                &&& v.meta.spec_dtype() == self.meta.spec_dtype()
                &&& v.meta.spec_shape() == new_shape@
                &&& spec_contiguous(v.meta.spec_shape(), v.meta.spec_strides())
                &&& v.meta.spec_size() == self.meta.spec_size()
                &&& v.meta.spec_offset() == self.meta.spec_offset()
                &&& v.meta.consistent()
            },
    {
        let counted = try_strides_and_count(&new_shape);
        match counted {
            None => Err(WasmError::InvalidShape),
            Some((strides, count)) => {
                if count != self.meta.size() {
                    return Err(WasmError::InvalidShape);
                }
                if !self.is_contiguous() {
                    return Err(WasmError::InvalidShape);
                }
                let meta = WasmTensorMeta::new(
                    self.meta.dtype(),
                    new_shape,
                    strides,
                    count,
                    self.meta.offset(),
                );
                Ok(
                    WasmViewDescriptor {
                        buffer_id: self.buffer_id,
                        view_type: ViewType::Reshape,
                        meta,
                    },
                )
            },
        }
    }

    /// A transpose view of a two-dimensional tensor: axes and strides
    /// swapped. Refused exactly on other ranks.
    pub fn transpose(&self) -> (r: Result<WasmViewDescriptor, WasmError>)
        requires
            self.meta.consistent(),
        ensures
            (r is Ok <==> self.meta.spec_shape().len() == 2),
            r is Ok ==> {
                let v = r->Ok_0;
                &&& v.buffer_id == self.buffer_id
                &&& v.view_type == ViewType::Transpose
                &&& v.meta.spec_dtype() == self.meta.spec_dtype()
                &&& v.meta.spec_shape() == seq![
                    self.meta.spec_shape()[1],
                    self.meta.spec_shape()[0],
                ]
                &&& v.meta.spec_strides() == seq![
                    self.meta.spec_strides()[1],
                    self.meta.spec_strides()[0],
                ]
                &&& v.meta.spec_size() == self.meta.spec_size()
                &&& v.meta.spec_offset() == self.meta.spec_offset()
            },
    {
        let shape = self.meta.shape();
        let strides = self.meta.strides();
        if shape.len() != 2 {
            return Err(WasmError::NotImplemented);
        }
        let new_shape = vec![shape[1], shape[0]];
        let new_strides = vec![strides[1], strides[0]];
        proof {
            assert(new_shape@ =~= seq![self.meta.spec_shape()[1], self.meta.spec_shape()[0]]);
            assert(new_strides@ =~= seq![
                self.meta.spec_strides()[1],
                self.meta.spec_strides()[0],
            ]);
        }
        let meta = WasmTensorMeta::new(
            self.meta.dtype(),
            new_shape,
            new_strides,
            self.meta.size(),
            self.meta.offset(),
        );
        Ok(WasmViewDescriptor { buffer_id: self.buffer_id, view_type: ViewType::Transpose, meta })
    }

    /// A permuted view: shape and strides reordered by `axes`, which must be
    /// a permutation of the axis indices.
    pub fn permute(&self, axes: Vec<usize>) -> (r: Result<WasmViewDescriptor, WasmError>)
        requires
            self.meta.consistent(),
        ensures
            r is Ok ==> {
                let v = r->Ok_0;
                &&& axes@.len() == self.meta.spec_shape().len()
                &&& forall|i: int| 0 <= i < axes@.len() ==> #[trigger] axes@[i] < axes@.len()
                &&& v.buffer_id == self.buffer_id
                &&& v.view_type == ViewType::Permute
                &&& v.meta.spec_dtype() == self.meta.spec_dtype()
                &&& v.meta.spec_shape().len() == axes@.len()
                &&& v.meta.spec_strides().len() == axes@.len()
                &&& forall|i: int|
                    0 <= i < axes@.len() ==> #[trigger] v.meta.spec_shape()[i]
                        == self.meta.spec_shape()[axes@[i] as int]
                &&& forall|i: int|
                    0 <= i < axes@.len() ==> #[trigger] v.meta.spec_strides()[i]
                        == self.meta.spec_strides()[axes@[i] as int]
                &&& v.meta.spec_size() == self.meta.spec_size()
                &&& v.meta.spec_offset() == self.meta.spec_offset()
            },
            axes@.len() != self.meta.spec_shape().len() ==> r is Err,
    {
        let shape = self.meta.shape();
        let strides = self.meta.strides();
        let n = shape.len();
        if axes.len() != n {
            return Err(WasmError::InvalidInput);
        }
        let mut seen = vec![false; n];
        let mut i: usize = 0;
        while i < n
            invariant
                i <= n,
                n == axes@.len(),
                seen.len() == n,
                forall|k: int| 0 <= k < i ==> #[trigger] axes@[k] < n,
            decreases n - i,
        {
            let axis = axes[i];
            if axis >= n || seen[axis] {
                return Err(WasmError::InvalidInput);
            }
            seen.set(axis, true);
            i += 1;
        }
        let mut new_shape: Vec<usize> = Vec::new();
        let mut new_strides: Vec<usize> = Vec::new();
        let mut j: usize = 0;
        while j < n
            invariant
                j <= n,
                n == axes@.len(),
                n == shape@.len(),
                n == strides@.len(),
                shape@ == self.meta.spec_shape(),
                strides@ == self.meta.spec_strides(),
                forall|k: int| 0 <= k < n ==> #[trigger] axes@[k] < n,
                new_shape.len() == j,
                new_strides.len() == j,
                forall|k: int|
                    0 <= k < j ==> #[trigger] new_shape@[k] == shape@[axes@[k] as int],
                forall|k: int|
                    0 <= k < j ==> #[trigger] new_strides@[k] == strides@[axes@[k] as int],
            decreases n - j,
        {
            new_shape.push(shape[axes[j]]);
            new_strides.push(strides[axes[j]]);
            j += 1;
        }
        let meta = WasmTensorMeta::new(
            self.meta.dtype(),
            new_shape,
            new_strides,
            self.meta.size(),
            self.meta.offset(),
        );
        Ok(WasmViewDescriptor { buffer_id: self.buffer_id, view_type: ViewType::Permute, meta })
    }

    /// A squeezed view: the listed unit axes (or, with no list, every unit
    /// axis) are removed; a tensor squeezed to nothing becomes a scalar of
    /// shape one.
    pub fn squeeze(&self, axes: Option<Vec<usize>>) -> (r: Result<WasmViewDescriptor, WasmError>)
        requires
            self.meta.consistent(),
        ensures
            r is Ok ==> {
                let v = r->Ok_0;
                &&& v.buffer_id == self.buffer_id
                &&& v.view_type == ViewType::Squeeze
                &&& v.meta.spec_dtype() == self.meta.spec_dtype()
                &&& v.meta.spec_shape().len() == v.meta.spec_strides().len()
                &&& v.meta.spec_size() == self.meta.spec_size()
                &&& v.meta.spec_offset() == self.meta.spec_offset()
                &&& v.meta.spec_shape().len() >= 1
            },
            axes is None ==> r is Ok,
    {
        let shape = self.meta.shape();
        let strides = self.meta.strides();
        let n = shape.len();
        let mut drop_axis = vec![false; n];
        match axes {
            Some(list) => {
                let mut i: usize = 0;
                while i < list.len()
                    invariant
                        i <= list@.len(),
                        n == shape@.len(),
                        drop_axis.len() == n,
                        axes is Some,
                        shape@ == self.meta.spec_shape(),
                        forall|k: int|
                            0 <= k < n ==> #[trigger] drop_axis@[k] ==> shape@[k] == 1,
                    decreases list@.len() - i,
                {
                    let axis = list[i];
                    if axis >= n {
                        return Err(WasmError::InvalidInput);
                    }
                    if shape[axis] != 1 {
                        return Err(WasmError::InvalidInput);
                    }
                    drop_axis.set(axis, true);
                    i += 1;
                }
            },
            None => {
                let mut i: usize = 0;
                while i < n
                    invariant
                        i <= n,
                        n == shape@.len(),
                        drop_axis.len() == n,
                        shape@ == self.meta.spec_shape(),
                        forall|k: int|
                            0 <= k < n ==> #[trigger] drop_axis@[k] ==> shape@[k] == 1,
                    decreases n - i,
                {
                    if shape[i] == 1 {
                        drop_axis.set(i, true);
                    }
                    i += 1;
                }
            },
        }
        let mut new_shape: Vec<usize> = Vec::new();
        let mut new_strides: Vec<usize> = Vec::new();
        let mut j: usize = 0;
        while j < n
            invariant
                j <= n,
                n == shape@.len(),
                n == strides@.len(),
                drop_axis.len() == n,
                new_shape.len() == new_strides.len(),
            decreases n - j,
        {
            if !drop_axis[j] {
                new_shape.push(shape[j]);
                new_strides.push(strides[j]);
            }
            j += 1;
        }
        if new_shape.len() == 0 {
            new_shape.push(1);
            new_strides.push(1);
        }
        let meta = WasmTensorMeta::new(
            self.meta.dtype(),
            new_shape,
            new_strides,
            self.meta.size(),
            self.meta.offset(),
        );
        Ok(WasmViewDescriptor { buffer_id: self.buffer_id, view_type: ViewType::Squeeze, meta })
    }

    /// An unsqueezed view: a unit axis inserted at `axis`.
    pub fn unsqueeze(&self, axis: usize) -> (r: Result<WasmViewDescriptor, WasmError>)
        requires
            self.meta.consistent(),
        ensures
            axis > self.meta.spec_shape().len() ==> r is Err,
            r is Ok ==> {
                let v = r->Ok_0;
                &&& v.buffer_id == self.buffer_id
                &&& v.view_type == ViewType::Unsqueeze
                &&& v.meta.spec_dtype() == self.meta.spec_dtype()
                &&& v.meta.spec_shape() == self.meta.spec_shape().insert(axis as int, 1usize)
                &&& v.meta.spec_strides().len() == self.meta.spec_strides().len() + 1
                &&& v.meta.spec_size() == self.meta.spec_size()
                &&& v.meta.spec_offset() == self.meta.spec_offset()
            },
    {
        let shape = self.meta.shape();
        let strides = self.meta.strides();
        if axis > shape.len() {
            return Err(WasmError::InvalidInput);
        }
        let new_stride: usize = if axis < strides.len() {
            let st = strides[axis];
            let ext = shape[axis];
            if ext != 0 && st > usize::MAX / ext {
                return Err(WasmError::InvalidShape);
            }
            proof {
                let q = usize::MAX as int / ext as int;
                if ext != 0 {
                    vstd::arithmetic::div_mod::lemma_fundamental_div_mod(
                        usize::MAX as int,
                        ext as int,
                    );
                    assert(st * ext <= usize::MAX) by (nonlinear_arith)
                        requires
                            st <= q,
                            st >= 0,
                            usize::MAX == ext as int * q + usize::MAX as int % (ext as int),
                            0 <= usize::MAX as int % (ext as int) < ext as int,
                            ext >= 1,
                    ;
                }
            }
            st * ext
        } else {
            1
        };
        let mut new_shape = shape;
        new_shape.insert(axis, 1);
        let mut new_strides = strides;
        new_strides.insert(axis, new_stride);
        let meta = WasmTensorMeta::new(
            self.meta.dtype(),
            new_shape,
            new_strides,
            self.meta.size(),
            self.meta.offset(),
        );
        Ok(WasmViewDescriptor { buffer_id: self.buffer_id, view_type: ViewType::Unsqueeze, meta })
    }


    /// An expanded view: the shape is broadcast to `targets`, where an entry
    /// of minus one keeps the current extent, a matching extent is kept, and
    /// a unit extent broadcasts with a zero stride. A shorter input gains
    /// leading unit axes. Mismatched non-unit extents are refused.
    pub fn expand(&self, targets: Vec<i32>) -> (r: Result<WasmViewDescriptor, WasmError>)
        requires
            self.meta.consistent(),
        ensures
            targets@.len() < self.meta.spec_shape().len() ==> r is Err,
            r is Ok ==> {
                let v = r->Ok_0;
                &&& v.buffer_id == self.buffer_id
                &&& v.view_type == ViewType::Expand
                &&& v.meta.spec_dtype() == self.meta.spec_dtype()
                &&& v.meta.spec_shape().len() == targets@.len()
                &&& v.meta.spec_strides().len() == targets@.len()
                &&& v.meta.spec_offset() == self.meta.spec_offset()
                &&& forall|i: int|
                    0 <= i < targets@.len() && targets@[i] >= 0 && v.meta.spec_shape()[i] != (
                    #[trigger] targets@[i]) as int ==> v.meta.spec_strides()[i] == 0
            },
    {
        let shape = self.meta.shape();
        let strides = self.meta.strides();
        let n = shape.len();
        let t = targets.len();
        if t < n {
            return Err(WasmError::InvalidShape);
        }
        let lead = t - n;
        let mut final_shape: Vec<usize> = Vec::new();
        let mut final_strides: Vec<usize> = Vec::new();
        let mut i: usize = 0;
        while i < t
            invariant
                i <= t,
                t == targets@.len(),
                n == shape@.len(),
                n == strides@.len(),
                lead == t - n,
                final_shape@.len() == i,
                final_strides@.len() == i,
                forall|m: int|
                    0 <= m < i && targets@[m] >= 0 && final_shape@[m] != (
                    #[trigger] targets@[m]) as int ==> final_strides@[m] == 0,
            decreases t - i,
        {
            let current_size: usize = if i < lead {
                1
            } else {
                shape[i - lead]
            };
            let current_stride: usize = if i < lead {
                0
            } else {
                strides[i - lead]
            };
            let target = targets[i];
            if target < 0 {
                final_shape.push(current_size);
                final_strides.push(current_stride);
            } else if target as usize == current_size {
                final_shape.push(current_size);
                final_strides.push(current_stride);
            } else if current_size == 1 {
                final_shape.push(target as usize);
                final_strides.push(0);
            } else {
                return Err(WasmError::InvalidShape);
            }
            i += 1;
        }
        let counted = crate::shape::try_strides_and_count(&final_shape);
        let new_size = match counted {
            None => {
                return Err(WasmError::InvalidShape);
            },
            Some((_, count)) => count,
        };
        let meta = WasmTensorMeta::new(
            self.meta.dtype(),
            final_shape,
            final_strides,
            new_size,
            self.meta.offset(),
        );
        Ok(WasmViewDescriptor { buffer_id: self.buffer_id, view_type: ViewType::Expand, meta })
    }
}

} // verus!
