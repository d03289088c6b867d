//! Core data types: element dtypes, operation tags, tensor metadata and the
//! error taxonomy shared by the memory system, the pattern cache and the
//! kernels.

use vstd::prelude::*;
use crate::shape::{spec_product, suffix_products_fit};

verus! {

/// Element data types. Each has a fixed byte size; float dtypes take part in
/// every kernel, integer dtypes in arithmetic and reductions only.
#[derive(Clone, Copy, Debug, PartialEq, Eq, Structural)]
pub enum WasmDType {
    Int8,
    Uint8,
    Int16,
    Uint16,
    Int32,
    Uint32,
    Float32,
    Float64,
    BigInt64,
    BigUint64,
    Bool,
}

/// Byte size of each dtype.
pub open spec fn spec_byte_size(dtype: WasmDType) -> usize {
    match dtype {
        WasmDType::Int8 | WasmDType::Uint8 | WasmDType::Bool => 1usize,
        WasmDType::Int16 | WasmDType::Uint16 => 2usize,
        WasmDType::Int32 | WasmDType::Uint32 | WasmDType::Float32 => 4usize,
        WasmDType::Float64 | WasmDType::BigInt64 | WasmDType::BigUint64 => 8usize,
    }
}

impl WasmDType {
    /// The byte size of this data type.
    pub fn byte_size(&self) -> (r: usize)
        ensures
            r == spec_byte_size(*self),
            1 <= r <= 8,
    {
        match self {
            WasmDType::Int8 | WasmDType::Uint8 | WasmDType::Bool => 1,
            WasmDType::Int16 | WasmDType::Uint16 => 2,
            WasmDType::Int32 | WasmDType::Uint32 | WasmDType::Float32 => 4,
            WasmDType::Float64 | WasmDType::BigInt64 | WasmDType::BigUint64 => 8,
        }
    }

    /// Whether this is a floating-point type.
    pub fn is_float(&self) -> (r: bool)
        ensures
            r == (*self == WasmDType::Float32 || *self == WasmDType::Float64),
    {
        match self {
            WasmDType::Float32 | WasmDType::Float64 => true,
            _ => false,
        }
    }

    /// Whether this is an integer (non-float) type.
    pub fn is_integer(&self) -> (r: bool)
        ensures
            r == !(*self == WasmDType::Float32 || *self == WasmDType::Float64),
    {
        !self.is_float()
    }

    /// Whether this type carries a sign.
    pub fn is_signed(&self) -> (r: bool)
        ensures
            r == (*self == WasmDType::Int8 || *self == WasmDType::Int16 || *self
                == WasmDType::Int32 || *self == WasmDType::BigInt64 || *self == WasmDType::Float32
                || *self == WasmDType::Float64),
    {
        match self {
            WasmDType::Int8 | WasmDType::Int16 | WasmDType::Int32 | WasmDType::BigInt64
            | WasmDType::Float32 | WasmDType::Float64 => true,
            _ => false,
        }
    }

    /// Whether this is a 64-bit integer type.
    pub fn is_bigint(&self) -> (r: bool)
        ensures
            r == (*self == WasmDType::BigInt64 || *self == WasmDType::BigUint64),
    {
        match self {
            WasmDType::BigInt64 | WasmDType::BigUint64 => true,
            _ => false,
        }
    }
}

/// Tensor operation tags.
#[derive(Clone, Copy, Debug, PartialEq, Eq, Structural)]
pub enum WasmOperation {
    Create,
    Neg,
    Abs,
    Sin,
    Cos,
    Exp,
    Log,
    Sqrt,
    Square,
    Add,
    Sub,
    Mul,
    Div,
    Reshape,
    View,
    Slice,
    Flatten,
    Permute,
    Transpose,
    Squeeze,
    Unsqueeze,
    Expand,
    Tile,
    Matmul,
    Softmax,
    LogSoftmax,
    Sum,
    Mean,
    Max,
    Min,
    Prod,
    Rearrange,
    Reduce,
}

/// Memory layout flags for tensors.
#[derive(Clone, Copy, Debug)]
pub struct WasmLayout {
    pub c_contiguous: bool,
    pub f_contiguous: bool,
    pub is_view: bool,
    pub writeable: bool,
    pub aligned: bool,
}

impl Default for WasmLayout {
    /// A fresh tensor is C-contiguous, writeable and aligned.
    fn default() -> (r: Self)
        ensures
            r.c_contiguous && !r.f_contiguous && !r.is_view && r.writeable && r.aligned,
    {
        WasmLayout {
            c_contiguous: true,
            f_contiguous: false,
            is_view: false,
            writeable: true,
            aligned: true,
        }
    }
}

/// Tensor metadata: dtype, shape, strides in elements, element count and the
/// element offset within the owning buffer.
#[derive(Clone, Debug)]
pub struct WasmTensorMeta {
    dtype: WasmDType,
    shape: Vec<usize>,
    strides: Vec<usize>,
    size: usize,
    layout: WasmLayout,
    offset: usize,
}

impl WasmTensorMeta {
    /// The dtype, in specifications.
    pub closed spec fn spec_dtype(&self) -> WasmDType {
        self.dtype
    }

    /// The shape, in specifications.
    pub closed spec fn spec_shape(&self) -> Seq<usize> {
        self.shape@
    }

    /// The strides, in specifications.
    pub closed spec fn spec_strides(&self) -> Seq<usize> {
        self.strides@
    }

    /// The element count, in specifications.
    pub closed spec fn spec_size(&self) -> usize {
        self.size
    }

    /// The element offset, in specifications.
    pub closed spec fn spec_offset(&self) -> usize {
        self.offset
    }

    /// Metadata is consistent: one stride per axis, and the element count is
    /// the product of the shape.
    pub open spec fn consistent(&self) -> bool {
        &&& self.spec_strides().len() == self.spec_shape().len()
        &&& self.spec_size() == spec_product(self.spec_shape())
        &&& suffix_products_fit(self.spec_shape())
    }

    pub fn new(
        dtype: WasmDType,
        shape: Vec<usize>,
        strides: Vec<usize>,
        size: usize,
        offset: usize,
    ) -> (r: WasmTensorMeta)
        ensures
            r.spec_dtype() == dtype,
            r.spec_shape() == shape@,
            r.spec_strides() == strides@,
            r.spec_size() == size,
            r.spec_offset() == offset,
    {
        WasmTensorMeta { dtype, shape, strides, size, layout: Default::default(), offset }
    }

    pub fn dtype(&self) -> (r: WasmDType)
        ensures
            r == self.spec_dtype(),
    {
        self.dtype
    }

    pub fn shape(&self) -> (r: Vec<usize>)
        ensures
            r@ == self.spec_shape(),
    {
        self.shape.clone()
    }

    pub fn strides(&self) -> (r: Vec<usize>)
        ensures
            r@ == self.spec_strides(),
    {
        self.strides.clone()
    }

    pub fn size(&self) -> (r: usize)
        ensures
            r == self.spec_size(),
    {
        self.size
    }

    pub fn offset(&self) -> (r: usize)
        ensures
            r == self.spec_offset(),
    {
        self.offset
    }

    /// Total bytes covered by the elements of this tensor.
    pub fn byte_size(&self) -> (r: usize)
        requires
            self.spec_size() * spec_byte_size(self.spec_dtype()) <= usize::MAX,
        ensures
            r == self.spec_size() * spec_byte_size(self.spec_dtype()),
    {
        self.size * self.dtype.byte_size()
    }
}

/// Error taxonomy for every fallible operation of the library.
#[derive(Clone, Copy, Debug, PartialEq, Eq, Structural)]
pub enum WasmError {
    InvalidOperation,
    InvalidDType,
    InvalidShape,
    OutOfMemory,
    InvalidInput,
    NotImplemented,
    MemoryAllocationFailed,
}

impl WasmError {
    /// Human-readable description of the error.
    pub fn message(&self) -> (r: &'static str)
        ensures
            (*self == WasmError::InvalidOperation ==> r@ == "Invalid operation"@),
            (*self == WasmError::InvalidDType ==> r@ == "Invalid data type"@),
            (*self == WasmError::InvalidShape ==> r@ == "Invalid tensor shape"@),
            (*self == WasmError::OutOfMemory ==> r@ == "Out of memory"@),
            (*self == WasmError::InvalidInput ==> r@ == "Invalid input"@),
            (*self == WasmError::NotImplemented ==> r@ == "Operation not yet implemented"@),
            (*self == WasmError::MemoryAllocationFailed ==> r@ == "Memory allocation failed"@),
    {
        proof {
            reveal_strlit("Invalid operation");
            reveal_strlit("Invalid data type");
            reveal_strlit("Invalid tensor shape");
            reveal_strlit("Out of memory");
            reveal_strlit("Invalid input");
            reveal_strlit("Operation not yet implemented");
            reveal_strlit("Memory allocation failed");
        }
        match self {
            WasmError::InvalidOperation => "Invalid operation",
            WasmError::InvalidDType => "Invalid data type",
            WasmError::InvalidShape => "Invalid tensor shape",
            WasmError::OutOfMemory => "Out of memory",
            WasmError::InvalidInput => "Invalid input",
            WasmError::NotImplemented => "Operation not yet implemented",
            WasmError::MemoryAllocationFailed => "Memory allocation failed",
        }
    }
}

/// Result type for operations of the library.
pub type WasmResult<T> = Result<T, WasmError>;

} // verus!
