//! Tensor kernels: element-wise operations, view materialisation, reductions,
//! matrix multiplication and softmax support, all over raw byte buffers.

pub mod lanes;
pub mod view;
pub mod unary;
pub mod binary;
pub mod reduction;
pub mod matmul;
pub mod softmax;
