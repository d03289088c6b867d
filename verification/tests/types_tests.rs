use tensor_core::types::{WasmDType, WasmError, WasmTensorMeta};
use tensor_core::shape::calculate_strides;

#[test]
fn test_dtype_byte_sizes() {
    assert_eq!(WasmDType::Int8.byte_size(), 1);
    assert_eq!(WasmDType::Uint8.byte_size(), 1);
    assert_eq!(WasmDType::Int16.byte_size(), 2);
    assert_eq!(WasmDType::Uint16.byte_size(), 2);
    assert_eq!(WasmDType::Int32.byte_size(), 4);
    assert_eq!(WasmDType::Uint32.byte_size(), 4);
    assert_eq!(WasmDType::Float32.byte_size(), 4);
    assert_eq!(WasmDType::Float64.byte_size(), 8);
    assert_eq!(WasmDType::BigInt64.byte_size(), 8);
    assert_eq!(WasmDType::BigUint64.byte_size(), 8);
}

#[test]
fn test_dtype_properties() {
    assert!(WasmDType::Float32.is_float());
    assert!(!WasmDType::Int32.is_float());
    assert!(WasmDType::Int32.is_signed());
    assert!(!WasmDType::Uint32.is_signed());
    assert!(WasmDType::BigInt64.is_bigint());
    assert!(!WasmDType::Float32.is_bigint());
}

#[test]
fn test_tensor_meta() {
    let meta = WasmTensorMeta::new(WasmDType::Float32, vec![2, 3, 4], vec![12, 4, 1], 24, 0);

    assert_eq!(meta.dtype(), WasmDType::Float32);
    assert_eq!(meta.shape(), vec![2, 3, 4]);
    assert_eq!(meta.size(), 24);
    assert_eq!(meta.byte_size(), 96);
}

#[test]
fn test_calculate_strides() {
    assert_eq!(calculate_strides(&vec![2, 3, 4]), vec![12, 4, 1]);
    assert_eq!(calculate_strides(&vec![5, 7]), vec![7, 1]);
    assert_eq!(calculate_strides(&vec![10]), vec![1]);
}

#[test]
fn test_bool_dtype_size() {
    assert_eq!(WasmDType::Bool.byte_size(), 1);
    assert!(WasmDType::Bool.is_integer());
}


#[test]
fn test_error_messages() {
    assert_eq!(WasmError::InvalidOperation.message(), "Invalid operation");
    assert_eq!(WasmError::OutOfMemory.message(), "Out of memory");
    assert_eq!(WasmError::NotImplemented.message(), "Operation not yet implemented");
}
