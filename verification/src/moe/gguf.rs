//! Constants of the GGUF container format.

use vstd::prelude::*;

verus! {

pub const GGUF_VERSION: u32 = 3;
pub const GGML_TYPE_F32: u32 = 0;
pub const GGML_TYPE_F16: u32 = 1;
pub const GGML_TYPE_Q8_0: u32 = 8;
pub const GGML_TYPE_Q5_K: u32 = 13;
pub const GGML_TYPE_IQ3_S: u32 = 21;
pub const GGUF_VALUE_TYPE_UINT8: u32 = 0;
pub const GGUF_VALUE_TYPE_INT8: u32 = 1;
pub const GGUF_VALUE_TYPE_UINT16: u32 = 2;
pub const GGUF_VALUE_TYPE_INT16: u32 = 3;
pub const GGUF_VALUE_TYPE_UINT32: u32 = 4;
pub const GGUF_VALUE_TYPE_INT32: u32 = 5;
pub const GGUF_VALUE_TYPE_FLOAT32: u32 = 6;
pub const GGUF_VALUE_TYPE_BOOL: u32 = 7;
pub const GGUF_VALUE_TYPE_STRING: u32 = 8;
pub const GGUF_VALUE_TYPE_ARRAY: u32 = 9;
pub const GGUF_VALUE_TYPE_UINT64: u32 = 10;
pub const GGUF_VALUE_TYPE_INT64: u32 = 11;
pub const GGUF_VALUE_TYPE_FLOAT64: u32 = 12;
/// Largest accepted number of tensors or metadata entries.
pub const MAX_COUNT: u64 = 100_000;
/// Largest accepted number of dimensions of a tensor.
pub const MAX_DIMS: usize = 8;
/// Alignment of the tensor data when the file names none.
pub const DEFAULT_ALIGNMENT: usize = 32;

/// The four bytes a file starts with: `GGUF`.
pub open spec fn magic() -> Seq<u8> {
    seq![0x47u8, 0x47u8, 0x55u8, 0x46u8]
}

} // verus!
