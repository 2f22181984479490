//! The rules of the versioned JSON fixtures: what may be written, and what is
//! accepted back.
//!
//! Reading and writing JSON itself is left to the caller.

use vstd::prelude::*;
use vstd::string::StringExecFns;
use crate::error::{CortexError, ErrorView};
use crate::tensor::{Tensor, TensorView, layout_error};
use crate::tensor::finite::{all_finite, is_all_finite};
use crate::text::{decimal, decimal_text};

verus! {

/// The version every written value carries.
pub const SCHEMA_VERSION: u32 = 1;

/// Why an input of `len` bytes is refused before it is parsed.
pub open spec fn size_error(len: usize, max_bytes: usize) -> Option<ErrorView> {
    if len > max_bytes {
        Some(ErrorView::SerdeInputTooLarge { max_bytes, actual_bytes: len })
    } else {
        None
    }
}

/// Refuses an input of more than `max_bytes` bytes, nested weights included.
pub fn check_input_size(input: &[u8], max_bytes: usize) -> (r: Result<(), CortexError>)
    ensures
        match size_error(input@.len() as usize, max_bytes) {
            Some(e) => r matches Err(x) && x@ == e,
            None => r is Ok,
        },
{
    if input.len() > max_bytes {
        return Err(
            CortexError::SerdeInputTooLarge { max_bytes, actual_bytes: input.len() },
        );
    }
    Ok(())
}

/// Why a value of another version is refused.
pub open spec fn version_error(name: Seq<char>, version: u32) -> Option<ErrorView> {
    if version != SCHEMA_VERSION {
        Some(
            ErrorView::Msg(
                "unsupported "@ + name + " schema_version "@ + decimal(version as nat),
            ),
        )
    } else {
        None
    }
}

/// Refuses a value of another version than [`SCHEMA_VERSION`].
pub fn check_schema_version(name: &str, version: u32) -> (r: Result<(), CortexError>)
    ensures
        match version_error(name@, version) {
            Some(e) => r matches Err(x) && x@ == e,
            None => r is Ok,
        },
{
    if version != SCHEMA_VERSION {
        let mut msg: String = String::from_str("unsupported ");
        msg.append(name);
        msg.append(" schema_version ");
        msg.append(decimal_text(version as u64).as_str());
        return Err(CortexError::Msg(msg));
    }
    Ok(())
}

/// Why a tensor cannot be written.
pub open spec fn write_error(t: TensorView) -> Option<ErrorView> {
    if !all_finite(t.data) {
        Some(ErrorView::Msg("non-finite tensor data cannot be serialized"@))
    } else {
        None
    }
}

/// Refuses to write a tensor with a NaN or an infinity.
pub fn check_writable(t: &Tensor) -> (r: Result<(), CortexError>)
    ensures
        match write_error(t@) {
            Some(e) => r matches Err(x) && x@ == e,
            None => r is Ok,
        },
{
    if !is_all_finite(t.data()) {
        return Err(
            CortexError::Msg(String::from_str("non-finite tensor data cannot be serialized")),
        );
    }
    Ok(())
}

/// Why the parts of a written tensor are refused.
pub open spec fn read_error(version: u32, data: Seq<u32>, shape: Seq<usize>) -> Option<ErrorView> {
    match version_error("Tensor"@, version) {
        Some(e) => Some(e),
        None => if !all_finite(data) {
            Some(ErrorView::Msg("non-finite tensor data"@))
        } else {
            layout_error(data.len(), shape)
        },
    }
}

/// A tensor from its written parts.
pub fn tensor_from_wire(schema_version: u32, data: Vec<u32>, shape: &[usize]) -> (r: Result<
    Tensor,
    CortexError,
>)
    ensures
        match read_error(schema_version, data@, shape@) {
            Some(e) => r matches Err(x) && x@ == e,
            None => r matches Ok(t) && t@.wf() && t@ == (TensorView { data: data@, shape: shape@ }),
        },
{
    match check_schema_version("Tensor", schema_version) {
        Ok(_) => {},
        Err(e) => {
            return Err(e);
        },
    }
    if !is_all_finite(data.as_slice()) {
        return Err(CortexError::Msg(String::from_str("non-finite tensor data")));
    }
    Tensor::try_from_vec(data, shape)
}

/// Every tensor that can be written is accepted back.
pub proof fn law_written_is_readable(t: TensorView)
    requires
        t.wf(),
        write_error(t) is None,
    ensures
        read_error(SCHEMA_VERSION, t.data, t.shape) is None,
{
}

} // verus!
