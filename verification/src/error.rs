//! The error every fallible operation returns.

use vstd::prelude::*;
use vstd::string::StringExecFns;
use crate::float::{FloatUnit, shows};
use crate::text::{bracketed, decimal, size_text, sizes, sizes_text};

verus! {

/// Everything that can go wrong in tensor math, model loading and routing.
#[derive(Debug)]
#[allow(inconsistent_fields)]
pub enum CortexError {
    /// An operation got a tensor of the wrong rank.
    RankMismatch { expected: usize, got: usize },
    /// Two shapes, or a shape and a buffer length, disagree.
    ShapeMismatch { expected: Vec<usize>, got: Vec<usize> },
    /// One axis of an operand has the wrong extent.
    DimMismatch { op: &'static str, axis: usize, expected: usize, got: usize },
    /// The inner extents of a matrix product differ.
    MatmulDim { m: usize, k1: usize, k2: usize, n: usize },
    IndexOutOfBounds { axis: usize, index: usize, size: usize },
    TokenIndex { index: usize, vocab_size: usize },
    /// `eps` is the rejected binary32 pattern.
    InvalidEpsilon { eps: u32 },
    ZeroWidth { op: &'static str, axis: usize },
    SizeOverflow { shape: Vec<usize> },
    InvalidConfig(String),
    ModelLoad { path: String, reason: String },
    UnsupportedFormat(String),
    MissingTensor { name: String, path: String },
    InputLengthMismatch { expected: usize, got: usize },
    /// The lowest expert whose score is NaN.
    NanRoutingScore { expert_id: usize },
    OlmoeForward(String),
    /// A spiking backend refused a step.
    SnnBackend(String),
    SnnChannelMismatch { experts: usize, channels: usize },
    SnnNan { stage: &'static str },
    SnnSpikeOutOfRange { channel: usize, channels: usize },
    SerdeInputTooLarge { max_bytes: usize, actual_bytes: usize },
    Msg(String),
}

/// Name kept for callers of the router.
pub type HybridError = CortexError;

/// The mathematical content of a [`CortexError`].
#[verifier::ext_equal]
#[allow(inconsistent_fields)]
pub enum ErrorView {
    RankMismatch { expected: usize, got: usize },
    ShapeMismatch { expected: Seq<usize>, got: Seq<usize> },
    DimMismatch { op: Seq<char>, axis: usize, expected: usize, got: usize },
    MatmulDim { m: usize, k1: usize, k2: usize, n: usize },
    IndexOutOfBounds { axis: usize, index: usize, size: usize },
    TokenIndex { index: usize, vocab_size: usize },
    InvalidEpsilon { eps: u32 },
    ZeroWidth { op: Seq<char>, axis: usize },
    SizeOverflow { shape: Seq<usize> },
    InvalidConfig(Seq<char>),
    ModelLoad { path: Seq<char>, reason: Seq<char> },
    UnsupportedFormat(Seq<char>),
    MissingTensor { name: Seq<char>, path: Seq<char> },
    InputLengthMismatch { expected: usize, got: usize },
    NanRoutingScore { expert_id: usize },
    OlmoeForward(Seq<char>),
    SnnBackend(Seq<char>),
    SnnChannelMismatch { experts: usize, channels: usize },
    SnnNan { stage: Seq<char> },
    SnnSpikeOutOfRange { channel: usize, channels: usize },
    SerdeInputTooLarge { max_bytes: usize, actual_bytes: usize },
    Msg(Seq<char>),
}

impl View for CortexError {
    type V = ErrorView;

    open spec fn view(&self) -> ErrorView {
        match self {
            CortexError::RankMismatch { expected, got } => ErrorView::RankMismatch {
                expected: *expected,
                got: *got,
            },
            CortexError::ShapeMismatch { expected, got } => ErrorView::ShapeMismatch {
                expected: expected@,
                got: got@,
            },
            CortexError::DimMismatch { op, axis, expected, got } => ErrorView::DimMismatch {
                op: op@,
                axis: *axis,
                expected: *expected,
                got: *got,
            },
            CortexError::MatmulDim { m, k1, k2, n } => ErrorView::MatmulDim {
                m: *m,
                k1: *k1,
                k2: *k2,
                n: *n,
            },
            CortexError::IndexOutOfBounds { axis, index, size } => ErrorView::IndexOutOfBounds {
                axis: *axis,
                index: *index,
                size: *size,
            },
            CortexError::TokenIndex { index, vocab_size } => ErrorView::TokenIndex {
                index: *index,
                vocab_size: *vocab_size,
            },
            CortexError::InvalidEpsilon { eps } => ErrorView::InvalidEpsilon { eps: *eps },
            CortexError::ZeroWidth { op, axis } => ErrorView::ZeroWidth { op: op@, axis: *axis },
            CortexError::SizeOverflow { shape } => ErrorView::SizeOverflow { shape: shape@ },
            CortexError::InvalidConfig(s) => ErrorView::InvalidConfig(s@),
            CortexError::ModelLoad { path, reason } => ErrorView::ModelLoad {
                path: path@,
                reason: reason@,
            },
            CortexError::UnsupportedFormat(s) => ErrorView::UnsupportedFormat(s@),
            CortexError::MissingTensor { name, path } => ErrorView::MissingTensor {
                name: name@,
                path: path@,
            },
            CortexError::InputLengthMismatch { expected, got } => ErrorView::InputLengthMismatch {
                expected: *expected,
                got: *got,
            },
            CortexError::NanRoutingScore { expert_id } => ErrorView::NanRoutingScore {
                expert_id: *expert_id,
            },
            CortexError::OlmoeForward(s) => ErrorView::OlmoeForward(s@),
            CortexError::SnnBackend(s) => ErrorView::SnnBackend(s@),
            CortexError::SnnChannelMismatch { experts, channels } => ErrorView::SnnChannelMismatch {
                experts: *experts,
                channels: *channels,
            },
            CortexError::SnnNan { stage } => ErrorView::SnnNan { stage: stage@ },
            CortexError::SnnSpikeOutOfRange { channel, channels } => ErrorView::SnnSpikeOutOfRange {
                channel: *channel,
                channels: *channels,
            },
            CortexError::SerdeInputTooLarge { max_bytes, actual_bytes } => ErrorView::SerdeInputTooLarge {
                max_bytes: *max_bytes,
                actual_bytes: *actual_bytes,
            },
            CortexError::Msg(s) => ErrorView::Msg(s@),
        }
    }
}

impl ErrorView {
    /// The message of an error; `eps_text` is how its epsilon, if any, prints.
    pub open spec fn text(self, eps_text: Seq<char>) -> Seq<char> {
        match self {
            ErrorView::RankMismatch { expected, got } => "tensor rank mismatch: expected "@
                + decimal(expected as nat) + ", got "@ + decimal(got as nat),
            ErrorView::ShapeMismatch { expected, got } => "tensor shape mismatch: expected "@
                + bracketed(sizes(expected)) + ", got "@ + bracketed(sizes(got)),
            ErrorView::DimMismatch { op, axis, expected, got } => "dimension mismatch for "@
                + op + " on axis "@ + decimal(axis as nat) + ": expected "@
                + decimal(expected as nat) + ", got "@ + decimal(got as nat),
            ErrorView::MatmulDim { m, k1, k2, n } => "dimension mismatch for matmul: ["@
                + decimal(m as nat) + "×"@ + decimal(k1 as nat) + "] × ["@ + decimal(k2 as nat)
                + "×"@ + decimal(n as nat) + "]"@,
            ErrorView::IndexOutOfBounds { axis, index, size } => "index "@
                + decimal(index as nat) + " out of bounds for axis "@ + decimal(axis as nat)
                + " with size "@ + decimal(size as nat),
            ErrorView::TokenIndex { index, vocab_size } => "token index "@
                + decimal(index as nat) + " is out of vocabulary of size "@
                + decimal(vocab_size as nat),
            ErrorView::InvalidEpsilon { eps } => "invalid epsilon "@ + eps_text
                + ": must be positive and finite"@,
            ErrorView::ZeroWidth { op, axis } => "zero-width axis "@ + decimal(axis as nat)
                + " is invalid for "@ + op,
            ErrorView::SizeOverflow { shape } => "size overflow computing elements or strides for shape "@
                + bracketed(sizes(shape)),
            ErrorView::InvalidConfig(s) => "invalid configuration: "@ + s,
            ErrorView::ModelLoad { path, reason } => "model load failed for '"@ + path + "': "@
                + reason,
            ErrorView::UnsupportedFormat(s) => "unsupported model format: "@ + s,
            ErrorView::MissingTensor { name, path } => "missing tensor '"@ + name
                + "' in model '"@ + path + "'"@,
            ErrorView::InputLengthMismatch { expected, got } => "input length mismatch: expected "@
                + decimal(expected as nat) + ", got "@ + decimal(got as nat),
            ErrorView::NanRoutingScore { expert_id } => "NaN routing score at expert "@
                + decimal(expert_id as nat),
            ErrorView::OlmoeForward(s) => "router forward pass failed: "@ + s,
            ErrorView::SnnBackend(s) => "snn backend error: "@ + s,
            ErrorView::SnnChannelMismatch { experts, channels } => "snn backend has "@
                + decimal(channels as nat) + " channels but "@ + decimal(experts as nat)
                + " experts need one each"@,
            ErrorView::SnnNan { stage } => "NaN in snn "@ + stage,
            ErrorView::SnnSpikeOutOfRange { channel, channels } => "spike on channel "@
                + decimal(channel as nat) + " is out of range for "@ + decimal(channels as nat)
                + " channels"@,
            ErrorView::SerdeInputTooLarge { max_bytes, actual_bytes } => "serialized input of "@
                + decimal(actual_bytes as nat) + " bytes exceeds the limit of "@
                + decimal(max_bytes as nat),
            ErrorView::Msg(s) => s,
        }
    }
}

impl CortexError {
    /// The message of this error.
    pub fn message<F: FloatUnit>(&self) -> (r: String)
        ensures
            self matches CortexError::InvalidEpsilon { eps } ==> exists|shown: String|
                shows::<F>(*eps, shown) && r@ == #[trigger] self@.text(shown@),
            !(self is InvalidEpsilon) ==> r@ == self@.text(seq![]),
    {
        match self {
            CortexError::RankMismatch { expected, got } => {
                let mut out: String = String::from_str("tensor rank mismatch: expected ");
                out.append(size_text(*expected).as_str());
                out.append(", got ");
                out.append(size_text(*got).as_str());
                out
            },
            CortexError::ShapeMismatch { expected, got } => {
                let mut out: String = String::from_str("tensor shape mismatch: expected ");
                out.append(sizes_text(expected.as_slice()).as_str());
                out.append(", got ");
                out.append(sizes_text(got.as_slice()).as_str());
                out
            },
            CortexError::DimMismatch { op, axis, expected, got } => {
                let mut out: String = String::from_str("dimension mismatch for ");
                out.append(op);
                out.append(" on axis ");
                out.append(size_text(*axis).as_str());
                out.append(": expected ");
                out.append(size_text(*expected).as_str());
                out.append(", got ");
                out.append(size_text(*got).as_str());
                out
            },
            CortexError::MatmulDim { m, k1, k2, n } => {
                let mut out: String = String::from_str("dimension mismatch for matmul: [");
                out.append(size_text(*m).as_str());
                out.append("×");
                out.append(size_text(*k1).as_str());
                out.append("] × [");
                out.append(size_text(*k2).as_str());
                out.append("×");
                out.append(size_text(*n).as_str());
                out.append("]");
                out
            },
            CortexError::IndexOutOfBounds { axis, index, size } => {
                let mut out: String = String::from_str("index ");
                out.append(size_text(*index).as_str());
                out.append(" out of bounds for axis ");
                out.append(size_text(*axis).as_str());
                out.append(" with size ");
                out.append(size_text(*size).as_str());
                out
            },
            CortexError::TokenIndex { index, vocab_size } => {
                let mut out: String = String::from_str("token index ");
                out.append(size_text(*index).as_str());
                out.append(" is out of vocabulary of size ");
                out.append(size_text(*vocab_size).as_str());
                out
            },
            CortexError::InvalidEpsilon { eps } => {
                let shown: String = F::show32(*eps);
                let mut out: String = String::from_str("invalid epsilon ");
                out.append(shown.as_str());
                out.append(": must be positive and finite");
                assert(out@ == self@.text(shown@));
                out
            },
            CortexError::ZeroWidth { op, axis } => {
                let mut out: String = String::from_str("zero-width axis ");
                out.append(size_text(*axis).as_str());
                out.append(" is invalid for ");
                out.append(op);
                out
            },
            CortexError::SizeOverflow { shape } => {
                let mut out: String = String::from_str("size overflow computing elements or strides for shape ");
                out.append(sizes_text(shape.as_slice()).as_str());
                out
            },
            CortexError::InvalidConfig(s) => {
                let mut out: String = String::from_str("invalid configuration: ");
                out.append(s.as_str());
                out
            },
            CortexError::ModelLoad { path, reason } => {
                let mut out: String = String::from_str("model load failed for '");
                out.append(path.as_str());
                out.append("': ");
                out.append(reason.as_str());
                out
            },
            CortexError::UnsupportedFormat(s) => {
                let mut out: String = String::from_str("unsupported model format: ");
                out.append(s.as_str());
                out
            },
            CortexError::MissingTensor { name, path } => {
                let mut out: String = String::from_str("missing tensor '");
                out.append(name.as_str());
                out.append("' in model '");
                out.append(path.as_str());
                out.append("'");
                out
            },
            CortexError::InputLengthMismatch { expected, got } => {
                let mut out: String = String::from_str("input length mismatch: expected ");
                out.append(size_text(*expected).as_str());
                out.append(", got ");
                out.append(size_text(*got).as_str());
                out
            },
            CortexError::NanRoutingScore { expert_id } => {
                let mut out: String = String::from_str("NaN routing score at expert ");
                out.append(size_text(*expert_id).as_str());
                out
            },
            CortexError::OlmoeForward(s) => {
                let mut out: String = String::from_str("router forward pass failed: ");
                out.append(s.as_str());
                out
            },
            CortexError::SnnBackend(s) => {
                let mut out: String = String::from_str("snn backend error: ");
                out.append(s.as_str());
                out
            },
            CortexError::SnnChannelMismatch { experts, channels } => {
                let mut out: String = String::from_str("snn backend has ");
                out.append(size_text(*channels).as_str());
                out.append(" channels but ");
                out.append(size_text(*experts).as_str());
                out.append(" experts need one each");
                out
            },
            CortexError::SnnNan { stage } => {
                let mut out: String = String::from_str("NaN in snn ");
                out.append(stage);
                out
            },
            CortexError::SnnSpikeOutOfRange { channel, channels } => {
                let mut out: String = String::from_str("spike on channel ");
                out.append(size_text(*channel).as_str());
                out.append(" is out of range for ");
                out.append(size_text(*channels).as_str());
                out.append(" channels");
                out
            },
            CortexError::SerdeInputTooLarge { max_bytes, actual_bytes } => {
                let mut out: String = String::from_str("serialized input of ");
                out.append(size_text(*actual_bytes).as_str());
                out.append(" bytes exceeds the limit of ");
                out.append(size_text(*max_bytes).as_str());
                out
            },
            CortexError::Msg(s) => {
                let out: String = String::from_str(s.as_str());
                out
            },
        }
    }
}

/// The value of a successful result, for interfaces that do not report errors.
///
/// `api` names the interface in whose stead the caller should use the fallible one.
pub fn unwrap_compat<T>(result: Result<T, CortexError>, api: &'static str) -> (r: T)
    requires
        result is Ok,
    ensures
        result == Ok::<T, CortexError>(r),
{
    match result {
        Ok(value) => value,
        Err(_) => vstd::pervasive::unreached(),
    }
}

} // verus!
