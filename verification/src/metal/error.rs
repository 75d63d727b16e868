//! Errors of the GPU backend.
use crate::text;
use crate::text::Text;
use vstd::prelude::*;

verus! {

/// Errors surfaced by the GPU backend.
#[derive(Debug)]
pub enum MetalError {
    /// No device is available.
    NoDevice(String),
    /// A shader source failed to compile.
    ShaderCompile(String),
    /// A compute pipeline could not be created from a function.
    PipelineState(String),
    /// An allocation failed.
    AllocFailed {
        /// Bytes requested.
        requested: usize,
        /// Driver-reported reason.
        reason: String,
    },
    /// Shape or type mismatch of a kernel call.
    ShapeMismatch(String),
    /// The operation is not supported by the device.
    Unsupported(String),
}

/// What an error says.
pub enum ErrorModel {
    NoDevice(Seq<char>),
    ShaderCompile(Seq<char>),
    PipelineState(Seq<char>),
    AllocFailed { requested: usize, reason: Seq<char> },
    ShapeMismatch(Seq<char>),
    Unsupported(Seq<char>),
}

impl ErrorModel {
    /// The text of the error.
    pub open spec fn text(self) -> Seq<char> {
        match self {
            ErrorModel::NoDevice(s) => "no Metal device available: "@ + s,
            ErrorModel::ShaderCompile(s) => "shader compile failed: "@ + s,
            ErrorModel::PipelineState(s) => "pipeline state creation failed: "@ + s,
            ErrorModel::AllocFailed { requested, reason } => "Metal allocation failed: "@
                + text::decimal(requested as nat) + " bytes ("@ + reason + ")"@,
            ErrorModel::ShapeMismatch(s) => "Metal shape mismatch: "@ + s,
            ErrorModel::Unsupported(s) => "unsupported operation: "@ + s,
        }
    }
}

impl View for MetalError {
    type V = ErrorModel;

    open spec fn view(&self) -> ErrorModel {
        match self {
            MetalError::NoDevice(s) => ErrorModel::NoDevice(s@),
            MetalError::ShaderCompile(s) => ErrorModel::ShaderCompile(s@),
            MetalError::PipelineState(s) => ErrorModel::PipelineState(s@),
            MetalError::AllocFailed { requested, reason } => ErrorModel::AllocFailed {
                requested: *requested,
                reason: reason@,
            },
            MetalError::ShapeMismatch(s) => ErrorModel::ShapeMismatch(s@),
            MetalError::Unsupported(s) => ErrorModel::Unsupported(s@),
        }
    }
}

impl MetalError {
    /// Renders the error for a reader.
    pub fn message(&self) -> (r: String)
        ensures
            r@ == self@.text(),
    {
        match self {
            MetalError::NoDevice(s) => Text::start("no Metal device available: ").lit(
                s.as_str(),
            ).finish(),
            MetalError::ShaderCompile(s) => Text::start("shader compile failed: ").lit(
                s.as_str(),
            ).finish(),
            MetalError::PipelineState(s) => Text::start("pipeline state creation failed: ").lit(
                s.as_str(),
            ).finish(),
            MetalError::AllocFailed { requested, reason } => Text::start(
                "Metal allocation failed: ",
            ).num(*requested).lit(" bytes (").lit(reason.as_str()).lit(")").finish(),
            MetalError::ShapeMismatch(s) => Text::start("Metal shape mismatch: ").lit(
                s.as_str(),
            ).finish(),
            MetalError::Unsupported(s) => Text::start("unsupported operation: ").lit(
                s.as_str(),
            ).finish(),
        }
    }
}

/// An `Unsupported` error with a fixed text.
pub fn unsupported(s: &str) -> (r: MetalError)
    ensures
        r@ == ErrorModel::Unsupported(s@),
{
    MetalError::Unsupported(s.to_owned())
}

/// A `ShapeMismatch` error.
pub fn shape_mismatch(t: Text) -> (r: MetalError)
    ensures
        r@ == ErrorModel::ShapeMismatch(t@),
{
    MetalError::ShapeMismatch(t.finish())
}

} // verus!
