//! The engine's errors.
use vstd::prelude::*;

verus! {

/// Errors raised by the engine.
///
/// `PipelineNotReady` is the one transient error: the cycle is skipped and
/// retried on a later tick. Every other variant reports a configuration or
/// usage mistake.
#[derive(Debug, Clone, PartialEq, Eq, Structural)]
pub enum Error {
    /// A pass, swap, write or staging binding names an unregistered buffer.
    BufferNotFound(usize),
    /// A read names a buffer without a staging buffer.
    StagingBufferNotFound(usize),
    /// A pass uses a shader whose pipeline was never requested.
    PipelinesEmpty,
    /// A pass uses a pipeline that has not finished compiling.
    PipelineNotReady,
    /// After the steps, a staging buffer's name no longer holds a read/write
    /// buffer of the staging buffer's size.
    StagingMismatch,
    /// No compute pass uses the given shader.
    ShaderNotFound(usize),
    /// `execute` was called in immediate mode, or `execute_now` outside it.
    WrongRunMode,
}

impl Error {
    /// Whether the error only postpones the cycle to a later tick.
    pub fn is_transient(&self) -> (r: bool)
        ensures
            r == (*self is PipelineNotReady),
    {
        match self {
            Error::PipelineNotReady => true,
            _ => false,
        }
    }
}

} // verus!
