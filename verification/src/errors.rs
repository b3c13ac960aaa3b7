//! Failure taxonomy for the pipeline.

use vstd::prelude::*;

verus! {

/// One kind per failure boundary: filesystem or network reads during
/// extraction, the embedding model, the completion/transcription
/// services, the datastore, and missing startup configuration.
#[derive(Debug, Clone, Copy, PartialEq, Eq, Structural)]
pub enum PipelineError {
    IOError,
    ModelError,
    ServiceError,
    StorageError,
    ConfigError,
}

impl PipelineError {
    /// A short stable label for logs and responses.
    pub fn label(&self) -> (r: &'static str)
        ensures
            r@ == self.spec_label(),
    {
        match self {
            PipelineError::IOError => "io error",
            PipelineError::ModelError => "model error",
            PipelineError::ServiceError => "service error",
            PipelineError::StorageError => "storage error",
            PipelineError::ConfigError => "config error",
        }
    }

    pub open spec fn spec_label(&self) -> Seq<char> {
        match self {
            PipelineError::IOError => "io error"@,
            PipelineError::ModelError => "model error"@,
            PipelineError::ServiceError => "service error"@,
            PipelineError::StorageError => "storage error"@,
            PipelineError::ConfigError => "config error"@,
        }
    }
}

} // verus!
