//! Error values reported by the inference pipeline.
//!
//! Every failure of the library is a reported value of [`InferenceError`];
//! no verified function of this crate panics.

use vstd::prelude::*;
use vstd::string::StringExecFns;

verus! {

/// One error kind per failure class of the pipeline.
#[derive(Debug, Clone)]
pub enum InferenceError {
    /// Model file not found, or no model currently loaded.
    ModelNotFound(String),
    /// Invalid image data or format.
    InvalidImageData(String),
    /// Execution-engine session creation failed.
    SessionCreationFailed(String),
    /// Model loading failed.
    ModelLoadingFailed(String),
    /// Engine execution failed.
    InferenceFailed(String),
    /// Missing or untyped output tensor.
    OutputProcessingFailed(String),
    /// Empty or unreadable label source.
    LabelsLoadingFailed(String),
    /// Lock acquisition or allocation failure.
    MemoryError(String),
}

/// Result type of the pipeline's fallible operations.
pub type InferenceResult<T> = Result<T, InferenceError>;

impl InferenceError {
    /// The human-readable message of this error: a fixed prefix naming the
    /// failure class, followed by the detail text the error carries.
    pub open spec fn message_spec(self) -> Seq<char> {
        match self {
            InferenceError::ModelNotFound(m) => "Model file not found: "@ + m@,
            InferenceError::InvalidImageData(m) => "Invalid image data: "@ + m@,
            InferenceError::SessionCreationFailed(m) => "Failed to create ONNX session: "@ + m@,
            InferenceError::ModelLoadingFailed(m) => "Failed to load model: "@ + m@,
            InferenceError::InferenceFailed(m) => "Inference execution failed: "@ + m@,
            InferenceError::OutputProcessingFailed(m) => "Failed to process output: "@ + m@,
            InferenceError::LabelsLoadingFailed(m) => "Failed to load labels: "@ + m@,
            InferenceError::MemoryError(m) => "Memory allocation failed: "@ + m@,
        }
    }

    /// Render the error as its display message.
    pub fn message(&self) -> (r: String)
        ensures
            r@ == self.message_spec(),
    {
        match self {
            InferenceError::ModelNotFound(m) => {
                String::from_str("Model file not found: ").concat(m.as_str())
            },
            InferenceError::InvalidImageData(m) => {
                String::from_str("Invalid image data: ").concat(m.as_str())
            },
            InferenceError::SessionCreationFailed(m) => {
                String::from_str("Failed to create ONNX session: ").concat(m.as_str())
            },
            InferenceError::ModelLoadingFailed(m) => {
                String::from_str("Failed to load model: ").concat(m.as_str())
            },
            InferenceError::InferenceFailed(m) => {
                String::from_str("Inference execution failed: ").concat(m.as_str())
            },
            InferenceError::OutputProcessingFailed(m) => {
                String::from_str("Failed to process output: ").concat(m.as_str())
            },
            InferenceError::LabelsLoadingFailed(m) => {
                String::from_str("Failed to load labels: ").concat(m.as_str())
            },
            InferenceError::MemoryError(m) => {
                String::from_str("Memory allocation failed: ").concat(m.as_str())
            },
        }
    }

    /// Create a model-not-found error naming the missing path.
    pub fn model_not_found(path: &str) -> (e: Self)
        ensures
            e matches InferenceError::ModelNotFound(m) && m@ == path@,
    {
        InferenceError::ModelNotFound(path.to_owned())
    }

    /// Create an invalid-image-data error.
    pub fn invalid_image(msg: &str) -> (e: Self)
        ensures
            e matches InferenceError::InvalidImageData(m) && m@ == msg@,
    {
        InferenceError::InvalidImageData(msg.to_owned())
    }

    /// Create a session-creation error.
    pub fn session_failed(msg: &str) -> (e: Self)
        ensures
            e matches InferenceError::SessionCreationFailed(m) && m@ == msg@,
    {
        InferenceError::SessionCreationFailed(msg.to_owned())
    }

    /// Create a model-loading error.
    pub fn model_loading_failed(msg: &str) -> (e: Self)
        ensures
            e matches InferenceError::ModelLoadingFailed(m) && m@ == msg@,
    {
        InferenceError::ModelLoadingFailed(msg.to_owned())
    }

    /// Create an engine-execution error.
    pub fn inference_failed(msg: &str) -> (e: Self)
        ensures
            e matches InferenceError::InferenceFailed(m) && m@ == msg@,
    {
        InferenceError::InferenceFailed(msg.to_owned())
    }

    /// Create an output-processing error.
    pub fn output_processing_failed(msg: &str) -> (e: Self)
        ensures
            e matches InferenceError::OutputProcessingFailed(m) && m@ == msg@,
    {
        InferenceError::OutputProcessingFailed(msg.to_owned())
    }

    /// Create a labels-loading error.
    pub fn labels_loading_failed(msg: &str) -> (e: Self)
        ensures
            e matches InferenceError::LabelsLoadingFailed(m) && m@ == msg@,
    {
        InferenceError::LabelsLoadingFailed(msg.to_owned())
    }

    /// Create a memory error.
    pub fn memory_error(msg: &str) -> (e: Self)
        ensures
            e matches InferenceError::MemoryError(m) && m@ == msg@,
    {
        InferenceError::MemoryError(msg.to_owned())
    }
}

} // verus!
