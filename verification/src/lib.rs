//! Verified core of an image-classification inference library.
//!
//! The library owns the algorithmic heart of the pipeline: label-store
//! parsing and fallback, the single-slot model-cache state machine,
//! channel-first tensor layout, and top-K ranking of classification
//! scores.  Image decoding is delegated to the `image` crate behind a
//! trusted wrapper; the neural-network engine and all floating-point
//! arithmetic live with the (unverified) host adapter, which hands the
//! library plain values.

mod constants;
mod errors;
pub mod inference;
pub mod labels;
pub mod text;
pub mod types;

pub use constants::{
    IMAGE_CHANNELS, IMAGE_HEIGHT, IMAGE_WIDTH, MIN_CLASSIFICATION_CLASSES, TOP_K_PREDICTIONS,
};
pub use errors::InferenceError;
pub use inference::{ChwImage, InferenceEngine, LoadPlan};
pub use labels::LabelsManager;
pub use types::{ClassificationResult, InferenceResult};

