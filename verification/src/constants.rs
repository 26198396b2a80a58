//! Fixed configuration constants of the inference pipeline.

use vstd::prelude::*;

verus! {

/// Width, in pixels, of the network's input image.
pub const IMAGE_WIDTH: usize = 224;

/// Height, in pixels, of the network's input image.
pub const IMAGE_HEIGHT: usize = 224;

/// Number of colour channels of the network's input image.
pub const IMAGE_CHANNELS: usize = 3;

/// How many top-ranked classes a classification result reports.
pub const TOP_K_PREDICTIONS: usize = 5;

/// The smallest output size treated as a classification distribution.
pub const MIN_CLASSIFICATION_CLASSES: usize = 1000;

} // verus!
