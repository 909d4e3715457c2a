//! Verified core of a human-pose viewing pipeline.
//!
//! The crate covers the numeric heart of the pipeline: decoding raw
//! heatmap/offset tensors into keypoints (`decoder`), the length-prefixed
//! byte framing used to exchange frames and keypoint lists with an
//! out-of-process estimator (`protocol`), coordinate normalization and
//! rescaling (`codec`), and the fixed bone topology used for rendering
//! (`skeleton`).
//!
//! All scalar quantities (scores, thresholds, pixel coordinates, offsets)
//! are fixed-point integers in thousandths of the model's native unit, so
//! every computation here is exact integer arithmetic with proved bounds.

use vstd::prelude::*;

pub mod codec;
pub mod decoder;
pub mod protocol;
pub mod skeleton;

verus! {

/// Number of fixed-point units in one pixel (or one unit of raw score).
/// A raw score of 0.3 is written as 300; a pixel coordinate of 64.15 as 64150.
pub const UNIT_SCALE: i64 = 1000;

/// Width of the input tensor expected by the pose model, in fixed-point units
/// (257 pixels).
pub const INPUT_WIDTH_UNITS: i64 = 257000;

/// Height of the input tensor expected by the pose model, in fixed-point units
/// (353 pixels).
pub const INPUT_HEIGHT_UNITS: i64 = 353000;

/// Width of each heatmap channel produced by the in-process model.
pub const HEATMAP_WIDTH: usize = 17;

/// Height of each heatmap channel produced by the in-process model.
pub const HEATMAP_HEIGHT: usize = 23;

/// Number of keypoint identities in the in-process (17-point) convention.
pub const NUM_KEYPOINTS: usize = 17;

/// Default confidence threshold below which a keypoint is suppressed
/// (a raw score of 0.3, in fixed-point units).
pub const CONFIDENCE_THRESHOLD_UNITS: i64 = 300;

/// Largest accepted heatmap grid dimension. Keeps cell-to-pixel products
/// inside `i64`.
pub const MAX_GRID_DIM: usize = 65536;

/// Largest accepted input-tensor dimension in fixed-point units. Keeps
/// cell-to-pixel products inside `i64`.
pub const MAX_INPUT_UNITS: i64 = 0x1_0000_0000;

/// Largest accepted magnitude of a single offset value in fixed-point units.
/// Keeps the final coordinate sum inside `i64`.
pub const MAX_OFFSET_UNITS: i64 = 0x100_0000_0000;

} // verus!
