//! Decoding and batch orchestration for camera-trap object detection.
//!
//! Box coordinates and confidences are fixed-point fractions: `ONE`
//! (one million) stands for `1.0`, so IoU comparisons are exact rationals.
pub mod geometry;
pub mod letterbox;
pub mod decoder;
pub mod pipeline;
pub mod batch;
pub mod paths;
pub mod exports;
