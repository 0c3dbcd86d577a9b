//! Annotation core for an interactive labeling tool: decoding detector output,
//! turning segmentation masks into outlines, and the instance/selection store.
//!
//! Every coordinate is a fixed-point integer. A normalized coordinate lies in
//! `0..=SCALE`, where `SCALE` stands for 1.0.

pub mod geometry;
pub mod detection;
pub mod prompt;
pub mod outline;
pub mod instance;
pub mod state;
pub mod mask;
pub mod worker;
