//! Render-pipeline core of a JPEG XL decoder: typed per-channel plane
//! buffers, a stage chain with build-time channel type checking, and a
//! simple whole-image pipeline runtime.

pub mod error;
pub mod executors;
pub mod image;
pub mod pipeline;
pub mod sample;
pub mod save_stage;
pub mod stage;
pub mod util;
