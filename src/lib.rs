//! A terminal pet: its definition model, the ordering of animation frames,
//! and the engine that decides what is rendered and when scripts run.

pub mod args;
pub mod engine;
pub mod error;
pub mod frames;
pub mod model;
