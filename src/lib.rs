//! Version control and execution planning for on-disk database migrations.
//!
//! The library decides; the program around it performs the I/O.
pub mod text;
pub mod timestamp;
pub mod error;
pub mod version;
pub mod order;
pub mod engine;
pub mod paths;
pub mod generate;
pub mod cli;
