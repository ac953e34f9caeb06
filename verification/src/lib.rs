//! Layout and bit-level decoding for the descriptor of an instrumented circuit.
//!
//! A descriptor names the input fields of one fuzzing cycle, each with its width
//! in bits, and the coverage counters of the circuit, which come in pairs of a
//! counter and its inverted twin. From it this crate derives the byte sizes of
//! the input and coverage buffers, checks that the descriptor is well formed,
//! and reads single bits out of packed buffers.

pub mod model;
pub mod layout;
pub mod error;
pub mod validate;
pub mod config;
pub mod bits;
pub mod text;
pub mod report;
pub mod render;
