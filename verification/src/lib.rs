//! Deterministic storage-media integrity testing.
//!
//! A seeded pseudorandom generator produces a reproducible byte stream; the
//! engine lays that stream over a byte extent in fixed-size chunks and can
//! later regenerate the stream from the same seed to detect any divergence.

pub mod engine;
pub mod generator;
pub mod laws;
pub mod parse;
