//! Verified core of a small deep-learning stack: the neural-network layer
//! logic and the planning layer of a GPU backend.
//!
//! Everything here works on plain values. Floating-point kernels and the
//! device itself are reached through closures or through plans that a host
//! program executes.
pub mod blocks;
pub mod metal;
pub mod nn;
pub mod text;
