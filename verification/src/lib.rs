//! Host side of GPU-accelerated Merkle tree construction over the Goldilocks field.

pub mod binary;
pub mod bytes;
pub mod chars;
pub mod context;
pub mod digests;
pub mod finish;
pub mod goldilocks;
pub mod gpu;
pub mod job;
pub mod layers;
pub mod padding;
pub mod plan;
pub mod queue;
pub mod readback;
pub mod report;
pub mod shaders;
pub mod text;
pub mod vectors;
pub mod wire;
pub mod words;
