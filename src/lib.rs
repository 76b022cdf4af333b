//! The decisions of a host-side pipeline that offloads an elementwise sum to
//! a compute device: which driver call comes next, how each reported status
//! moves the invocation on, how the kernel launch is shaped, and the proofs
//! that every invocation releases what it acquired, in order.

pub mod launch;
pub mod pipeline;
