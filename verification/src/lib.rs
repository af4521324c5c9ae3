//! Integer-list compression codecs: Simple9, Simple16 and batched PForDelta.
//!
//! Every codec is a pure function between a sequence of `u32` values and a
//! byte buffer. The contracts are stated over natural numbers: a packed
//! buffer is described by the number whose binary digits it holds.
pub mod digits;
pub mod p_for_delta;
pub mod selectors;
pub mod simple9;
pub mod simple16;
