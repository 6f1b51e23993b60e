//! Zero-copy reinterpretation of byte buffers as typed values.
//!
//! The library computes the layout of fixed-size and slice-tailed types,
//! decides whether a byte buffer can be viewed as a value of a given layout,
//! and hands out typed views over buffers that passed that decision.

pub mod layout;
pub mod known_layout;
pub mod byte_slice;
pub mod error;
pub mod capability;
pub mod typed_ref;
pub mod arrays;
pub mod transmute;
