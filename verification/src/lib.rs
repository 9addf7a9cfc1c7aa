//! Reader for the leading portion of a FLAC container: the magic marker,
//! the chain of metadata block headers, and the mandatory STREAMINFO block.
//!
//! The library works on in-memory byte buffers; opening files and printing
//! decoded records are left to callers.

pub mod bits;
pub mod error;
pub mod metadata;
pub mod stream;
