//! A bump-pointer allocator over a fixed arena of addresses.
//!
//! The allocator owns a contiguous range of byte addresses and a cursor
//! marking the next free byte. Each allocation rounds the cursor up to the
//! requested power-of-two alignment, reserves the requested number of bytes,
//! and advances the cursor; the cursor never moves backward and freed blocks
//! are never reused. The only failure modes are an alignment that is not a
//! power of two and exhaustion of the arena.

pub mod align;
pub mod allocator;
pub mod laws;
