//! Trampolines for window procedures on x86-64.
//!
//! A trampoline is a block of 32 bytes of executable memory.  Entered with
//! the four arguments of a window procedure, it replaces the first of them
//! with a constant that was bound into it and jumps to a target function,
//! which returns to the trampoline's caller.  A callback of a fixed shape
//! can so carry one word of context.
//!
//! - [`encoder`] says which bytes a binding is, writes them and reads them
//!   back.
//! - [`machine`] says what a processor does with those bytes, and proves
//!   that a bound block forwards to its target with its constant.
//! - [`provider`] keeps the account of the blocks of one executable region.
//! - [`thunk`] is the handle that owns a block from allocation to release.
//!
//! The library computes; it maps no memory and calls no address.  Whoever
//! embeds it maps the region, copies each block's bytes to the block's
//! address, and calls the entry point.

pub mod encoder;
pub mod machine;
pub mod provider;
pub mod thunk;

pub use crate::encoder::{Binding, TrampolineBlock};
pub use crate::provider::{AllocationError, ExecutableMemoryProvider};
pub use crate::thunk::{AtlThunk, EntryPointer};
