//! A bump allocator for the earliest phase of start-up.
//!
//! One contiguous region is carved from both ends: byte allocations grow
//! upward from its start, page allocations grow downward from its end, and
//! nothing is ever handed back.
//!
//! ```text
//! [ bytes-used | avail-area | pages-used ]
//! |            | -->    <-- |            |
//! start       b_pos        p_pos       end
//! ```
//!
//! [`EarlyAllocator`] is the allocator. [`cursors::Cursors`] is what it is
//! in mathematical terms, and the contracts of the allocator's methods are
//! written over it; [`trace`] proves what holds along every sequence of
//! requests.

pub mod align;
pub mod cursors;
pub mod early;
pub mod error;
pub mod trace;

pub use early::EarlyAllocator;
pub use error::AllocError;
