//! The ways a request can be turned down.

use vstd::prelude::*;

verus! {

/// Why the allocator turned a request down.
#[derive(Debug, Clone, Copy, PartialEq, Eq, Structural)]
pub enum AllocError {
    /// The alignment of a page request is not the page size times a power of
    /// two.
    InvalidParam,
    /// Granting the request would make the byte cursor and the page cursor
    /// cross.
    NoMemory,
    /// The region cannot grow: an allocator manages the one region it was
    /// given.
    Unsupported,
}

} // verus!
