//! The allocator as mathematics: four positions and what each request does
//! to them.

use vstd::prelude::*;
use vstd::arithmetic::div_mod::lemma_div_basics_1;
use vstd::arithmetic::div_mod::lemma_div_is_ordered;
use vstd::arithmetic::div_mod::lemma_div_pos_is_pos;
use vstd::arithmetic::div_mod::lemma_fundamental_div_mod;
use vstd::arithmetic::power2::is_pow2;
use crate::align::lemma_round_up_bounds;
use crate::align::lemma_round_up_least;
use crate::align::round_up;
use crate::error::AllocError;

verus! {

/// The region `[start, end)` and the two cursors in it.
///
/// `[start, b_pos)` has gone to byte allocations, `[p_pos, end)` to page
/// allocations, and `[b_pos, p_pos)` is free.
pub struct Cursors {
    pub start: int,
    pub b_pos: int,
    pub p_pos: int,
    pub end: int,
}

impl Cursors {
    /// The positions are in order, and the page area is a whole number of
    /// pages.
    pub open spec fn wf(self, page_size: int) -> bool {
        &&& 0 <= self.start <= self.b_pos <= self.p_pos <= self.end
        &&& page_size > 0 ==> (self.end - self.p_pos) % page_size == 0
    }

    /// Before a region is given: everything at zero.
    pub open spec fn unset() -> Cursors {
        Cursors { start: 0, b_pos: 0, p_pos: 0, end: 0 }
    }

    /// A region of `size` bytes at `start`, nothing allocated.
    pub open spec fn fresh(start: int, size: int) -> Cursors {
        Cursors { start, b_pos: start, p_pos: start + size, end: start + size }
    }

    /// Bytes in the region.
    pub open spec fn total_bytes(self) -> int {
        self.end - self.start
    }

    /// Bytes taken by byte allocations, alignment gaps included.
    pub open spec fn used_bytes(self) -> int {
        self.b_pos - self.start
    }

    /// Bytes between the two cursors.
    pub open spec fn available_bytes(self) -> int {
        self.p_pos - self.b_pos
    }

    /// Whole pages in the region.
    pub open spec fn total_pages(self, page_size: int) -> int {
        (self.end - self.start) / page_size
    }

    /// Pages taken by page allocations.
    pub open spec fn used_pages(self, page_size: int) -> int {
        (self.end - self.p_pos) / page_size
    }

    /// The page cursor in pages, counted from address zero: the pages left
    /// to a region that starts at zero and has no byte allocation.
    pub open spec fn available_pages(self, page_size: int) -> int {
        self.p_pos / page_size
    }

    /// Where a byte allocation aligned to `align` would start.
    pub open spec fn byte_candidate(self, align: int) -> int {
        round_up(self.b_pos, align)
    }

    /// Whether `size` bytes aligned to `align` fit below the page cursor.
    pub open spec fn bytes_fit(self, size: int, align: int) -> bool {
        self.byte_candidate(align) + size <= self.p_pos
    }

    /// What a byte request returns: the address, or `NoMemory`.
    pub open spec fn alloc_outcome(self, size: int, align: int) -> Result<int, AllocError> {
        if self.bytes_fit(size, align) {
            Ok(self.byte_candidate(align))
        } else {
            Err(AllocError::NoMemory)
        }
    }

    /// The cursors after a byte request: the byte cursor moves past the new
    /// block if it fits, and nothing moves if it does not.
    pub open spec fn after_alloc(self, size: int, align: int) -> Cursors {
        if self.bytes_fit(size, align) {
            Cursors { b_pos: self.byte_candidate(align) + size, ..self }
        } else {
            self
        }
    }

    /// Whether `align` is the page size times a power of two.
    pub open spec fn page_align_ok(page_size: int, align: int) -> bool {
        align % page_size == 0 && is_pow2(align / page_size)
    }

    /// Where a run of `count` pages would start.
    pub open spec fn page_candidate(self, page_size: int, count: int) -> int {
        self.p_pos - count * page_size
    }

    /// Whether `count` pages fit above the byte cursor.
    pub open spec fn pages_fit(self, page_size: int, count: int) -> bool {
        self.page_candidate(page_size, count) >= self.b_pos
    }

    /// What a page request returns: the address of the run, `InvalidParam`
    /// for a bad alignment, or else `NoMemory`.
    pub open spec fn alloc_pages_outcome(self, page_size: int, count: int, align: int) -> Result<
        int,
        AllocError,
    > {
        if !Self::page_align_ok(page_size, align) {
            Err(AllocError::InvalidParam)
        } else if !self.pages_fit(page_size, count) {
            Err(AllocError::NoMemory)
        } else {
            Ok(self.page_candidate(page_size, count))
        }
    }

    /// The cursors after a page request: the page cursor moves down to the
    /// new run if the request is granted, and nothing moves if it is not.
    pub open spec fn after_alloc_pages(self, page_size: int, count: int, align: int) -> Cursors {
        if Self::page_align_ok(page_size, align) && self.pages_fit(page_size, count) {
            Cursors { p_pos: self.page_candidate(page_size, count), ..self }
        } else {
            self
        }
    }
}

/// The result of an allocation with its address as a mathematical integer.
pub open spec fn outcome(r: Result<usize, AllocError>) -> Result<int, AllocError> {
    match r {
        Ok(addr) => Ok(addr as int),
        Err(e) => Err(e),
    }
}

/// Right after a region is given, all of it is available: nothing is used
/// on either side, and the totals are those of the region.
pub proof fn lemma_fresh_accounting(start: int, size: int, page_size: int)
    requires
        0 <= start,
        0 <= size,
        page_size > 0,
    ensures
        Cursors::fresh(start, size).wf(page_size),
        Cursors::fresh(start, size).used_bytes() == 0,
        Cursors::fresh(start, size).available_bytes() == size,
        Cursors::fresh(start, size).total_bytes() == size,
        Cursors::fresh(start, size).used_pages(page_size) == 0,
        Cursors::fresh(start, size).total_pages(page_size) == size / page_size,
{
    lemma_div_basics_1(page_size);
}

/// The three areas make up the region: the bytes used, the bytes
/// available and the pages used, which are whole pages.
pub proof fn lemma_accounting_adds_up(c: Cursors, page_size: int)
    requires
        c.wf(page_size),
        page_size > 0,
    ensures
        c.used_pages(page_size) * page_size == c.end - c.p_pos,
        c.used_bytes() + c.available_bytes() + c.used_pages(page_size) * page_size
            == c.total_bytes(),
        0 <= c.used_bytes() <= c.total_bytes(),
        0 <= c.available_bytes() <= c.total_bytes(),
        0 <= c.used_pages(page_size) <= c.total_pages(page_size),
{
    let taken = c.end - c.p_pos;
    lemma_fundamental_div_mod(taken, page_size);
    assert((taken / page_size) * page_size == page_size * (taken / page_size))
        by (nonlinear_arith);
    lemma_div_pos_is_pos(taken, page_size);
    lemma_div_is_ordered(taken, c.end - c.start, page_size);
}

/// Byte blocks are packed: a block starts at the first multiple of its
/// alignment that is not below the byte cursor, so the gap before it is
/// smaller than the alignment and holds no address the block could start at.
pub proof fn lemma_byte_candidate_is_least(c: Cursors, align: int, m: int)
    requires
        align > 0,
        m % align == 0,
        c.b_pos <= m,
    ensures
        c.byte_candidate(align) % align == 0,
        c.b_pos <= c.byte_candidate(align) <= m,
        c.byte_candidate(align) - c.b_pos < align,
{
    lemma_round_up_bounds(c.b_pos, align);
    lemma_round_up_least(c.b_pos, align, m);
}

} // verus!
