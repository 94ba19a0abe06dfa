//! The allocator itself.

use vstd::prelude::*;
use vstd::arithmetic::div_mod::lemma_mod_multiples_vanish;
use vstd::arithmetic::power2::is_pow2;
use crate::align::align_up;
use crate::align::is_power_of_two;
use crate::align::lemma_round_up_bounds;
use crate::cursors::outcome;
use crate::cursors::Cursors;
use crate::error::AllocError;

verus! {

/// Early memory allocator: use it before the formal byte allocator and
/// page allocator can work.
///
/// It manages one region from both ends. Bytes are allocated forward from
/// `start`, pages backward from `end`:
///
/// ```text
/// [ bytes-used | avail-area | pages-used ]
/// |            | -->    <-- |            |
/// start       b_pos        p_pos       end
/// ```
///
/// Nothing is ever freed. The allocator holds four addresses and no
/// reference into the region. It does no locking: whoever owns it keeps two
/// calls from running at once.
///
/// `PAGE_SIZE` is meant to be a power of two. The page operations need it
/// to be positive, and nothing here needs more.
///
/// The view of an allocator is its [`Cursors`], which are well formed at all
/// times.
pub struct EarlyAllocator<const PAGE_SIZE: usize> {
    start: usize,
    b_pos: usize,
    p_pos: usize,
    end: usize,
}

impl<const PAGE_SIZE: usize> View for EarlyAllocator<PAGE_SIZE> {
    type V = Cursors;

    closed spec fn view(&self) -> Cursors {
        Cursors {
            start: self.start as int,
            b_pos: self.b_pos as int,
            p_pos: self.p_pos as int,
            end: self.end as int,
        }
    }
}

/// Life cycle.
impl<const PAGE_SIZE: usize> EarlyAllocator<PAGE_SIZE> {
    #[verifier::type_invariant]
    spec fn inv(&self) -> bool {
        self@.wf(PAGE_SIZE as int)
    }

    /// An allocator without a region: every position is zero.
    pub fn new() -> (a: Self)
        ensures
            a@ == Cursors::unset(),
            a@.wf(PAGE_SIZE as int),
    {
        Self { start: 0, b_pos: 0, p_pos: 0, end: 0 }
    }

    /// Takes the region of `size` bytes at `start`, which must end at or
    /// before the last address.
    ///
    /// Meant to be called once, before the first allocation: a later call
    /// forgets whatever was allocated.
    pub fn init(&mut self, start: usize, size: usize)
        requires
            start + size <= usize::MAX,
        ensures
            final(self)@ == Cursors::fresh(start as int, size as int),
            final(self)@.wf(PAGE_SIZE as int),
    {
        let end: usize = start + size;
        *self = Self { start, b_pos: start, p_pos: end, end };
    }

    /// Always refuses, with `Unsupported`: the region cannot grow.
    pub fn add_memory(&mut self, _start: usize, _size: usize) -> (r: Result<(), AllocError>)
        ensures
            r == Err::<(), AllocError>(AllocError::Unsupported),
            final(self)@ == old(self)@,
            final(self)@.wf(PAGE_SIZE as int),
    {
        proof {
            use_type_invariant(&*self);
        }
        Err(AllocError::Unsupported)
    }
}

/// Byte allocation.
impl<const PAGE_SIZE: usize> EarlyAllocator<PAGE_SIZE> {
    /// Allocates `size` bytes at the first multiple of `align` that is not
    /// below the byte cursor, and returns the block's address. `align` must
    /// be a power of two.
    ///
    /// Fails with `NoMemory`, and changes nothing, exactly when the block
    /// would end beyond the page cursor.
    pub fn allocate(&mut self, size: usize, align: usize) -> (r: Result<usize, AllocError>)
        requires
            is_pow2(align as int),
        ensures
            outcome(r) == old(self)@.alloc_outcome(size as int, align as int),
            final(self)@ == old(self)@.after_alloc(size as int, align as int),
            final(self)@.wf(PAGE_SIZE as int),
    {
        proof {
            use_type_invariant(&*self);
            assert(align > 0) by {
                reveal(is_pow2);
            }
            lemma_round_up_bounds(self.b_pos as int, align as int);
        }
        let new_pos: usize = match align_up(self.b_pos, align) {
            Some(pos) => pos,
            None => {
                return Err(AllocError::NoMemory);
            },
        };
        let new_end: usize = match new_pos.checked_add(size) {
            Some(end) => end,
            None => {
                return Err(AllocError::NoMemory);
            },
        };
        if new_end > self.p_pos {
            return Err(AllocError::NoMemory);
        }
        self.b_pos = new_end;
        Ok(new_pos)
    }

    /// Does nothing: byte blocks are never handed back, one by one or all
    /// together.
    pub fn dealloc(&mut self, _addr: usize, _size: usize, _align: usize)
        ensures
            final(self)@ == old(self)@,
            final(self)@.wf(PAGE_SIZE as int),
    {
        proof {
            use_type_invariant(&*self);
        }
    }

    /// The size of the region in bytes.
    pub fn total_bytes(&self) -> (r: usize)
        ensures
            r == self@.total_bytes(),
            self@.wf(PAGE_SIZE as int),
    {
        proof {
            use_type_invariant(self);
        }
        self.end - self.start
    }

    /// The bytes left between the two cursors.
    pub fn available_bytes(&self) -> (r: usize)
        ensures
            r == self@.available_bytes(),
            self@.wf(PAGE_SIZE as int),
    {
        proof {
            use_type_invariant(self);
        }
        self.p_pos - self.b_pos
    }

    /// The bytes that byte allocations have taken, alignment gaps included.
    pub fn used_bytes(&self) -> (r: usize)
        ensures
            r == self@.used_bytes(),
            self@.wf(PAGE_SIZE as int),
    {
        proof {
            use_type_invariant(self);
        }
        self.b_pos - self.start
    }
}

/// Page allocation.
impl<const PAGE_SIZE: usize> EarlyAllocator<PAGE_SIZE> {
    /// Allocates `num_pages` pages right below the page cursor and returns
    /// the address of the run. `align_pow2` must be the page size times a
    /// power of two; it is checked, and has no other effect: the run is as
    /// aligned as the end of the region is.
    ///
    /// Fails with `InvalidParam` for a bad alignment; else with `NoMemory`
    /// exactly when the run would start below the byte cursor. A request
    /// that fails changes nothing.
    pub fn alloc_pages(&mut self, num_pages: usize, align_pow2: usize) -> (r: Result<
        usize,
        AllocError,
    >)
        requires
            PAGE_SIZE > 0,
        ensures
            outcome(r) == old(self)@.alloc_pages_outcome(
                PAGE_SIZE as int,
                num_pages as int,
                align_pow2 as int,
            ),
            final(self)@ == old(self)@.after_alloc_pages(
                PAGE_SIZE as int,
                num_pages as int,
                align_pow2 as int,
            ),
            final(self)@.wf(PAGE_SIZE as int),
    {
        proof {
            use_type_invariant(&*self);
        }
        if align_pow2 % PAGE_SIZE != 0 {
            return Err(AllocError::InvalidParam);
        }
        let ratio: usize = align_pow2 / PAGE_SIZE;
        if !is_power_of_two(ratio) {
            return Err(AllocError::InvalidParam);
        }
        let bytes: usize = match num_pages.checked_mul(PAGE_SIZE) {
            Some(bytes) => bytes,
            None => {
                return Err(AllocError::NoMemory);
            },
        };
        let p_pos: usize = match self.p_pos.checked_sub(bytes) {
            Some(pos) => pos,
            None => {
                return Err(AllocError::NoMemory);
            },
        };
        if p_pos < self.b_pos {
            return Err(AllocError::NoMemory);
        }
        proof {
            let taken = self.end - self.p_pos;
            lemma_mod_multiples_vanish(num_pages as int, taken, PAGE_SIZE as int);
            assert(PAGE_SIZE * num_pages + taken == self.end - p_pos) by (nonlinear_arith)
                requires
                    bytes == num_pages * PAGE_SIZE,
                    p_pos == self.p_pos - bytes,
                    taken == self.end - self.p_pos,
            ;
        }
        self.p_pos = p_pos;
        Ok(p_pos)
    }

    /// Does nothing: pages that were handed out stay handed out.
    pub fn dealloc_pages(&mut self, _pos: usize, _num_pages: usize)
        ensures
            final(self)@ == old(self)@,
            final(self)@.wf(PAGE_SIZE as int),
    {
        proof {
            use_type_invariant(&*self);
        }
    }

    /// The whole pages in the region.
    pub fn total_pages(&self) -> (r: usize)
        requires
            PAGE_SIZE > 0,
        ensures
            r == self@.total_pages(PAGE_SIZE as int),
            self@.wf(PAGE_SIZE as int),
    {
        proof {
            use_type_invariant(self);
        }
        (self.end - self.start) / PAGE_SIZE
    }

    /// The pages that page allocations have taken.
    pub fn used_pages(&self) -> (r: usize)
        requires
            PAGE_SIZE > 0,
        ensures
            r == self@.used_pages(PAGE_SIZE as int),
            self@.wf(PAGE_SIZE as int),
    {
        proof {
            use_type_invariant(self);
        }
        (self.end - self.p_pos) / PAGE_SIZE
    }

    /// The page cursor divided by the page size: the pages between address
    /// zero and the page area, whatever the region's start and the byte
    /// cursor. A caller whose region does not start at zero takes the start
    /// into account itself.
    pub fn available_pages(&self) -> (r: usize)
        requires
            PAGE_SIZE > 0,
        ensures
            r == self@.available_pages(PAGE_SIZE as int),
            self@.wf(PAGE_SIZE as int),
    {
        proof {
            use_type_invariant(self);
        }
        self.p_pos / PAGE_SIZE
    }
}

} // verus!
