//! Sequences of requests, and what holds of every one of them.
//!
//! A request is served in the state that the requests before it have left.
//! Whatever the sequence, the blocks granted along it never overlap, byte
//! blocks ascend and meet their alignment, and page runs descend in steps
//! of whole pages.

use vstd::prelude::*;
use vstd::arithmetic::div_mod::lemma_fundamental_div_mod;
use vstd::arithmetic::div_mod::lemma_mod_multiples_basic;
use vstd::arithmetic::div_mod::lemma_mod_multiples_vanish;
use crate::align::lemma_round_up_bounds;
use crate::cursors::Cursors;

verus! {

/// One call on the allocator.
pub enum Request {
    /// A byte allocation.
    Bytes { size: nat, align: nat },
    /// A page allocation.
    Pages { count: nat, align: nat },
    /// Handing a byte block back.
    FreeBytes { addr: nat, size: nat, align: nat },
    /// Handing a page run back.
    FreePages { addr: nat, count: nat },
}

/// The bytes `[addr, addr + len)`.
pub struct Block {
    pub addr: int,
    pub len: int,
}

impl Block {
    /// No byte belongs to both blocks.
    pub open spec fn disjoint(self, other: Block) -> bool {
        self.addr + self.len <= other.addr || other.addr + other.len <= self.addr
    }
}

impl Request {
    /// A byte allocation names a positive alignment. (The allocator asks
    /// for a power of two; what is proved here needs no more than this.)
    pub open spec fn valid(self) -> bool {
        self matches Request::Bytes { align, .. } ==> align > 0
    }
}

impl Cursors {
    /// The cursors after `req`.
    pub open spec fn step(self, page_size: int, req: Request) -> Cursors {
        match req {
            Request::Bytes { size, align } => self.after_alloc(size as int, align as int),
            Request::Pages { count, align } => self.after_alloc_pages(
                page_size,
                count as int,
                align as int,
            ),
            Request::FreeBytes { .. } => self,
            Request::FreePages { .. } => self,
        }
    }

    /// The block that `req` is granted, if it is an allocation and succeeds.
    pub open spec fn grant(self, page_size: int, req: Request) -> Option<Block> {
        match req {
            Request::Bytes { size, align } => match self.alloc_outcome(size as int, align as int) {
                Ok(addr) => Some(Block { addr, len: size as int }),
                Err(_) => None,
            },
            Request::Pages { count, align } => match self.alloc_pages_outcome(
                page_size,
                count as int,
                align as int,
            ) {
                Ok(addr) => Some(Block { addr, len: count * page_size }),
                Err(_) => None,
            },
            Request::FreeBytes { .. } => None,
            Request::FreePages { .. } => None,
        }
    }
}

/// The cursors after the requests `reqs`, served in order from `c`.
pub open spec fn run(c: Cursors, page_size: int, reqs: Seq<Request>) -> Cursors
    decreases reqs.len(),
{
    if reqs.len() == 0 {
        c
    } else {
        run(c, page_size, reqs.drop_last()).step(page_size, reqs.last())
    }
}

/// The block granted to request `i` of `reqs`, if any.
pub open spec fn grant_at(c: Cursors, page_size: int, reqs: Seq<Request>, i: int) -> Option<Block> {
    run(c, page_size, reqs.take(i)).grant(page_size, reqs[i])
}

/// Every request of `reqs` is valid.
pub open spec fn all_valid(reqs: Seq<Request>) -> bool {
    forall|i: int| 0 <= i < reqs.len() ==> (#[trigger] reqs[i]).valid()
}

/// One request keeps the cursors well formed and the region as it is, moves
/// the byte cursor up or not at all and the page cursor down or not at all,
/// and a granted block lies in what was free before and is used after.
pub proof fn lemma_step(c: Cursors, page_size: int, req: Request)
    requires
        c.wf(page_size),
        page_size > 0,
        req.valid(),
    ensures
        c.step(page_size, req).wf(page_size),
        c.step(page_size, req).start == c.start,
        c.step(page_size, req).end == c.end,
        c.b_pos <= c.step(page_size, req).b_pos,
        c.step(page_size, req).p_pos <= c.p_pos,
        c.grant(page_size, req) matches Some(b) ==> {
            &&& b.len >= 0
            &&& c.b_pos <= b.addr
            &&& b.addr + b.len <= c.p_pos
            &&& req is Bytes ==> b.addr + b.len == c.step(page_size, req).b_pos
            &&& req is Pages ==> b.addr == c.step(page_size, req).p_pos && b.addr + b.len
                == c.p_pos
        },
{
    match req {
        Request::Bytes { size, align } => {
            lemma_round_up_bounds(c.b_pos, align as int);
        },
        Request::Pages { count, align } => {
            let taken = c.end - c.p_pos;
            lemma_mod_multiples_vanish(count as int, taken, page_size);
            assert(page_size * count + taken == c.end - (c.p_pos - count * page_size))
                by (nonlinear_arith)
                requires
                    taken == c.end - c.p_pos,
            ;
            assert(count * page_size >= 0) by (nonlinear_arith)
                requires
                    count >= 0,
                    page_size > 0,
            ;
        },
        _ => {},
    }
}

/// Handing a block back changes no cursor, and so no accounting value,
/// however often it is done; and it grants nothing.
pub proof fn lemma_free_changes_nothing(c: Cursors, page_size: int, req: Request)
    requires
        req is FreeBytes || req is FreePages,
    ensures
        c.step(page_size, req) == c,
        c.step(page_size, req).step(page_size, req) == c,
        c.grant(page_size, req) is None,
        c.step(page_size, req).total_bytes() == c.total_bytes(),
        c.step(page_size, req).used_bytes() == c.used_bytes(),
        c.step(page_size, req).available_bytes() == c.available_bytes(),
        c.step(page_size, req).total_pages(page_size) == c.total_pages(page_size),
        c.step(page_size, req).used_pages(page_size) == c.used_pages(page_size),
        c.step(page_size, req).available_pages(page_size) == c.available_pages(page_size),
{
}

/// Along a sequence of requests the cursors stay well formed, the region
/// stays as it is, and the cursors only move toward each other.
pub proof fn lemma_run_monotone(c: Cursors, page_size: int, reqs: Seq<Request>, i: int, j: int)
    requires
        c.wf(page_size),
        page_size > 0,
        all_valid(reqs),
        0 <= i <= j <= reqs.len(),
    ensures
        run(c, page_size, reqs.take(j)).wf(page_size),
        run(c, page_size, reqs.take(j)).start == c.start,
        run(c, page_size, reqs.take(j)).end == c.end,
        run(c, page_size, reqs.take(i)).b_pos <= run(c, page_size, reqs.take(j)).b_pos,
        run(c, page_size, reqs.take(j)).p_pos <= run(c, page_size, reqs.take(i)).p_pos,
    decreases j,
{
    if j == 0 {
        assert(reqs.take(0).len() == 0);
    } else {
        assert(reqs.take(j).drop_last() =~= reqs.take(j - 1));
        assert(reqs.take(j).last() == reqs[j - 1]);
        lemma_run_monotone(c, page_size, reqs, if i < j { i } else { j - 1 }, j - 1);
        lemma_step(run(c, page_size, reqs.take(j - 1)), page_size, reqs[j - 1]);
    }
}

/// The state in which request `i` is served leads, by that request, to the
/// state in which request `i + 1` is served.
proof fn lemma_run_unfold(c: Cursors, page_size: int, reqs: Seq<Request>, i: int)
    requires
        0 <= i < reqs.len(),
    ensures
        run(c, page_size, reqs.take(i + 1)) == run(c, page_size, reqs.take(i)).step(
            page_size,
            reqs[i],
        ),
{
    assert(reqs.take(i + 1).drop_last() =~= reqs.take(i));
    assert(reqs.take(i + 1).last() == reqs[i]);
}

/// Any two blocks granted along a sequence of requests are disjoint: a byte
/// block lies below, and a page run above, every block granted after it.
pub proof fn lemma_grants_disjoint(
    c: Cursors,
    page_size: int,
    reqs: Seq<Request>,
    i: int,
    j: int,
    first: Block,
    second: Block,
)
    requires
        c.wf(page_size),
        page_size > 0,
        all_valid(reqs),
        0 <= i < j < reqs.len(),
        grant_at(c, page_size, reqs, i) == Some(first),
        grant_at(c, page_size, reqs, j) == Some(second),
    ensures
        first.disjoint(second),
        reqs[i] is Bytes ==> first.addr + first.len <= second.addr,
        reqs[i] is Pages ==> second.addr + second.len <= first.addr,
{
    lemma_run_monotone(c, page_size, reqs, i, i);
    lemma_step(run(c, page_size, reqs.take(i)), page_size, reqs[i]);
    lemma_run_unfold(c, page_size, reqs, i);
    lemma_run_monotone(c, page_size, reqs, i + 1, j);
    lemma_step(run(c, page_size, reqs.take(j)), page_size, reqs[j]);
}

/// Byte blocks ascend without overlap: of two byte allocations granted along
/// a sequence of requests, the later block starts at or after the end of the
/// earlier one.
pub proof fn lemma_byte_blocks_ascend(
    c: Cursors,
    page_size: int,
    reqs: Seq<Request>,
    i: int,
    j: int,
    first: Block,
    second: Block,
)
    requires
        c.wf(page_size),
        page_size > 0,
        all_valid(reqs),
        0 <= i < j < reqs.len(),
        reqs[i] is Bytes,
        reqs[j] is Bytes,
        grant_at(c, page_size, reqs, i) == Some(first),
        grant_at(c, page_size, reqs, j) == Some(second),
    ensures
        first.addr + first.len <= second.addr,
        first.disjoint(second),
{
    lemma_grants_disjoint(c, page_size, reqs, i, j, first, second);
}

/// A granted byte block starts at a multiple of the alignment asked for,
/// has the size asked for, and lies in the region.
pub proof fn lemma_byte_block_aligned(
    c: Cursors,
    page_size: int,
    reqs: Seq<Request>,
    i: int,
    size: nat,
    align: nat,
    block: Block,
)
    requires
        c.wf(page_size),
        page_size > 0,
        all_valid(reqs),
        0 <= i < reqs.len(),
        reqs[i] == (Request::Bytes { size, align }),
        grant_at(c, page_size, reqs, i) == Some(block),
    ensures
        block.addr % (align as int) == 0,
        block.len == size,
        c.start <= block.addr,
        block.addr + block.len <= c.end,
{
    let before = run(c, page_size, reqs.take(i));
    lemma_run_monotone(c, page_size, reqs, 0, i);
    assert(reqs.take(0).len() == 0);
    lemma_step(before, page_size, reqs[i]);
    lemma_round_up_bounds(before.b_pos, align as int);
}

/// Page runs descend without overlap: of two page allocations granted along
/// a sequence of requests, the later run ends at or before the start of the
/// earlier one.
pub proof fn lemma_page_runs_descend(
    c: Cursors,
    page_size: int,
    reqs: Seq<Request>,
    i: int,
    j: int,
    first: Block,
    second: Block,
)
    requires
        c.wf(page_size),
        page_size > 0,
        all_valid(reqs),
        0 <= i < j < reqs.len(),
        reqs[i] is Pages,
        reqs[j] is Pages,
        grant_at(c, page_size, reqs, i) == Some(first),
        grant_at(c, page_size, reqs, j) == Some(second),
    ensures
        second.addr + second.len <= first.addr,
        second.addr <= first.addr,
        first.disjoint(second),
{
    lemma_grants_disjoint(c, page_size, reqs, i, j, first, second);
    lemma_run_monotone(c, page_size, reqs, j, j);
    lemma_step(run(c, page_size, reqs.take(j)), page_size, reqs[j]);
}

/// A granted page run starts a whole number of pages below the end of the
/// region, is as many pages long as were asked for, and lies in the region.
/// Where the region ends at a multiple of the page size, the run starts at
/// one.
pub proof fn lemma_page_run_aligned(
    c: Cursors,
    page_size: int,
    reqs: Seq<Request>,
    i: int,
    count: nat,
    align: nat,
    block: Block,
)
    requires
        c.wf(page_size),
        page_size > 0,
        all_valid(reqs),
        0 <= i < reqs.len(),
        reqs[i] == (Request::Pages { count, align }),
        grant_at(c, page_size, reqs, i) == Some(block),
    ensures
        (c.end - block.addr) % page_size == 0,
        c.end % page_size == 0 ==> block.addr % page_size == 0,
        block.len == count * page_size,
        c.start <= block.addr,
        block.addr + block.len <= c.end,
{
    let before = run(c, page_size, reqs.take(i));
    let addr = block.addr;
    lemma_run_monotone(c, page_size, reqs, 0, i);
    assert(reqs.take(0).len() == 0);
    lemma_step(before, page_size, reqs[i]);
    if c.end % page_size == 0 {
        lemma_fundamental_div_mod(c.end, page_size);
        lemma_fundamental_div_mod(c.end - addr, page_size);
        let k = c.end / page_size - (c.end - addr) / page_size;
        assert(addr == k * page_size) by (nonlinear_arith)
            requires
                c.end == page_size * (c.end / page_size),
                c.end - addr == page_size * ((c.end - addr) / page_size),
                k == c.end / page_size - (c.end - addr) / page_size,
        ;
        lemma_mod_multiples_basic(k, page_size);
    }
}

} // verus!
