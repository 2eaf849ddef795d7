//! The mathematical model of a bump allocator, and what follows from it.
//!
//! A [`Region`] is the state of an allocator as plain numbers, together with
//! the sequence of blocks that it has handed out. Its invariant says that
//! these blocks lie end to end from the base of the region to the cursor.
//! From that the guarantees of the allocator follow: blocks never overlap,
//! each starts where the one before it ends, and all of them lie inside the
//! region.

use vstd::prelude::*;

verus! {

/// A range of addresses that was handed out: `size` bytes from `addr` on.
pub struct Block {
    pub addr: int,
    pub size: int,
}

impl Block {
    /// The address just past the last byte of the block.
    pub open spec fn end(self) -> int {
        self.addr + self.size
    }

    /// Whether the byte at address `p` belongs to the block.
    pub open spec fn contains(self, p: int) -> bool {
        self.addr <= p < self.end()
    }
}

/// The sum of the sizes of a sequence of requests.
pub open spec fn sizes_total(sizes: Seq<nat>) -> nat
    decreases sizes.len(),
{
    if sizes.len() == 0 {
        0
    } else {
        sizes_total(sizes.drop_last()) + sizes.last()
    }
}

/// The sum of the first requests grows with their number, each time by the
/// size of the request that joins them.
pub proof fn lemma_sizes_total_take(sizes: Seq<nat>, a: int, b: int)
    requires
        0 <= a <= b <= sizes.len(),
    ensures
        sizes_total(sizes.take(a)) <= sizes_total(sizes.take(b)),
        b == a + 1 ==> sizes_total(sizes.take(b)) == sizes_total(sizes.take(a)) + sizes[a],
    decreases b - a,
{
    if a < b {
        lemma_sizes_total_take(sizes, a, b - 1);
        assert(sizes.take(b).drop_last() =~= sizes.take(b - 1));
    }
}

/// What an allocator is, as a mathematical value: the region it serves, how
/// far into it the cursor has moved, and every block handed out so far, oldest
/// first.
pub struct Region {
    pub base: int,
    pub capacity: int,
    pub cursor: int,
    pub granted: Seq<Block>,
}

impl Region {
    /// A region of `capacity` bytes at `base` from which nothing has been
    /// handed out.
    pub open spec fn fresh(base: int, capacity: int) -> Region {
        Region { base, capacity, cursor: 0, granted: Seq::empty() }
    }

    /// The address that the next block will start at.
    pub open spec fn next_address(self) -> int {
        self.base + self.cursor
    }

    /// Whether a request for `size` bytes can still be served.
    pub open spec fn fits(self, size: int) -> bool {
        self.cursor + size <= self.capacity
    }

    /// The region after `size` bytes were handed out at the cursor.
    pub open spec fn grant(self, size: int) -> Region {
        Region {
            base: self.base,
            capacity: self.capacity,
            cursor: self.cursor + size,
            granted: self.granted.push(Block { addr: self.next_address(), size }),
        }
    }

    /// The blocks handed out lie end to end: the first starts at the base,
    /// each other one where the one before it ends, and the cursor stands
    /// where the last one ends.
    pub open spec fn tiled(self) -> bool {
        &&& forall|i: int| 0 <= i < self.granted.len() ==> (#[trigger] self.granted[i]).size >= 0
        &&& self.granted.len() > 0 ==> self.granted[0].addr == self.base
        &&& forall|i: int, j: int|
            0 <= i && j == i + 1 && j < self.granted.len() ==> (#[trigger] self.granted[j]).addr
                == (#[trigger] self.granted[i]).end()
        &&& self.granted.len() == 0 ==> self.cursor == 0
        &&& self.granted.len() > 0 ==> self.granted.last().end() == self.next_address()
    }

    /// The invariant of an allocator: the region is made of addresses that
    /// fit a `usize`, the cursor is inside it, and the blocks handed out tile
    /// the part before the cursor.
    pub open spec fn wf(self) -> bool {
        &&& 0 <= self.base
        &&& 0 <= self.cursor <= self.capacity
        &&& self.base + self.capacity <= usize::MAX
        &&& self.tiled()
    }

    /// The region after the requests `sizes` were served one after the
    /// other, first to last.
    pub open spec fn grant_all(self, sizes: Seq<nat>) -> Region
        decreases sizes.len(),
    {
        if sizes.len() == 0 {
            self
        } else {
            self.grant_all(sizes.drop_last()).grant(sizes.last() as int)
        }
    }

    /// The address with which request `k` of `sizes` is answered when the
    /// requests are served one after the other: the cursor's place once the
    /// `k` requests before it were served.
    pub open spec fn address_of(self, sizes: Seq<nat>, k: int) -> int {
        self.grant_all(sizes.take(k)).next_address()
    }

    /// Handing out a block that fits keeps the invariant.
    pub proof fn lemma_grant_wf(self, size: int)
        requires
            self.wf(),
            0 <= size,
            self.fits(size),
        ensures
            self.grant(size).wf(),
    {
    }

    /// Of two blocks that were handed out, the earlier one ends at or before
    /// the start of the later one, at its very start if the later one came
    /// next. So no byte belongs to both.
    pub proof fn lemma_blocks_in_order(self, i: int, j: int)
        requires
            self.wf(),
            0 <= i < j < self.granted.len(),
        ensures
            self.granted[i].end() <= self.granted[j].addr,
            j == i + 1 ==> self.granted[i].end() == self.granted[j].addr,
            forall|p: int| !(self.granted[i].contains(p) && self.granted[j].contains(p)),
        decreases j - i,
    {
        if j > i + 1 {
            self.lemma_blocks_in_order(i, j - 1);
            assert(self.granted[j].addr == self.granted[j - 1].end());
        }
    }

    /// Every block that was handed out lies inside the region, before the
    /// cursor.
    pub proof fn lemma_blocks_inside(self, i: int)
        requires
            self.wf(),
            0 <= i < self.granted.len(),
        ensures
            self.base <= self.granted[i].addr,
            self.granted[i].end() <= self.next_address(),
            self.next_address() <= self.base + self.capacity,
    {
        let last = self.granted.len() - 1;
        if 0 < i {
            self.lemma_blocks_in_order(0, i);
        }
        if i < last {
            self.lemma_blocks_in_order(i, last);
        }
    }

    /// Serving requests one after the other adds one block for each to those
    /// handed out before, in the order of the requests; block `k` of them is
    /// the one that request `k` was answered with.
    pub proof fn lemma_grant_all_blocks(self, sizes: Seq<nat>, k: int)
        requires
            0 <= k < sizes.len(),
        ensures
            self.grant_all(sizes).granted.len() == self.granted.len() + sizes.len(),
            self.grant_all(sizes).granted.take(self.granted.len() as int) == self.granted,
            self.grant_all(sizes).granted[self.granted.len() + k].addr == self.address_of(sizes, k),
            self.grant_all(sizes).granted[self.granted.len() + k].size == sizes[k],
        decreases sizes.len(),
    {
        let n = self.granted.len() as int;
        let before = self.grant_all(sizes.drop_last());
        if sizes.len() == 1 {
            assert(sizes.drop_last() =~= sizes.take(0));
            assert(before.granted == self.granted);
        } else if k == sizes.len() - 1 {
            self.lemma_grant_all_blocks(sizes.drop_last(), 0);
            assert(sizes.drop_last() =~= sizes.take(k));
        } else {
            self.lemma_grant_all_blocks(sizes.drop_last(), k);
            assert(sizes.drop_last().take(k) =~= sizes.take(k));
        }
        assert(self.grant_all(sizes).granted.take(n) =~= before.granted.take(n));
    }

    /// Requests that add up to no more than what is left keep the invariant,
    /// leave the region where it is, and move the cursor on by their sum.
    pub proof fn lemma_grant_all_wf(self, sizes: Seq<nat>)
        requires
            self.wf(),
            self.cursor + sizes_total(sizes) <= self.capacity,
        ensures
            self.grant_all(sizes).wf(),
            self.grant_all(sizes).base == self.base,
            self.grant_all(sizes).capacity == self.capacity,
            self.grant_all(sizes).cursor == self.cursor + sizes_total(sizes),
        decreases sizes.len(),
    {
        if sizes.len() > 0 {
            self.lemma_grant_all_wf(sizes.drop_last());
            self.grant_all(sizes.drop_last()).lemma_grant_wf(sizes.last() as int);
        }
    }

    /// Requests that add up to no more than what is left are all served. The
    /// block for each starts where the block for the one before it ends, and
    /// the blocks for two of them do not overlap: the earlier one ends at or
    /// before the start of the later one. All of them lie inside the region.
    pub proof fn lemma_successive_requests(self, sizes: Seq<nat>, i: int, j: int)
        requires
            self.wf(),
            self.cursor + sizes_total(sizes) <= self.capacity,
            0 <= i < j < sizes.len(),
        ensures
            self.grant_all(sizes.take(i)).wf(),
            self.grant_all(sizes.take(j)).wf(),
            self.grant_all(sizes.take(i)).fits(sizes[i] as int),
            self.grant_all(sizes.take(j)).fits(sizes[j] as int),
            j == i + 1 ==> self.address_of(sizes, j) == self.address_of(sizes, i) + sizes[i],
            self.address_of(sizes, i) + sizes[i] <= self.address_of(sizes, j),
            self.base <= self.address_of(sizes, i),
            self.address_of(sizes, j) + sizes[j] <= self.base + self.capacity,
    {
        lemma_sizes_total_take(sizes, i, i + 1);
        lemma_sizes_total_take(sizes, i + 1, j);
        lemma_sizes_total_take(sizes, j, j + 1);
        lemma_sizes_total_take(sizes, j + 1, sizes.len() as int);
        assert(sizes.take(sizes.len() as int) =~= sizes);
        self.lemma_grant_all_wf(sizes.take(i));
        self.lemma_grant_all_wf(sizes.take(j));
    }
}

} // verus!
