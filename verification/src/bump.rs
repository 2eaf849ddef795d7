//! A bump allocator over one contiguous region of addresses.
//!
//! The allocator owns no memory. It is told where a region starts and how
//! long it is, and it answers each request with the address at which the
//! requested bytes begin: the first request gets the start of the region,
//! every later one the address just past the bytes of the one before. Nothing
//! is ever taken back, so the ranges handed out never overlap.
//!
//! What the allocator is at any moment is a [`Region`]; the laws that hold of
//! it are proved in [`crate::region`].

use vstd::prelude::*;

use crate::region::{Block, Region};

verus! {

/// Why a request was turned down.
#[derive(Debug, Clone, Copy, PartialEq, Eq)]
pub enum AllocError {
    /// Fewer bytes are left between the cursor and the end of the region
    /// than were asked for.
    OutOfCapacity,
}

/// A bump allocator: a region of `capacity` bytes starting at address `base`,
/// and a cursor that counts the bytes handed out.
///
/// Memory is never reclaimed. [`BumpAllocator::release`] exists so that the
/// allocator can stand where a pair of allocate and release is expected, and
/// does nothing.
///
/// The allocator has no lock of its own. Requests go through `&mut`, so no
/// two of them run at once; a host that shares one allocator among threads
/// has to see to that itself.
pub struct BumpAllocator {
    base: usize,
    capacity: usize,
    cursor: usize,
    granted: Ghost<Seq<Block>>,
}

impl View for BumpAllocator {
    type V = Region;

    closed spec fn view(&self) -> Region {
        Region {
            base: self.base as int,
            capacity: self.capacity as int,
            cursor: self.cursor as int,
            granted: self.granted@,
        }
    }
}

impl BumpAllocator {
    /// The allocator's invariant, which every method keeps.
    pub open spec fn wf(&self) -> bool {
        self@.wf()
    }

    /// An allocator for the `capacity` bytes that start at address `base`,
    /// with nothing handed out yet. The end of the region must be an address
    /// too.
    pub fn new(base: usize, capacity: usize) -> (a: Self)
        requires
            base + capacity <= usize::MAX,
        ensures
            a.wf(),
            a@ == Region::fresh(base as int, capacity as int),
    {
        BumpAllocator { base, capacity, cursor: 0, granted: Ghost(Seq::empty()) }
    }

    /// Hands out the next `size` bytes of the region and returns the address
    /// at which they start: the address just past the block handed out
    /// before, or the base of the region for the first block. The block lies
    /// inside the region and shares no byte with any block handed out
    /// earlier. A request for 0 bytes is served and leaves the cursor where
    /// it is. Sizes are unsigned: there is no asking for a negative number of
    /// bytes.
    ///
    /// A request for more bytes than are left fails with
    /// [`AllocError::OutOfCapacity`] and changes nothing.
    pub fn allocate(&mut self, size: usize) -> (r: Result<usize, AllocError>)
        requires
            old(self).wf(),
        ensures
            final(self).wf(),
            old(self)@.cursor <= final(self)@.cursor,
            match r {
                Ok(addr) => {
                    &&& old(self)@.fits(size as int)
                    &&& addr == old(self)@.next_address()
                    &&& final(self)@ == old(self)@.grant(size as int)
                    &&& old(self)@.base <= addr
                    &&& addr + size <= old(self)@.base + old(self)@.capacity
                    &&& forall|i: int|
                        0 <= i < old(self)@.granted.len() ==> (
                        #[trigger] old(self)@.granted[i]).end() <= addr
                },
                Err(e) => {
                    &&& !old(self)@.fits(size as int)
                    &&& e == AllocError::OutOfCapacity
                    &&& final(self)@ == old(self)@
                },
            },
    {
        if size > self.capacity - self.cursor {
            return Err(AllocError::OutOfCapacity);
        }
        let addr = self.base + self.cursor;
        proof {
            self@.lemma_grant_wf(size as int);
            assert forall|i: int| 0 <= i < self@.granted.len() implies (
            #[trigger] self@.granted[i]).end() <= addr by {
                self@.lemma_blocks_inside(i);
            }
        }
        self.cursor = self.cursor + size;
        self.granted = Ghost(self.granted@.push(Block { addr: addr as int, size: size as int }));
        Ok(addr)
    }

    /// Does nothing, whatever `addr` is: the allocator takes no memory back.
    pub fn release(&mut self, addr: usize)
        ensures
            *final(self) == *old(self),
            final(self)@ == old(self)@,
    {
        let _ = addr;
    }

    /// The address at which the region starts.
    pub fn base(&self) -> (r: usize)
        ensures
            r == self@.base,
    {
        self.base
    }

    /// The length of the region in bytes.
    pub fn capacity(&self) -> (r: usize)
        ensures
            r == self@.capacity,
    {
        self.capacity
    }

    /// The number of bytes handed out so far.
    pub fn cursor(&self) -> (r: usize)
        ensures
            r == self@.cursor,
    {
        self.cursor
    }
}

} // verus!
