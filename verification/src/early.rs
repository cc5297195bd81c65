//! The early allocator: one memory range, served from both ends.

use crate::align::{align_down, align_up, lemma_div_ceil_by_cases, round_down};
use crate::region::{lemma_page_grant_alignment, Region};
use vstd::arithmetic::power2::is_pow2;
use vstd::prelude::*;

verus! {

/// Why a request was turned down.
#[derive(Clone, Copy, Debug, PartialEq, Eq, Structural)]
pub enum AllocError {
    /// The request does not fit into what is left of the region, or asks
    /// for what this allocator never gives.
    NoMemory,
}

/// Early memory allocator, for use before the permanent byte and page
/// allocators can work.
///
/// It manages one memory range from both ends: bytes are handed out forward
/// from the start, pages backward from the end, and nothing is ever taken
/// back.
///
/// ```text
/// [ bytes-used | avail-area | pages-used ]
/// |            | -->    <-- |            |
/// start       b_pos        p_pos       end
/// ```
///
/// `count` is the number of byte grants made since the region was set.
///
/// Alignments are powers of two; [`crate::align::is_power_of_two`] tests
/// one. The page size may be any number, but the counts of pages need it to
/// be positive.
pub struct EarlyAllocator<const PAGE_SIZE: usize> {
    start: usize,
    end: usize,
    b_pos: usize,
    p_pos: usize,
    count: usize,
}

impl<const PAGE_SIZE: usize> View for EarlyAllocator<PAGE_SIZE> {
    type V = Region;

    closed spec fn view(&self) -> Region {
        Region {
            start: self.start as nat,
            end: self.end as nat,
            b_pos: self.b_pos as nat,
            p_pos: self.p_pos as nat,
            count: self.count as nat,
        }
    }
}

impl<const PAGE_SIZE: usize> EarlyAllocator<PAGE_SIZE> {
    #[verifier::type_invariant]
    spec fn cursors_in_order(self) -> bool {
        self@.wf()
    }

    /// An allocator that manages no memory yet.
    pub fn new() -> (a: Self)
        ensures
            a@ == Region::unset(),
            a@.wf(),
    {
        Self { start: 0, end: 0, b_pos: 0, p_pos: 0, count: 0 }
    }

    /// Takes over the `size` bytes at `start_vaddr`, forgetting everything
    /// granted before.
    pub fn init(&mut self, start_vaddr: usize, size: usize)
        requires
            start_vaddr + size <= usize::MAX,
        ensures
            final(self)@ == Region::fresh(start_vaddr as nat, size as nat),
            final(self)@.wf(),
    {
        let end: usize = start_vaddr + size;
        *self = Self { start: start_vaddr, end, b_pos: start_vaddr, p_pos: end, count: 0 };
    }

    /// Always refuses: the region cannot grow.
    pub fn add_memory(&mut self, _start_vaddr: usize, _size: usize) -> (r: Result<(), AllocError>)
        ensures
            r == Err::<(), AllocError>(AllocError::NoMemory),
            final(self)@ == old(self)@,
            final(self)@.wf(),
    {
        proof {
            use_type_invariant(&*self);
        }
        Err(AllocError::NoMemory)
    }

    /// Grants `size` bytes at the next multiple of `align`, if they fit
    /// below the page area, and refuses without any change if they do not.
    ///
    /// The count of grants must not be at its limit.
    pub fn alloc_bytes(&mut self, size: usize, align: usize) -> (r: Result<usize, AllocError>)
        requires
            is_pow2(align as int),
            old(self)@.count < usize::MAX,
        ensures
            final(self)@.wf(),
            match r {
                Ok(addr) => {
                    &&& old(self)@.bytes_fit(size as nat, align as nat)
                    &&& addr == old(self)@.byte_base(align as nat)
                    &&& final(self)@ == old(self)@.grant_bytes(size as nat, align as nat)
                    &&& addr % align == 0
                    &&& old(self)@.start <= old(self)@.b_pos <= addr
                    &&& addr + size == final(self)@.b_pos
                    &&& addr + size <= old(self)@.p_pos <= old(self)@.end
                },
                Err(e) => {
                    &&& !old(self)@.bytes_fit(size as nat, align as nat)
                    &&& e == AllocError::NoMemory
                    &&& final(self)@ == old(self)@
                },
            },
    {
        proof {
            use_type_invariant(&*self);
        }
        let new_pos: usize = match align_up(self.b_pos, align) {
            Some(p) => p,
            None => {
                return Err(AllocError::NoMemory);
            },
        };
        let new_end: usize = match new_pos.checked_add(size) {
            Some(e) => e,
            None => {
                return Err(AllocError::NoMemory);
            },
        };
        if new_end <= self.p_pos {
            self.b_pos = new_end;
            self.count += 1;
            Ok(new_pos)
        } else {
            Err(AllocError::NoMemory)
        }
    }

    /// Does nothing: bytes are never taken back, and the count of grants
    /// does not go down.
    pub fn dealloc(&mut self, _pos: usize, _size: usize)
        ensures
            final(self)@ == old(self)@,
            final(self)@.wf(),
    {
        proof {
            use_type_invariant(&*self);
        }
    }

    /// Number of byte grants made since the region was set.
    pub fn count(&self) -> (n: usize)
        ensures
            self@.wf(),
            n == self@.count,
    {
        proof {
            use_type_invariant(self);
        }
        self.count
    }

    /// Size of the whole region in bytes.
    pub fn total_bytes(&self) -> (n: usize)
        ensures
            self@.wf(),
            n == self@.total_bytes(),
    {
        proof {
            use_type_invariant(self);
        }
        self.end - self.start
    }

    /// Bytes taken at either end of the region, padding included.
    pub fn used_bytes(&self) -> (n: usize)
        ensures
            self@.wf(),
            n == self@.used_bytes(),
            n + self@.available_bytes() == self@.total_bytes(),
    {
        proof {
            use_type_invariant(self);
        }
        (self.b_pos - self.start) + (self.end - self.p_pos)
    }

    /// Bytes left between the byte area and the page area.
    pub fn available_bytes(&self) -> (n: usize)
        ensures
            self@.wf(),
            n == self@.available_bytes(),
            n + self@.used_bytes() == self@.total_bytes(),
    {
        proof {
            use_type_invariant(self);
        }
        self.p_pos - self.b_pos
    }

    /// Grants `num_pages` pages that end at the highest multiple of
    /// `align_pow2` not above the page area's lowest address, if they fit
    /// above the byte area, and refuses without any change if they do not.
    ///
    /// Only the end of the grant is aligned: its first address is a multiple
    /// of `align_pow2` just where its size is one.
    pub fn alloc_pages(&mut self, num_pages: usize, align_pow2: usize) -> (r: Result<
        usize,
        AllocError,
    >)
        requires
            is_pow2(align_pow2 as int),
        ensures
            final(self)@.wf(),
            match r {
                Ok(addr) => {
                    &&& old(self)@.pages_fit(num_pages as nat, align_pow2 as nat, PAGE_SIZE as nat)
                    &&& addr == old(self)@.page_base(
                        num_pages as nat,
                        align_pow2 as nat,
                        PAGE_SIZE as nat,
                    )
                    &&& final(self)@ == old(self)@.grant_pages(
                        num_pages as nat,
                        align_pow2 as nat,
                        PAGE_SIZE as nat,
                    )
                    &&& addr == final(self)@.p_pos
                    &&& old(self)@.start <= old(self)@.b_pos <= addr
                    &&& addr + num_pages * PAGE_SIZE <= old(self)@.p_pos <= old(self)@.end
                    &&& addr % align_pow2 == 0 <==> (num_pages * PAGE_SIZE) % (align_pow2 as int)
                        == 0
                    &&& PAGE_SIZE > 0 ==> (addr % PAGE_SIZE == 0 <==> round_down(
                        old(self)@.p_pos as int,
                        align_pow2 as int,
                    ) % (PAGE_SIZE as int) == 0)
                },
                Err(e) => {
                    &&& !old(self)@.pages_fit(num_pages as nat, align_pow2 as nat, PAGE_SIZE as nat)
                    &&& e == AllocError::NoMemory
                    &&& final(self)@ == old(self)@
                },
            },
    {
        proof {
            use_type_invariant(&*self);
        }
        let new_top: usize = align_down(self.p_pos, align_pow2);
        let size: usize = match num_pages.checked_mul(PAGE_SIZE) {
            Some(s) => s,
            None => {
                return Err(AllocError::NoMemory);
            },
        };
        let new_pos: usize = match new_top.checked_sub(size) {
            Some(p) => p,
            None => {
                return Err(AllocError::NoMemory);
            },
        };
        if new_pos >= self.b_pos {
            proof {
                lemma_page_grant_alignment(
                    self@,
                    num_pages as nat,
                    align_pow2 as nat,
                    PAGE_SIZE as nat,
                );
            }
            self.p_pos = new_pos;
            Ok(new_pos)
        } else {
            Err(AllocError::NoMemory)
        }
    }

    /// Does nothing: pages are never taken back.
    pub fn dealloc_pages(&mut self, _pos: usize, _num_pages: usize)
        ensures
            final(self)@ == old(self)@,
            final(self)@.wf(),
    {
        proof {
            use_type_invariant(&*self);
        }
    }

    /// Whole pages in the region.
    pub fn total_pages(&self) -> (n: usize)
        requires
            PAGE_SIZE > 0,
        ensures
            self@.wf(),
            n == self@.total_pages(PAGE_SIZE as nat),
    {
        proof {
            use_type_invariant(self);
        }
        (self.end - self.start) / PAGE_SIZE
    }

    /// Pages that it takes to cover the page area: a page that is used in
    /// part counts.
    pub fn used_pages(&self) -> (n: usize)
        requires
            PAGE_SIZE > 0,
        ensures
            self@.wf(),
            n == self@.used_pages(PAGE_SIZE as nat),
    {
        proof {
            use_type_invariant(self);
        }
        let used: usize = self.end - self.p_pos;
        let whole: usize = used / PAGE_SIZE;
        proof {
            lemma_div_ceil_by_cases(used as int, PAGE_SIZE as int);
        }
        if used % PAGE_SIZE == 0 {
            whole
        } else {
            whole + 1
        }
    }

    /// Whole pages left between the byte area and the page area.
    pub fn available_pages(&self) -> (n: usize)
        requires
            PAGE_SIZE > 0,
        ensures
            self@.wf(),
            n == self@.available_pages(PAGE_SIZE as nat),
    {
        proof {
            use_type_invariant(self);
        }
        (self.p_pos - self.b_pos) / PAGE_SIZE
    }
}

} // verus!
