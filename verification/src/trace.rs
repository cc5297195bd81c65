//! Sequences of calls on one region, and what holds of all of them.
//!
//! A sequence stands for the calls made on an allocator between two calls
//! of `init`.

use crate::region::{lemma_byte_grant, lemma_page_grant, lemma_page_grant_page_aligned, Region};
use vstd::arithmetic::power2::is_pow2;
use vstd::prelude::*;

verus! {

/// One call on an allocator, with its arguments.
pub enum Request {
    /// `alloc_bytes(size, align)`
    Bytes { size: nat, align: nat },
    /// `alloc_pages(num_pages, align)`
    Pages { num_pages: nat, align: nat },
    /// `dealloc(pos, size)`
    FreeBytes { pos: nat, size: nat },
    /// `dealloc_pages(pos, num_pages)`
    FreePages { pos: nat, num_pages: nat },
    /// `add_memory(start, size)`
    AddMemory { start: nat, size: nat },
}

impl Request {
    /// The alignment, where the call takes one, is a power of two.
    pub open spec fn valid(self) -> bool {
        match self {
            Request::Bytes { align, .. } => is_pow2(align as int),
            Request::Pages { align, .. } => is_pow2(align as int),
            _ => true,
        }
    }

    /// The call hands memory back.
    pub open spec fn is_free(self) -> bool {
        self is FreeBytes || self is FreePages
    }
}

/// The addresses from `base` up to, not including, `base + len`.
pub struct Extent {
    pub base: int,
    pub len: nat,
}

impl Extent {
    /// One extent ends where the other begins, or before.
    pub open spec fn disjoint(self, other: Extent) -> bool {
        self.base + self.len <= other.base || other.base + other.len <= self.base
    }

    /// The extent lies between `low` and `high`.
    pub open spec fn inside(self, low: int, high: int) -> bool {
        low <= self.base && self.base + self.len <= high
    }
}

impl Region {
    /// The region after one call.
    pub open spec fn step(self, req: Request, page_size: nat) -> Region {
        match req {
            Request::Bytes { size, align } => if self.bytes_fit(size, align) {
                self.grant_bytes(size, align)
            } else {
                self
            },
            Request::Pages { num_pages, align } => if self.pages_fit(num_pages, align, page_size) {
                self.grant_pages(num_pages, align, page_size)
            } else {
                self
            },
            _ => self,
        }
    }

    /// The memory that one call hands out, if any.
    pub open spec fn granted(self, req: Request, page_size: nat) -> Option<Extent> {
        match req {
            Request::Bytes { size, align } => if self.bytes_fit(size, align) {
                Some(Extent { base: self.byte_base(align), len: size })
            } else {
                None
            },
            Request::Pages { num_pages, align } => if self.pages_fit(num_pages, align, page_size) {
                Some(
                    Extent {
                        base: self.page_base(num_pages, align, page_size),
                        len: num_pages * page_size,
                    },
                )
            } else {
                None
            },
            _ => None,
        }
    }

    /// The region after a sequence of calls, made in order.
    pub open spec fn run(self, reqs: Seq<Request>, page_size: nat) -> Region
        decreases reqs.len(),
    {
        if reqs.len() == 0 {
            self
        } else {
            self.run(reqs.drop_last(), page_size).step(reqs.last(), page_size)
        }
    }

    /// The memory that call number `i` of a sequence hands out, if any.
    pub open spec fn granted_at(self, reqs: Seq<Request>, page_size: nat, i: int) -> Option<
        Extent,
    > {
        self.run(reqs.take(i), page_size).granted(reqs[i], page_size)
    }
}

/// Every call of the sequence is valid.
pub open spec fn all_valid(reqs: Seq<Request>) -> bool {
    forall|i: int| 0 <= i < reqs.len() ==> (#[trigger] reqs[i]).valid()
}

/// One call keeps the cursors in order, moves them only toward each other,
/// and places what it grants in the part of the gap that it closes. A call
/// that grants nothing changes nothing.
pub proof fn lemma_step(s: Region, req: Request, page_size: nat)
    requires
        s.wf(),
        req.valid(),
    ensures
        s.step(req, page_size).wf(),
        s.grows_into(s.step(req, page_size)),
        s.granted(req, page_size) is None ==> s.step(req, page_size) == s,
        s.granted(req, page_size) matches Some(e) ==> {
            &&& req is Bytes ==> e.inside(s.b_pos as int, s.step(req, page_size).b_pos as int)
            &&& req is Pages ==> e.inside(s.step(req, page_size).p_pos as int, s.p_pos as int)
        },
{
    match req {
        Request::Bytes { size, align } => {
            if s.bytes_fit(size, align) {
                lemma_byte_grant(s, size, align);
            }
        },
        Request::Pages { num_pages, align } => {
            if s.pages_fit(num_pages, align, page_size) {
                lemma_page_grant(s, num_pages, align, page_size);
            }
        },
        _ => {},
    }
}

/// Any sequence of calls keeps the cursors in order and moves them only
/// toward each other.
pub proof fn lemma_run(s: Region, reqs: Seq<Request>, page_size: nat)
    requires
        s.wf(),
        all_valid(reqs),
    ensures
        s.run(reqs, page_size).wf(),
        s.grows_into(s.run(reqs, page_size)),
    decreases reqs.len(),
{
    if reqs.len() > 0 {
        let front = reqs.drop_last();
        lemma_run(s, front, page_size);
        lemma_step(s.run(front, page_size), reqs.last(), page_size);
    }
}

/// What call number `i` hands out lies in the part of the gap that the
/// whole sequence closes: bytes in the lower part, pages in the upper.
pub proof fn lemma_grant_in_closed_gap(s: Region, reqs: Seq<Request>, page_size: nat, i: int)
    requires
        s.wf(),
        all_valid(reqs),
        0 <= i < reqs.len(),
    ensures
        s.granted_at(reqs, page_size, i) matches Some(e) ==> {
            &&& reqs[i] is Bytes ==> e.inside(s.b_pos as int, s.run(reqs, page_size).b_pos as int)
            &&& reqs[i] is Pages ==> e.inside(s.run(reqs, page_size).p_pos as int, s.p_pos as int)
        },
    decreases reqs.len(),
{
    let front = reqs.drop_last();
    lemma_run(s, front, page_size);
    lemma_step(s.run(front, page_size), reqs.last(), page_size);
    if i == reqs.len() - 1 {
        assert(reqs.take(i) =~= front);
    } else {
        lemma_grant_in_closed_gap(s, front, page_size, i);
        assert(front.take(i) =~= reqs.take(i));
    }
}

/// Whatever a sequence of calls hands out lies inside the region.
pub proof fn lemma_grant_inside_region(s: Region, reqs: Seq<Request>, page_size: nat, i: int)
    requires
        s.wf(),
        all_valid(reqs),
        0 <= i < reqs.len(),
    ensures
        s.granted_at(reqs, page_size, i) matches Some(e) ==> e.inside(s.start as int, s.end as int),
{
    lemma_run(s, reqs, page_size);
    lemma_grant_in_closed_gap(s, reqs, page_size, i);
}

/// No two grants of a sequence of calls overlap, be they of bytes or of
/// pages.
pub proof fn lemma_grants_disjoint(
    s: Region,
    reqs: Seq<Request>,
    page_size: nat,
    i: int,
    j: int,
)
    requires
        s.wf(),
        all_valid(reqs),
        0 <= i < j < reqs.len(),
    ensures
        ({
            let first = s.granted_at(reqs, page_size, i);
            let second = s.granted_at(reqs, page_size, j);
            first is Some && second is Some ==> first->0.disjoint(second->0)
        }),
{
    let before = reqs.take(j);
    let at_second = s.run(before, page_size);
    assert(before.take(i) =~= reqs.take(i));
    lemma_grant_in_closed_gap(s, before, page_size, i);
    lemma_run(s, before, page_size);
    lemma_step(at_second, reqs[j], page_size);
}

/// A grant of bytes in a sequence of calls has the size asked for, starts at
/// a multiple of the alignment asked for, not before the region, and, unless
/// it is empty, before the end of the region.
pub proof fn lemma_byte_grant_placed(s: Region, reqs: Seq<Request>, page_size: nat, i: int)
    requires
        s.wf(),
        all_valid(reqs),
        0 <= i < reqs.len(),
        reqs[i] is Bytes,
        s.granted_at(reqs, page_size, i) is Some,
    ensures
        ({
            let e = s.granted_at(reqs, page_size, i)->0;
            &&& e.len == reqs[i]->Bytes_size
            &&& e.base % (reqs[i]->Bytes_align as int) == 0
            &&& s.start <= e.base <= s.end
            &&& e.len > 0 ==> e.base < s.end
        }),
{
    let at = s.run(reqs.take(i), page_size);
    lemma_grant_inside_region(s, reqs, page_size, i);
    lemma_run(s, reqs.take(i), page_size);
    lemma_byte_grant(at, reqs[i]->Bytes_size, reqs[i]->Bytes_align);
}

/// Of two grants of pages, the later lies wholly below the earlier: its
/// address is the smaller one unless it is empty.
pub proof fn lemma_page_grants_descend(
    s: Region,
    reqs: Seq<Request>,
    page_size: nat,
    i: int,
    j: int,
)
    requires
        s.wf(),
        all_valid(reqs),
        0 <= i < j < reqs.len(),
        reqs[i] is Pages,
        reqs[j] is Pages,
        s.granted_at(reqs, page_size, i) is Some,
        s.granted_at(reqs, page_size, j) is Some,
    ensures
        ({
            let earlier = s.granted_at(reqs, page_size, i)->0;
            let later = s.granted_at(reqs, page_size, j)->0;
            &&& later.base + later.len <= earlier.base
            &&& later.len > 0 ==> later.base < earlier.base
        }),
{
    let before = reqs.take(j);
    let at_later = s.run(before, page_size);
    assert(before.take(i) =~= reqs.take(i));
    lemma_grant_in_closed_gap(s, before, page_size, i);
    lemma_run(s, before, page_size);
    lemma_step(at_later, reqs[j], page_size);
}

/// Where the page size is a power of two, a sequence of calls keeps the
/// page cursor at a multiple of it.
pub proof fn lemma_run_keeps_page_alignment(s: Region, reqs: Seq<Request>, page_size: nat)
    requires
        s.wf(),
        all_valid(reqs),
        is_pow2(page_size as int),
        s.p_pos % page_size == 0,
    ensures
        s.run(reqs, page_size).p_pos % page_size == 0,
    decreases reqs.len(),
{
    if reqs.len() > 0 {
        let front = reqs.drop_last();
        let at = s.run(front, page_size);
        lemma_run(s, front, page_size);
        lemma_run_keeps_page_alignment(s, front, page_size);
        match reqs.last() {
            Request::Pages { num_pages, align } => {
                if at.pages_fit(num_pages, align, page_size) {
                    lemma_page_grant_page_aligned(at, num_pages, align, page_size);
                }
            },
            _ => {},
        }
    }
}

/// Where the page size is a power of two and the page cursor starts at a
/// multiple of it, every grant of pages in a sequence of calls starts at
/// such a multiple.
pub proof fn lemma_page_grants_page_aligned(
    s: Region,
    reqs: Seq<Request>,
    page_size: nat,
    i: int,
)
    requires
        s.wf(),
        all_valid(reqs),
        is_pow2(page_size as int),
        s.p_pos % page_size == 0,
        0 <= i < reqs.len(),
        reqs[i] is Pages,
        s.granted_at(reqs, page_size, i) is Some,
    ensures
        s.granted_at(reqs, page_size, i)->0.base % (page_size as int) == 0,
{
    let before = reqs.take(i);
    lemma_run(s, before, page_size);
    lemma_run_keeps_page_alignment(s, before, page_size);
    lemma_page_grant_page_aligned(
        s.run(before, page_size),
        reqs[i]->Pages_num_pages,
        reqs[i]->Pages_align,
        page_size,
    );
}

/// Calls that hand memory back, however many and in whatever order, leave
/// the region as it was, and with it every count of bytes and pages.
pub proof fn lemma_frees_change_nothing(s: Region, reqs: Seq<Request>, page_size: nat)
    requires
        forall|i: int| 0 <= i < reqs.len() ==> (#[trigger] reqs[i]).is_free(),
    ensures
        s.run(reqs, page_size) == s,
        s.run(reqs, page_size).used_bytes() == s.used_bytes(),
        s.run(reqs, page_size).available_bytes() == s.available_bytes(),
        s.run(reqs, page_size).used_pages(page_size) == s.used_pages(page_size),
        s.run(reqs, page_size).available_pages(page_size) == s.available_pages(page_size),
    decreases reqs.len(),
{
    if reqs.len() > 0 {
        lemma_frees_change_nothing(s, reqs.drop_last(), page_size);
    }
}

} // verus!
