//! The mathematical model of a double-ended region, and what holds of one
//! state and of one grant.

use crate::align::{
    div_ceil, lemma_multiple_less_a_multiple, lemma_negation_keeps_multiples, lemma_pow2_divides,
    lemma_round_down_bounds, lemma_round_up_bounds, round_down, round_up,
};
use vstd::arithmetic::div_mod::{
    lemma_fundamental_div_mod, lemma_mod_mod, lemma_mod_multiples_basic,
};
use vstd::arithmetic::power2::is_pow2;
use vstd::prelude::*;

verus! {

/// The state of a double-ended region as mathematical integers.
///
/// Bytes are granted upward from `start`, pages downward from `end`:
///
/// ```text
/// [ bytes granted |   gap   | pages granted ]
/// start         b_pos     p_pos           end
/// ```
pub struct Region {
    /// Lowest address of the region.
    pub start: nat,
    /// First address past the region.
    pub end: nat,
    /// First address past the bytes granted so far.
    pub b_pos: nat,
    /// Lowest address of the pages granted so far.
    pub p_pos: nat,
    /// Number of byte grants made so far.
    pub count: nat,
}

impl Region {
    /// The cursors are in order: the two granted areas lie inside the region
    /// and do not reach into each other.
    pub open spec fn wf(self) -> bool {
        self.start <= self.b_pos <= self.p_pos <= self.end
    }

    /// The region before it is given any memory.
    pub open spec fn unset() -> Region {
        Region { start: 0, end: 0, b_pos: 0, p_pos: 0, count: 0 }
    }

    /// The region of `size` bytes at `start` with nothing granted.
    pub open spec fn fresh(start: nat, size: nat) -> Region {
        Region { start, end: start + size, b_pos: start, p_pos: start + size, count: 0 }
    }

    /// Bytes in the region.
    pub open spec fn total_bytes(self) -> int {
        self.end - self.start
    }

    /// Bytes taken at either end, padding included.
    pub open spec fn used_bytes(self) -> int {
        (self.b_pos - self.start) + (self.end - self.p_pos)
    }

    /// Bytes of the gap between the two cursors.
    pub open spec fn available_bytes(self) -> int {
        self.p_pos - self.b_pos
    }

    /// Whole pages in the region.
    pub open spec fn total_pages(self, page_size: nat) -> int {
        (self.end - self.start) / (page_size as int)
    }

    /// Pages that it takes to cover the page area.
    pub open spec fn used_pages(self, page_size: nat) -> int {
        div_ceil(self.end - self.p_pos, page_size as int)
    }

    /// Whole pages in the gap.
    pub open spec fn available_pages(self, page_size: nat) -> int {
        (self.p_pos - self.b_pos) / (page_size as int)
    }

    /// Where a grant of bytes aligned to `align` would start.
    pub open spec fn byte_base(self, align: nat) -> int {
        round_up(self.b_pos as int, align as int)
    }

    /// Whether `size` bytes aligned to `align` fit into the gap.
    pub open spec fn bytes_fit(self, size: nat, align: nat) -> bool {
        self.byte_base(align) + size <= self.p_pos
    }

    /// The region after granting `size` bytes aligned to `align`.
    pub open spec fn grant_bytes(self, size: nat, align: nat) -> Region {
        Region { b_pos: (self.byte_base(align) + size) as nat, count: self.count + 1, ..self }
    }

    /// Where a grant of `num_pages` pages would start, its top aligned to
    /// `align`.
    pub open spec fn page_base(self, num_pages: nat, align: nat, page_size: nat) -> int {
        round_down(self.p_pos as int, align as int) - num_pages * page_size
    }

    /// Whether `num_pages` pages below a top aligned to `align` fit into the
    /// gap.
    pub open spec fn pages_fit(self, num_pages: nat, align: nat, page_size: nat) -> bool {
        self.page_base(num_pages, align, page_size) >= self.b_pos
    }

    /// The region after granting `num_pages` pages below a top aligned to
    /// `align`.
    pub open spec fn grant_pages(self, num_pages: nat, align: nat, page_size: nat) -> Region {
        Region { p_pos: self.page_base(num_pages, align, page_size) as nat, ..self }
    }

    /// `later` has the bounds of `self`, and cursors that have not moved
    /// back.
    pub open spec fn grows_into(self, later: Region) -> bool {
        &&& later.start == self.start
        &&& later.end == self.end
        &&& self.b_pos <= later.b_pos
        &&& later.p_pos <= self.p_pos
    }
}

/// What is available and what is used make up the whole region.
pub proof fn lemma_bytes_add_up(s: Region)
    requires
        s.wf(),
    ensures
        s.available_bytes() + s.used_bytes() == s.total_bytes(),
        0 <= s.available_bytes() <= s.total_bytes(),
        0 <= s.used_bytes() <= s.total_bytes(),
{
}

/// A grant of bytes starts at a multiple of the alignment, takes the lowest
/// part of the gap, and leaves the cursors in order.
pub proof fn lemma_byte_grant(s: Region, size: nat, align: nat)
    requires
        s.wf(),
        is_pow2(align as int),
        s.bytes_fit(size, align),
    ensures
        s.byte_base(align) % (align as int) == 0,
        s.b_pos <= s.byte_base(align) < s.b_pos + align,
        s.byte_base(align) + size <= s.p_pos,
        size > 0 ==> s.start <= s.byte_base(align) < s.end,
        s.grant_bytes(size, align).wf(),
        s.grows_into(s.grant_bytes(size, align)),
{
    reveal(is_pow2);
    lemma_round_up_bounds(s.b_pos as int, align as int);
}

/// A grant of pages takes the part of the gap below the aligned top, and
/// leaves the cursors in order.
pub proof fn lemma_page_grant(s: Region, num_pages: nat, align: nat, page_size: nat)
    requires
        s.wf(),
        is_pow2(align as int),
        s.pages_fit(num_pages, align, page_size),
    ensures
        s.b_pos <= s.page_base(num_pages, align, page_size),
        s.page_base(num_pages, align, page_size) + num_pages * page_size <= s.p_pos,
        s.p_pos - align < s.page_base(num_pages, align, page_size) + num_pages * page_size,
        s.grant_pages(num_pages, align, page_size).wf(),
        s.grows_into(s.grant_pages(num_pages, align, page_size)),
{
    reveal(is_pow2);
    lemma_round_down_bounds(s.p_pos as int, align as int);
}

/// Where a grant of pages starts: at a multiple of the alignment asked for
/// exactly when the size of the grant is one, and at a multiple of the page
/// size exactly when the aligned top of the gap is one.
pub proof fn lemma_page_grant_alignment(s: Region, num_pages: nat, align: nat, page_size: nat)
    requires
        s.wf(),
        is_pow2(align as int),
        s.pages_fit(num_pages, align, page_size),
    ensures
        s.page_base(num_pages, align, page_size) % (align as int) == 0 <==> (num_pages * page_size)
            % align == 0,
        page_size > 0 ==> (s.page_base(num_pages, align, page_size) % (page_size as int) == 0
            <==> round_down(s.p_pos as int, align as int) % (page_size as int) == 0),
{
    reveal(is_pow2);
    let top: int = round_down(s.p_pos as int, align as int);
    let len: int = (num_pages * page_size) as int;
    lemma_round_down_bounds(s.p_pos as int, align as int);
    lemma_negation_keeps_multiples(top, align as int);
    lemma_negation_keeps_multiples(len, align as int);
    lemma_multiple_less_a_multiple(-len, -top, align as int);
    if page_size > 0 {
        lemma_mod_multiples_basic(num_pages as int, page_size as int);
        lemma_multiple_less_a_multiple(top, len, page_size as int);
    }
}

/// Where the page size is a power of two and the page cursor stands at a
/// multiple of it, a grant of pages starts at such a multiple too, whatever
/// the alignment asked for.
pub proof fn lemma_page_grant_page_aligned(s: Region, num_pages: nat, align: nat, page_size: nat)
    requires
        s.wf(),
        is_pow2(align as int),
        is_pow2(page_size as int),
        s.p_pos % page_size == 0,
        s.pages_fit(num_pages, align, page_size),
    ensures
        s.page_base(num_pages, align, page_size) % (page_size as int) == 0,
        s.grant_pages(num_pages, align, page_size).p_pos % page_size == 0,
{
    reveal(is_pow2);
    let a: int = align as int;
    let ps: int = page_size as int;
    let top: int = round_down(s.p_pos as int, a);
    lemma_page_grant_alignment(s, num_pages, align, page_size);
    lemma_round_down_bounds(s.p_pos as int, a);
    if a <= ps {
        // The cursor is a multiple of the alignment already.
        let q: int = ps / a;
        lemma_pow2_divides(a, ps);
        lemma_fundamental_div_mod(ps, a);
        assert(q > 0) by (nonlinear_arith)
            requires
                a > 0,
                ps > 0,
                ps == a * q,
        ;
        lemma_mod_mod(s.p_pos as int, a, q);
    } else {
        // Every multiple of the alignment is one of the page size.
        let q: int = a / ps;
        lemma_pow2_divides(ps, a);
        lemma_fundamental_div_mod(a, ps);
        assert(q > 0) by (nonlinear_arith)
            requires
                ps > 0,
                a > 0,
                a == ps * q,
        ;
        lemma_mod_mod(top, ps, q);
    }
}

} // verus!
