//! Rounding addresses to multiples of a power of two.
//!
//! The spec functions say what rounding means in terms of division; the
//! executable functions compute it with masks, as an allocator does, and are
//! proved to agree.

use vstd::arithmetic::div_mod::{
    lemma_fundamental_div_mod, lemma_fundamental_div_mod_converse, lemma_mod_breakdown,
    lemma_mod_multiples_vanish,
};
use vstd::arithmetic::power::pow;
use vstd::arithmetic::power2::{is_pow2, is_pow2_equiv, lemma_pow2};
use vstd::layout::unsigned_int_max_values;
use vstd::prelude::*;

verus! {

/// The largest multiple of `align` that does not exceed `addr`.
pub open spec fn round_down(addr: int, align: int) -> int {
    addr - addr % align
}

/// The smallest multiple of `align` that is not below `addr`.
pub open spec fn round_up(addr: int, align: int) -> int {
    round_down(addr + align - 1, align)
}

/// The number of blocks of `d` that it takes to cover `n`.
pub open spec fn div_ceil(n: int, d: int) -> int {
    (n + d - 1) / d
}

/// `round_down` yields a multiple of `align`, less than `align` below `addr`.
pub proof fn lemma_round_down_bounds(addr: int, align: int)
    requires
        align > 0,
    ensures
        round_down(addr, align) % align == 0,
        round_down(addr, align) <= addr < round_down(addr, align) + align,
{
    let q: int = addr / align;
    lemma_fundamental_div_mod(addr, align);
    assert(align * q == q * align) by (nonlinear_arith);
    lemma_fundamental_div_mod_converse(round_down(addr, align), align, q, 0);
}

/// `round_up` yields a multiple of `align`, less than `align` above `addr`.
pub proof fn lemma_round_up_bounds(addr: int, align: int)
    requires
        align > 0,
    ensures
        round_up(addr, align) % align == 0,
        addr <= round_up(addr, align) < addr + align,
{
    lemma_round_down_bounds(addr + align - 1, align);
}

/// The covering count is the quotient, and one more where a remainder is left.
pub proof fn lemma_div_ceil_by_cases(n: int, d: int)
    requires
        n >= 0,
        d > 0,
    ensures
        n % d == 0 ==> div_ceil(n, d) == n / d,
        n % d != 0 ==> div_ceil(n, d) == n / d + 1 && n / d < n,
{
    let q: int = n / d;
    let r: int = n % d;
    lemma_fundamental_div_mod(n, d);
    assert(d * q == q * d) by (nonlinear_arith);
    if r == 0 {
        lemma_fundamental_div_mod_converse(n + d - 1, d, q, d - 1);
    } else {
        assert((q + 1) * d == q * d + d) by (nonlinear_arith);
        lemma_fundamental_div_mod_converse(n + d - 1, d, q + 1, r - 1);
        assert(q <= q * d) by (nonlinear_arith)
            requires
                q >= 0,
                d >= 1,
        ;
    }
}

/// `-x` is a multiple of `m` exactly when `x` is.
pub proof fn lemma_negation_keeps_multiples(x: int, m: int)
    requires
        m > 0,
    ensures
        (-x) % m == 0 <==> x % m == 0,
{
    let q: int = x / m;
    let r: int = x % m;
    lemma_fundamental_div_mod(x, m);
    if r == 0 {
        assert(-x == (-q) * m + 0) by (nonlinear_arith)
            requires
                x == m * q,
        ;
        lemma_fundamental_div_mod_converse(-x, m, -q, 0);
    } else {
        assert(-x == (-q - 1) * m + (m - r)) by (nonlinear_arith)
            requires
                x == m * q + r,
        ;
        lemma_fundamental_div_mod_converse(-x, m, -q - 1, m - r);
    }
}

/// Taking a multiple of `m` off `x` leaves a multiple of `m` exactly when
/// `x` is one.
pub proof fn lemma_multiple_less_a_multiple(x: int, y: int, m: int)
    requires
        m > 0,
        y % m == 0,
    ensures
        (x - y) % m == 0 <==> x % m == 0,
{
    let k: int = y / m;
    lemma_fundamental_div_mod(y, m);
    assert(m * (-k) == -(m * k)) by (nonlinear_arith);
    lemma_mod_multiples_vanish(-k, x, m);
}

/// Of two powers of two, the smaller divides the larger.
pub proof fn lemma_pow2_divides(a: int, m: int)
    requires
        is_pow2(a),
        is_pow2(m),
        a <= m,
    ensures
        m % a == 0,
    decreases a,
{
    reveal(is_pow2);
    if a > 1 {
        lemma_pow2_divides(a / 2, m / 2);
        lemma_mod_breakdown(m, 2, a / 2);
    }
}

/// A machine word is a power of two exactly when it is non-zero and shares
/// no bit with its predecessor.
pub proof fn lemma_pow2_single_bit(a: usize)
    ensures
        is_pow2(a as int) <==> (a != 0 && a & ((a - 1) as usize) == 0),
    decreases a,
{
    reveal(is_pow2);
    if a == 0 {
    } else if a == 1 {
        assert(1usize & 0usize == 0) by (bit_vector);
    } else {
        let h: usize = a / 2;
        lemma_pow2_single_bit(h);
        assert((a & ((a - 1) as usize) == 0) <==> (a % 2 == 0 && h & ((h - 1) as usize) == 0))
            by (bit_vector)
            requires
                a > 1,
                h == a / 2,
        ;
    }
}

/// The bits of `x` below a power of two are the remainder of `x` by it.
pub proof fn lemma_low_bits_are_remainder(x: usize, a: usize)
    requires
        is_pow2(a as int),
    ensures
        x & ((a - 1) as usize) == x % a,
    decreases a,
{
    reveal(is_pow2);
    if a == 1 {
        assert(x & 0usize == 0) by (bit_vector);
    } else {
        let h: usize = a / 2;
        let y: usize = x / 2;
        lemma_low_bits_are_remainder(y, h);
        assert(x & ((a - 1) as usize) == 2 * (y & ((h - 1) as usize)) + x % 2) by (bit_vector)
            requires
                h >= 1,
                a == 2 * h,
                y == x / 2,
        ;
        lemma_mod_breakdown(x as int, 2, h as int);
    }
}

/// Clearing the bits below a power of two rounds down to a multiple of it.
pub proof fn lemma_mask_rounds_down(addr: usize, align: usize)
    requires
        is_pow2(align as int),
    ensures
        addr & !((align - 1) as usize) == round_down(addr as int, align as int),
{
    reveal(is_pow2);
    let mask: usize = (align - 1) as usize;
    lemma_low_bits_are_remainder(addr, align);
    assert(addr & !mask == addr - (addr & mask)) by (bit_vector);
}

/// The number of values of a machine word is a power of two.
proof fn lemma_word_range_is_pow2()
    ensures
        is_pow2(usize::MAX + 1),
{
    let bits: nat = usize::BITS as nat;
    unsigned_int_max_values();
    lemma_pow2(bits);
    assert(pow(2, bits) == usize::MAX + 1);
    is_pow2_equiv(usize::MAX + 1);
}

/// Rounding up leaves the range of a machine word exactly when adding the
/// mask does.
pub proof fn lemma_round_up_overflow(addr: usize, align: usize)
    requires
        is_pow2(align as int),
    ensures
        addr + (align - 1) > usize::MAX <==> round_up(addr as int, align as int) > usize::MAX,
{
    reveal(is_pow2);
    let a: int = align as int;
    let y: int = addr + a - 1;
    let m: int = usize::MAX + 1;
    lemma_round_down_bounds(y, a);
    if y >= m {
        // The range of a word is a multiple of `align`, so `y` rounds down to it.
        lemma_word_range_is_pow2();
        lemma_pow2_divides(a, m);
        let q: int = m / a;
        lemma_fundamental_div_mod(m, a);
        assert(a * q == q * a) by (nonlinear_arith);
        lemma_fundamental_div_mod_converse(y, a, q, y - m);
    }
}

/// Tells whether `a` is a power of two.
pub fn is_power_of_two(a: usize) -> (b: bool)
    ensures
        b == is_pow2(a as int),
{
    proof {
        lemma_pow2_single_bit(a);
    }
    a != 0 && a & (a - 1) == 0
}

/// Rounds `addr` down to a multiple of the power of two `align`.
pub fn align_down(addr: usize, align: usize) -> (r: usize)
    requires
        is_pow2(align as int),
    ensures
        r == round_down(addr as int, align as int),
        r % align == 0,
        r <= addr < r + align,
{
    proof {
        reveal(is_pow2);
        lemma_mask_rounds_down(addr, align);
        lemma_round_down_bounds(addr as int, align as int);
    }
    let mask: usize = align - 1;
    addr & !mask
}

/// Rounds `addr` up to a multiple of the power of two `align`, or gives
/// `None` where that multiple does not fit in a machine word.
pub fn align_up(addr: usize, align: usize) -> (r: Option<usize>)
    requires
        is_pow2(align as int),
    ensures
        r is Some <==> round_up(addr as int, align as int) <= usize::MAX,
        r matches Some(v) ==> {
            &&& v == round_up(addr as int, align as int)
            &&& v % align == 0
            &&& addr <= v < addr + align
        },
{
    proof {
        reveal(is_pow2);
        lemma_round_up_overflow(addr, align);
        lemma_round_up_bounds(addr as int, align as int);
    }
    let mask: usize = align - 1;
    match addr.checked_add(mask) {
        Some(sum) => {
            proof {
                lemma_mask_rounds_down(sum, align);
            }
            Some(sum & !mask)
        },
        None => None,
    }
}

} // verus!
