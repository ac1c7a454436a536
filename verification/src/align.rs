//! Alignment arithmetic: rounding an address up to a power-of-two boundary.

use vstd::prelude::*;

verus! {

use vstd::arithmetic::div_mod::{
    lemma_fundamental_div_mod,
    lemma_mod_bound,
    lemma_mod_multiples_basic,
};
use vstd::arithmetic::power::{lemma_pow_positive, pow};
use vstd::arithmetic::power2::{
    is_pow2,
    is_pow2_equiv,
    lemma_pow2_adds,
    lemma_pow2_pos,
    lemma_pow2_strictly_increases,
    pow2,
};
use vstd::bits::{low_bits_mask, lemma_usize_low_bits_mask_is_mod};
use vstd::layout::unsigned_int_max_values;

/// The least multiple of `align` that is at least `addr` (for `align > 0`).
pub open spec fn spec_align_up(addr: int, align: int) -> int
    recommends
        align > 0,
{
    ((addr + align - 1) / align) * align
}

/// Rounding up lands on a multiple of `align`, never moves backward, and
/// moves forward by less than one whole alignment step.
pub proof fn lemma_align_up_bounds(addr: int, align: int)
    requires
        align > 0,
        addr >= 0,
    ensures
        spec_align_up(addr, align) % align == 0,
        addr <= spec_align_up(addr, align),
        spec_align_up(addr, align) < addr + align,
{
    let x = addr + align - 1;
    let q = x / align;
    lemma_fundamental_div_mod(x, align);
    lemma_mod_bound(x, align);
    lemma_mod_multiples_basic(q, align);
    assert(spec_align_up(addr, align) == x - x % align);
}

/// The classic bit test `n != 0 && n & (n - 1) == 0` holds exactly of the
/// powers of two.
pub proof fn lemma_pow2_mask_equiv(n: usize)
    ensures
        is_pow2(n as int) <==> (n != 0 && n & ((n - 1) as usize) == 0),
    decreases n,
{
    reveal(is_pow2);
    if n == 0 {
    } else if n == 1 {
        assert(1usize & 0usize == 0) by (bit_vector);
    } else if n % 2 != 0 {
        let m: usize = (n - 1) as usize;
        assert(n & m != 0) by (bit_vector)
            requires
                n % 2 == 1,
                n > 1,
                m == n - 1,
        ;
    } else {
        let h: usize = n / 2;
        lemma_pow2_mask_equiv(h);
        let m: usize = (n - 1) as usize;
        let k: usize = (h - 1) as usize;
        assert((n & m == 0) <==> (h & k == 0)) by (bit_vector)
            requires
                n % 2 == 0,
                n > 1,
                h == n / 2,
                m == n - 1,
                k == h - 1,
        ;
    }
}

/// A power of two that fits in a `usize` is `pow2(k)` for an exponent `k`
/// below the word width.
pub proof fn lemma_pow2_exponent(align: usize) -> (k: nat)
    requires
        is_pow2(align as int),
    ensures
        pow2(k) == align,
        k < usize::BITS,
{
    is_pow2_equiv(align as int);
    let k = choose|i: nat| pow(2, i) == align as int;
    lemma_pow_positive(2, k);
    unsigned_int_max_values();
    if k >= usize::BITS {
        if (usize::BITS as nat) < k {
            lemma_pow2_strictly_increases(usize::BITS as nat, k);
        }
        assert(false);
    }
    k
}

/// Clearing the low bits of a power-of-two alignment rounds an address down
/// to the previous multiple: `x & !(align - 1) == x - x % align`.
pub proof fn lemma_mask_round_down(x: usize, align: usize, mask: usize)
    requires
        is_pow2(align as int),
        mask == align - 1,
    ensures
        x & !mask == x - x % align,
{
    let k = lemma_pow2_exponent(align);
    lemma_pow2_pos(k);
    lemma_usize_low_bits_mask_is_mod(x, k);
    assert(low_bits_mask(k) == mask);
    assert(x == (x & mask) + (x & !mask)) by (bit_vector);
}

/// An address within one alignment step of the top of the address space has
/// no aligned successor that fits in a `usize`: rounding it up leaves the
/// address space entirely.
pub proof fn lemma_align_up_overflows(addr: usize, align: usize)
    requires
        is_pow2(align as int),
        addr + align - 1 > usize::MAX,
    ensures
        spec_align_up(addr as int, align as int) > usize::MAX,
{
    let k = lemma_pow2_exponent(align);
    lemma_pow2_pos(k);
    lemma_align_up_bounds(addr as int, align as int);
    let r = spec_align_up(addr as int, align as int);
    if r <= usize::MAX {
        unsigned_int_max_values();
        let bits = usize::BITS as nat;
        lemma_pow2_adds(k, (bits - k) as nat);
        let n = pow2(bits) as int;
        let qn = pow2((bits - k) as nat) as int;
        lemma_fundamental_div_mod(r, align as int);
        let qr = r / (align as int);
        assert(n - r == align as int * (qn - qr)) by (nonlinear_arith)
            requires
                n == align as int * qn,
                r == align as int * qr,
        ;
        assert(false) by (nonlinear_arith)
            requires
                0 < align as int * (qn - qr) < align as int,
                align as int > 0,
        ;
    }
}

/// Rounds `addr` up to the next multiple of `align` with the power-of-two
/// mask trick.
pub fn align_up(addr: usize, align: usize) -> (r: usize)
    requires
        is_pow2(align as int),
        addr + align - 1 <= usize::MAX,
    ensures
        r == spec_align_up(addr as int, align as int),
{
    proof {
        reveal(is_pow2);
    }
    let mask: usize = align - 1;
    let bumped: usize = addr + mask;
    let r: usize = bumped & !mask;
    proof {
        lemma_mask_round_down(bumped, align, mask);
        lemma_fundamental_div_mod(bumped as int, align as int);
        assert(r == bumped - (bumped as int % align as int));
        assert(bumped as int == addr + align - 1);
        assert(r == (align as int) * ((bumped as int) / (align as int)));
        assert(r == spec_align_up(addr as int, align as int));
    }
    r
}

} // verus!
