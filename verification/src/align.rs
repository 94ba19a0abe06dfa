//! Powers of two and rounding up to a multiple of one.

use vstd::prelude::*;
use vstd::arithmetic::power2::is_pow2;
use vstd::arithmetic::power2::is_pow2_equiv;
use vstd::arithmetic::power2::is_pow2_exists;
use vstd::arithmetic::power2::lemma2_to64;
use vstd::arithmetic::power2::lemma_pow2;
use vstd::arithmetic::div_mod::lemma_fundamental_div_mod;
use vstd::arithmetic::div_mod::lemma_fundamental_div_mod_converse_mod;
use vstd::arithmetic::div_mod::lemma_mod_bound;
use vstd::arithmetic::div_mod::lemma_mod_multiples_basic;

verus! {

/// `x` rounded up to a multiple of `align`: the least multiple of `align`
/// that is not below `x`. Meant for a positive `align`.
pub open spec fn round_up(x: int, align: int) -> int {
    ((x + align - 1) / align) * align
}

/// `round_up(x, align)` is a multiple of `align` in `[x, x + align)`.
pub proof fn lemma_round_up_bounds(x: int, align: int)
    requires
        align > 0,
    ensures
        round_up(x, align) % align == 0,
        x <= round_up(x, align) < x + align,
{
    let s = x + align - 1;
    lemma_fundamental_div_mod(s, align);
    lemma_mod_bound(s, align);
    lemma_mod_multiples_basic(s / align, align);
    assert((s / align) * align == align * (s / align)) by (nonlinear_arith);
}

/// The only multiple of `align` in `[x, x + align)` is `round_up(x, align)`.
pub proof fn lemma_round_up_unique(x: int, align: int, m: int)
    requires
        align > 0,
        m % align == 0,
        x <= m < x + align,
    ensures
        m == round_up(x, align),
{
    let r = round_up(x, align);
    lemma_round_up_bounds(x, align);
    lemma_fundamental_div_mod(m, align);
    lemma_fundamental_div_mod(r, align);
    let km = m / align;
    let kr = r / align;
    assert(km == kr) by (nonlinear_arith)
        requires
            align > 0,
            -align < align * km - align * kr < align,
    ;
}

/// Among the multiples of `align` that are not below `x`, `round_up(x, align)`
/// is the least.
pub proof fn lemma_round_up_least(x: int, align: int, m: int)
    requires
        align > 0,
        m % align == 0,
        x <= m,
    ensures
        round_up(x, align) <= m,
{
    if m < x + align {
        lemma_round_up_unique(x, align, m);
    } else {
        lemma_round_up_bounds(x, align);
    }
}

/// The bit test for a power of two agrees with `is_pow2`.
proof fn lemma_is_pow2_bits(n: usize)
    ensures
        is_pow2(n as int) <==> (n != 0 && n & ((n - 1) as usize) == 0),
    decreases n,
{
    reveal(is_pow2);
    if n == 1 {
        assert(1usize & ((1usize - 1) as usize) == 0) by (bit_vector);
    } else if n > 1 {
        let h: usize = n / 2;
        lemma_is_pow2_bits(h);
        assert((n & ((n - 1) as usize) == 0) <==> (n % 2 == 0 && h != 0 && h & ((h - 1) as usize) == 0))
            by (bit_vector)
            requires
                n > 1,
                h == n / 2,
        ;
    }
}

/// Whether `n` is a power of two.
pub fn is_power_of_two(n: usize) -> (r: bool)
    ensures
        r == is_pow2(n as int),
{
    proof {
        lemma_is_pow2_bits(n);
    }
    n != 0 && (n & (n - 1)) == 0
}

/// Masking with a power of two less one takes the remainder.
proof fn lemma_mask_is_mod(v: usize, a: usize)
    requires
        is_pow2(a as int),
    ensures
        v & ((a - 1) as usize) == v % a,
    decreases a,
{
    reveal(is_pow2);
    if a == 1 {
        assert(v & ((1usize - 1) as usize) == 0) by (bit_vector);
    } else {
        let h: usize = a / 2;
        let w: usize = v / 2;
        lemma_mask_is_mod(w, h);
        assert(v & ((a - 1) as usize) == 2 * (w & ((h - 1) as usize)) + v % 2) by (bit_vector)
            requires
                a > 1,
                a % 2 == 0,
                h == a / 2,
                w == v / 2,
        ;
        let q = (w / h) as int;
        let r = (w % h) as int;
        lemma_fundamental_div_mod(w as int, h as int);
        lemma_mod_bound(w as int, h as int);
        assert(v == q * a + (2 * r + v % 2)) by (nonlinear_arith)
            requires
                w == h * q + r,
                a == 2 * h,
                v == 2 * w + v % 2,
        ;
        lemma_fundamental_div_mod_converse_mod(v as int, a as int, q, 2 * r + v % 2);
    }
}

/// Of two powers of two, the smaller divides the larger.
proof fn lemma_pow2_divides(a: int, n: int)
    requires
        is_pow2(a),
        is_pow2(n),
        a <= n,
    ensures
        n % a == 0,
    decreases a,
{
    reveal(is_pow2);
    if a > 1 {
        lemma_pow2_divides(a / 2, n / 2);
        lemma_fundamental_div_mod(n / 2, a / 2);
        let k = (n / 2) / (a / 2);
        assert(n == k * a) by (nonlinear_arith)
            requires
                n == 2 * (n / 2),
                a == 2 * (a / 2),
                n / 2 == (a / 2) * k,
        ;
        lemma_mod_multiples_basic(k, a);
    }
}

/// A power of two that fits `usize` divides the number of `usize` values.
proof fn lemma_pow2_divides_range(a: usize)
    requires
        is_pow2(a as int),
    ensures
        (usize::MAX + 1) % (a as int) == 0,
{
    let n: int = usize::MAX + 1;
    assert(n == 0x1_0000_0000 || n == 0x1_0000_0000_0000_0000);
    assert(is_pow2(n)) by {
        lemma2_to64();
        lemma_pow2(32);
        lemma_pow2(64);
        assert(is_pow2_exists(n));
        is_pow2_equiv(n);
    }
    lemma_pow2_divides(a as int, n);
}

/// `pos` rounded up to a multiple of the power of two `align`, or `None`
/// where that multiple is beyond `usize::MAX`.
pub fn align_up(pos: usize, align: usize) -> (r: Option<usize>)
    requires
        is_pow2(align as int),
    ensures
        r == (if round_up(pos as int, align as int) <= usize::MAX {
            Some(round_up(pos as int, align as int) as usize)
        } else {
            None
        }),
{
    proof {
        lemma_is_pow2_bits(align);
    }
    let mask: usize = align - 1;
    match pos.checked_add(mask) {
        Some(s) => {
            let r: usize = s & !mask;
            proof {
                assert(r == s - (s & mask)) by (bit_vector)
                    requires
                        r == s & !mask,
                ;
                lemma_mask_is_mod(s, align);
                lemma_fundamental_div_mod(s as int, align as int);
                assert((s as int / align as int) * align == align * (s as int / align as int))
                    by (nonlinear_arith);
            }
            Some(r)
        },
        None => {
            proof {
                lemma_pow2_divides_range(align);
                lemma_round_up_unique(pos as int, align as int, usize::MAX + 1);
            }
            None
        },
    }
}

} // verus!
