//! Powers of two, and rounding up to a multiple of one.

use vstd::arithmetic::power2;
use vstd::prelude::*;

verus! {

pub fn is_power_of_two(n: u64) -> (r: bool)
    ensures
        r == power2::is_pow2(n as int),
    decreases n,
{
    reveal(power2::is_pow2);
    if n == 0 {
        false
    } else if n == 1 {
        true
    } else {
        n % 2 == 0 && is_power_of_two(n / 2)
    }
}

/// Clearing the bits below `align` in `n + align - 1`.
pub open spec fn rounded(n: usize, align: usize) -> usize {
    ((n + align - 1) as usize) & !((align - 1) as usize)
}

/// Rounds `n` up to a multiple of `align`, if that is a power of two.
pub fn round_up(n: usize, align: usize) -> (r: usize)
    requires
        align > 0,
        n + align - 1 <= usize::MAX,
    ensures
        r == rounded(n, align),
        r <= n + align - 1,
        power2::is_pow2(align as int) ==> n <= r && r % align == 0,
{
    let up: usize = n + (align - 1);
    let mask: usize = align - 1;
    proof {
        assert((up & !mask) + (up & mask) == up && up & mask <= up && up & !mask <= up)
            by (bit_vector);
        if power2::is_pow2(align as int) {
            lemma_mask_is_mod(up, align);
            vstd::arithmetic::div_mod::lemma_fundamental_div_mod(up as int, align as int);
            let q = up as int / align as int;
            assert((align * q) % (align as int) == 0) by {
                vstd::arithmetic::div_mod::lemma_mod_multiples_basic(q, align as int);
                assert(align * q == q * align) by (nonlinear_arith);
            }
        }
    }
    up & !mask
}

/// Below a power of two, masking and taking the remainder are the same.
proof fn lemma_mask_is_mod(x: usize, a: usize)
    requires
        power2::is_pow2(a as int),
    ensures
        a > 0,
        x & ((a - 1) as usize) == x % a,
    decreases a,
{
    reveal(power2::is_pow2);
    if a == 1 {
        assert(x & 0 == 0) by (bit_vector);
    } else {
        let b: usize = a / 2;
        let (hi, m, mb): (usize, usize, usize) = (x / 2, (a - 1) as usize, (b - 1) as usize);
        lemma_mask_is_mod(hi, b);
        assert(x & m == 2 * (hi & mb) + x % 2) by (bit_vector)
            requires
                a > 1,
                a % 2 == 0,
                b == a / 2,
                hi == x / 2,
                m == a - 1,
                mb == b - 1,
        ;
        vstd::arithmetic::div_mod::lemma_mod_breakdown(x as int, 2, b as int);
        assert(hi & mb <= hi) by (bit_vector);
    }
}

/// Rounding up to a power of two gives the smallest multiple that is not below the number.
pub proof fn rounded_is_least_multiple(n: usize, align: usize, m: int)
    requires
        power2::is_pow2(align as int),
        n + align - 1 <= usize::MAX,
        m % align as int == 0,
        n <= m,
    ensures
        n <= rounded(n, align) <= m,
        rounded(n, align) % align == 0,
{
    reveal(power2::is_pow2);
    let up: usize = (n + align - 1) as usize;
    let mask: usize = (align - 1) as usize;
    assert((up & !mask) + (up & mask) == up && up & mask <= up) by (bit_vector);
    lemma_mask_is_mod(up, align);
    let (a, x) = (align as int, up as int);
    vstd::arithmetic::div_mod::lemma_fundamental_div_mod(x, a);
    vstd::arithmetic::div_mod::lemma_fundamental_div_mod(m, a);
    let (q, p) = (x / a, m / a);
    assert(q <= p) by (nonlinear_arith)
        requires
            x == a * q + x % a,
            0 <= x % a < a,
            m == a * p,
            x - a < m,
            a > 0,
    ;
    assert(a * q <= a * p) by (nonlinear_arith)
        requires
            q <= p,
            a > 0,
    ;
    assert((a * q) % a == 0) by {
        vstd::arithmetic::div_mod::lemma_mod_multiples_basic(q, a);
        assert(a * q == q * a) by (nonlinear_arith);
    }
}

/// `n` rounded up to a multiple of `align`.
pub open spec fn padded_len(n: nat, align: nat) -> nat {
    ((n + align - 1) / align as int * align) as nat
}

/// Clearing the low bits rounds up to a multiple, if `align` is a power of two.
pub proof fn rounded_is_padded_len(n: usize, align: usize)
    requires
        power2::is_pow2(align as int),
        n + align - 1 <= usize::MAX,
    ensures
        rounded(n, align) == padded_len(n as nat, align as nat),
{
    reveal(power2::is_pow2);
    let up: usize = (n + align - 1) as usize;
    let mask: usize = (align - 1) as usize;
    assert((up & !mask) + (up & mask) == up) by (bit_vector);
    lemma_mask_is_mod(up, align);
    let (a, x) = (align as int, up as int);
    vstd::arithmetic::div_mod::lemma_fundamental_div_mod(x, a);
    assert(a * (x / a) == x / a * a) by (nonlinear_arith);
}

/// Rounding up reaches the number by less than `align`, and leaves multiples alone.
pub proof fn lemma_padded_len(n: nat, align: nat)
    requires
        align > 0,
    ensures
        n <= padded_len(n, align) < n + align,
        padded_len(n, align) % align == 0,
        n % align == 0 ==> padded_len(n, align) == n,
{
    let (a, x) = (align as int, n + align - 1);
    let q = x / a;
    vstd::arithmetic::div_mod::lemma_fundamental_div_mod(x, a);
    assert(a * q == q * a) by (nonlinear_arith);
    assert(q * a >= 0) by (nonlinear_arith)
        requires
            q == x / a,
            x >= 0,
            a > 0,
    ;
    vstd::arithmetic::div_mod::lemma_mod_multiples_basic(q, a);
    if n % align == 0 {
        let p = n as int / a;
        vstd::arithmetic::div_mod::lemma_fundamental_div_mod(n as int, a);
        assert(q == p) by (nonlinear_arith)
            requires
                n as int == a * p,
                x == n + a - 1,
                x == a * q + x % a,
                0 <= x % a < a,
                a > 0,
        ;
    }
}

} // verus!
