//! Sizes for people: a byte count in the largest binary unit that it reaches.
//!
//! The value shown is that of the double-precision quotient to two decimals. Counts above
//! 2^53 first lose the bits that a double has no room for; from there on everything is exact.

use vstd::prelude::*;

use crate::numbers;

verus! {

pub const GIB: u64 = 1_073_741_824;

pub const MIB: u64 = 1_048_576;

pub const KIB: u64 = 1_024;

/// The last integer up to which a double holds every integer.
pub const DOUBLE_RANGE: u64 = 9_007_199_254_740_992;

/// `n / d` to the nearest integer; halfway between two, the even one.
pub open spec fn nearest(n: nat, d: nat) -> nat {
    if 2 * (n % d) > d || (2 * (n % d) == d && (n / d) % 2 == 1) {
        n / d + 1
    } else {
        n / d
    }
}

/// The distance between neighbouring doubles around `n`.
pub open spec fn double_step(n: nat) -> nat
    decreases n,
{
    if n < DOUBLE_RANGE {
        1
    } else {
        2 * double_step(n / 2)
    }
}

/// The double nearest to `n`.
pub open spec fn as_double(n: nat) -> nat {
    nearest(n, double_step(n)) * double_step(n)
}

/// `n` in units of `unit`, with two decimals.
pub open spec fn in_units(n: nat, unit: nat) -> Seq<char> {
    let hundredths = nearest(as_double(n) * 100, unit);
    numbers::decimal(hundredths / 100) + "."@ + numbers::two_digits(hundredths % 100)
}

pub open spec fn human(n: nat) -> Seq<char> {
    if n >= GIB {
        in_units(n, GIB as nat) + " GiB"@
    } else if n >= MIB {
        in_units(n, MIB as nat) + " MiB"@
    } else if n >= KIB {
        in_units(n, KIB as nat) + " KiB"@
    } else {
        numbers::decimal(n) + " B"@
    }
}

fn round_div(n: u128, d: u128) -> (r: u128)
    requires
        0 < d <= 0x1_0000_0000_0000_0000,
        n <= 0x100_0000_0000_0000_0000,
    ensures
        r == nearest(n as nat, d as nat),
{
    let q: u128 = n / d;
    let m: u128 = n % d;
    assert(q <= n) by (nonlinear_arith)
        requires
            q == n / d,
            d > 0,
            n >= 0,
    ;
    if 2 * m > d || (2 * m == d && q % 2 == 1) {
        q + 1
    } else {
        q
    }
}

fn step_of(n: u64) -> (d: u64)
    ensures
        d == double_step(n as nat),
        1 <= d,
        n >= DOUBLE_RANGE ==> d <= n / 4_503_599_627_370_496,
        n < DOUBLE_RANGE ==> d == 1,
    decreases n,
{
    if n < DOUBLE_RANGE {
        1
    } else {
        let half = step_of(n / 2);
        2 * half
    }
}

proof fn lemma_double_bound(n: nat, d: nat)
    requires
        d >= 1,
        d <= n || d == 1,
    ensures
        nearest(n, d) * d <= n + d,
{
    let (q, m) = (n as int / d as int, n as int % d as int);
    vstd::arithmetic::div_mod::lemma_fundamental_div_mod(n as int, d as int);
    assert((q + 1) * d == d * q + d && q * d == d * q) by (nonlinear_arith);
}

fn units_text(n: u64, unit: u64) -> (r: String)
    requires
        KIB <= unit <= GIB,
    ensures
        r@ == in_units(n as nat, unit as nat),
{
    let step = step_of(n);
    let count: u128 = round_div(n as u128, step as u128);
    proof {
        lemma_double_bound(n as nat, step as nat);
    }
    assert(count * step <= 0x2_0000_0000_0000_0000);
    let double: u128 = count * step as u128;
    let hundredths: u128 = round_div(double * 100, unit as u128);
    proof {
        let h = double * 100;
        assert(h / unit as int <= h / 1024) by (nonlinear_arith)
            requires
                unit >= 1024,
                h >= 0,
        ;
    }
    let mut s = numbers::decimal_text((hundredths / 100) as u64);
    s.append(".");
    s.append(numbers::two_digit_text((hundredths % 100) as u64).as_str());
    assert(s@ =~= in_units(n as nat, unit as nat));
    s
}

/// A byte count in GiB, MiB or KiB with two decimals, or in plain bytes below 1 KiB.
pub fn human_bytes(bytes: u64) -> (r: String)
    ensures
        r@ == human(bytes as nat),
{
    let mut s = String::new();
    if bytes >= GIB {
        s.append(units_text(bytes, GIB).as_str());
        s.append(" GiB");
    } else if bytes >= MIB {
        s.append(units_text(bytes, MIB).as_str());
        s.append(" MiB");
    } else if bytes >= KIB {
        s.append(units_text(bytes, KIB).as_str());
        s.append(" KiB");
    } else {
        s.append(numbers::decimal_text(bytes).as_str());
        s.append(" B");
    }
    assert(s@ =~= human(bytes as nat));
    s
}

/// A count that a double holds is shown to within half a hundredth of its unit.
pub proof fn shown_to_half_a_hundredth(n: nat, unit: nat)
    requires
        n < DOUBLE_RANGE,
        unit > 0,
    ensures
        as_double(n) == n,
        -(unit as int) <= 2 * (nearest(n * 100, unit) * unit - n * 100) <= unit,
{
    assert(double_step(n) == 1);
    assert(nearest(n, 1) == n);
    assert(nearest(n, 1) * 1 == n);
    let x = (n * 100) as int;
    let u = unit as int;
    vstd::arithmetic::div_mod::lemma_fundamental_div_mod(x, u);
    let q = x / u;
    assert((q + 1) * u == u * q + u && q * u == u * q) by (nonlinear_arith);
}

} // verus!
