//! From `REAL` to `LREAL`, on the bits of their IEEE 754 encodings.
use vstd::arithmetic::power2::{lemma_pow2_adds, lemma_pow2_unfold, pow2};
use vstd::prelude::*;

use crate::models::{Lreal, Real};

verus! {

/// The bits that are left of a magnitude `f` below 2^24 and an exponent field `e`, once the
/// magnitude is doubled, and the exponent field lowered, until its bit 23 is set.
pub open spec fn normalised(f: int, e: int) -> int
    decreases 0x100_0000 - f,
    when 0 < f
{
    if f >= 0x80_0000 {
        e * 0x10_0000_0000_0000 + (f - 0x80_0000) * 0x2000_0000
    } else {
        normalised(2 * f, e - 1)
    }
}

/// The `LREAL` of the same value. A NaN keeps its payload and is made quiet.
pub open spec fn widened(x: Real) -> Lreal {
    let sign = (x.0 / 0x8000_0000) * 0x8000_0000_0000_0000int;
    let exponent = ((x.0 / 0x80_0000) % 0x100) as int;
    let fraction = (x.0 % 0x80_0000) as int;
    if exponent == 0xFF && fraction == 0 {
        Lreal((sign + 0x7FF0_0000_0000_0000) as u64)
    } else if exponent == 0xFF {
        let quiet = if fraction < 0x40_0000 { fraction + 0x40_0000 } else { fraction };
        Lreal((sign + 0x7FF0_0000_0000_0000 + quiet * 0x2000_0000) as u64)
    } else if exponent != 0 {
        Lreal((sign + (exponent + 896) * 0x10_0000_0000_0000 + fraction * 0x2000_0000) as u64)
    } else if fraction == 0 {
        Lreal(sign as u64)
    } else {
        Lreal((sign + normalised(fraction, 897)) as u64)
    }
}

/// Widens a `REAL`.
pub fn widen(x: Real) -> (r: Lreal)
    ensures
        r == widened(x),
{
    let sign: u64 = (x.0 / 0x8000_0000) as u64 * 0x8000_0000_0000_0000;
    let exponent: u64 = ((x.0 / 0x80_0000) % 0x100) as u64;
    let fraction: u64 = (x.0 % 0x80_0000) as u64;
    if exponent == 0xFF && fraction == 0 {
        return Lreal(sign + 0x7FF0_0000_0000_0000);
    }
    if exponent == 0xFF {
        let quiet: u64 = if fraction < 0x40_0000 {
            fraction + 0x40_0000
        } else {
            fraction
        };
        return Lreal(sign + 0x7FF0_0000_0000_0000 + quiet * 0x2000_0000);
    }
    if exponent != 0 {
        return Lreal(sign + (exponent + 896) * 0x10_0000_0000_0000 + fraction * 0x2000_0000);
    }
    if fraction == 0 {
        return Lreal(sign);
    }
    let mut f: u64 = fraction;
    let mut e: u64 = 897;
    let mut k: u64 = 0;
    proof {
        vstd::arithmetic::power2::lemma2_to64();
    }
    while f < 0x80_0000
        invariant
            0 < f < 0x100_0000,
            k <= 23,
            e == 897 - k,
            pow2(k as nat) <= f,
            normalised(f as int, e as int) == normalised(fraction as int, 897),
        decreases 0x100_0000 - f,
    {
        proof {
            vstd::arithmetic::power2::lemma2_to64();
            lemma_pow2_unfold((k + 1) as nat);
        }
        f = 2 * f;
        e = e - 1;
        k = k + 1;
    }
    Lreal(sign + e * 0x10_0000_0000_0000 + (f - 0x80_0000) * 0x2000_0000)
}

/// The magnitude of a finite `REAL`, in units of the smallest `LREAL` above zero.
pub open spec fn real_units(x: Real) -> int {
    let exponent = (x.0 / 0x80_0000) % 0x100;
    let fraction = (x.0 % 0x80_0000) as int;
    if exponent == 0 {
        fraction * pow2(925)
    } else {
        (0x80_0000 + fraction) * pow2((exponent + 924) as nat)
    }
}

/// The magnitude of a finite `LREAL`, in units of the smallest one above zero.
pub open spec fn lreal_units(x: Lreal) -> int {
    let exponent = (x.0 / 0x10_0000_0000_0000) % 0x800;
    let fraction = (x.0 % 0x10_0000_0000_0000) as int;
    if exponent == 0 {
        fraction
    } else {
        (0x10_0000_0000_0000 + fraction) * pow2((exponent - 1) as nat)
    }
}

/// Normalising keeps the product of the magnitude and the power of two.
proof fn lemma_normalised(f: int, k: nat)
    requires
        pow2(k) <= f < 0x100_0000,
        k <= 23,
    ensures
        ({
            let n = normalised(f, 897 - k);
            let e = n / 0x10_0000_0000_0000;
            &&& 0 < n < 0x7FF0_0000_0000_0000
            &&& 874 <= e <= 897
            &&& (0x10_0000_0000_0000 + n % 0x10_0000_0000_0000) * pow2((e - 1) as nat) == f * pow2((925 - k) as nat)
        }),
    decreases 24 - k,
{
    vstd::arithmetic::power2::lemma2_to64();
    if f >= 0x80_0000 {
        let e = 897 - k;
        let n = e * 0x10_0000_0000_0000 + (f - 0x80_0000) * 0x2000_0000;
        assert(n / 0x10_0000_0000_0000 == e);
        assert(n % 0x10_0000_0000_0000 == (f - 0x80_0000) * 0x2000_0000);
        lemma_pow2_adds(29, (e - 1) as nat);
        assert(pow2(29) == 0x2000_0000);
        let p = pow2((e - 1) as nat) as int;
        assert((f * 0x2000_0000) * p == f * (0x2000_0000 * p)) by (nonlinear_arith);
    } else {
        lemma_pow2_unfold((k + 1) as nat);
        if k == 23 {
            assert(false);
        }
        lemma_normalised(2 * f, k + 1);
        lemma_pow2_unfold((925 - k) as nat);
        let p = pow2((924 - k) as nat) as int;
        assert((2 * f) * p == f * (2 * p)) by (nonlinear_arith);
    }
}

/// Widening keeps the value: the sign, and of finite numbers the magnitude. What is not finite
/// stays so.
pub proof fn law_widening_keeps_the_value(x: Real)
    ensures
        widened(x).finite() == x.finite(),
        widened(x).0 / 0x8000_0000_0000_0000 == x.0 / 0x8000_0000,
        x.finite() ==> lreal_units(widened(x)) == real_units(x),
{
    let sign = (x.0 / 0x8000_0000) as int;
    let exponent = ((x.0 / 0x80_0000) % 0x100) as int;
    let fraction = (x.0 % 0x80_0000) as int;
    vstd::arithmetic::power2::lemma2_to64();
    if exponent != 0xFF {
        if exponent != 0 {
            let e = exponent + 896;
            let n = e * 0x10_0000_0000_0000 + fraction * 0x2000_0000;
            lemma_fields(sign, n);
            assert(n / 0x10_0000_0000_0000 == e);
            assert(n % 0x10_0000_0000_0000 == fraction * 0x2000_0000);
            lemma_pow2_adds(29, (e - 1) as nat);
            let m = 0x80_0000 + fraction;
            let p = pow2((e - 1) as nat) as int;
            assert((m * 0x2000_0000) * p == m * (0x2000_0000 * p)) by (nonlinear_arith);
        } else if fraction == 0 {
            lemma_fields(sign, 0);
            assert(0 * pow2(925) == 0);
        } else {
            lemma_normalised(fraction, 0);
            lemma_fields(sign, normalised(fraction, 897));
        }
    } else if fraction == 0 {
        lemma_fields(sign, 0x7FF0_0000_0000_0000);
    } else {
        let quiet = if fraction < 0x40_0000 { fraction + 0x40_0000 } else { fraction };
        lemma_fields(sign, 0x7FF0_0000_0000_0000 + quiet * 0x2000_0000);
    }
}

/// A sign bit on top of 63 bits leaves them as they are.
proof fn lemma_fields(sign: int, n: int)
    requires
        0 <= sign <= 1,
        0 <= n < 0x8000_0000_0000_0000,
    ensures
        ({
            let x = (sign * 0x8000_0000_0000_0000 + n) as u64;
            &&& x / 0x8000_0000_0000_0000 == sign
            &&& (x / 0x10_0000_0000_0000) % 0x800 == n / 0x10_0000_0000_0000
            &&& x % 0x10_0000_0000_0000 == n % 0x10_0000_0000_0000
        }),
{
}

} // verus!
