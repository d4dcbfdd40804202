//! Integer helpers: square root, powers of ten, and overflow-checked
//! wide arithmetic. All results are exact; nothing is approximated.

use vstd::prelude::*;

verus! {

/// `r` is the integer square root of `n`.
pub open spec fn is_isqrt(n: int, r: int) -> bool {
    &&& r >= 0
    &&& r * r <= n
    &&& n < (r + 1) * (r + 1)
}

/// The integer square root of `n`, as a mathematical function.
pub open spec fn spec_isqrt(n: int) -> int
    decreases n,
{
    if n < 1 {
        0
    } else {
        let r = spec_isqrt(n - 1);
        if (r + 1) * (r + 1) <= n {
            r + 1
        } else {
            r
        }
    }
}

/// `spec_isqrt` satisfies the square-root characterization.
pub proof fn lemma_spec_isqrt(n: int)
    requires
        n >= 0,
    ensures
        is_isqrt(n, spec_isqrt(n)),
    decreases n,
{
    if n == 0 {
    } else {
        lemma_spec_isqrt(n - 1);
        let r = spec_isqrt(n - 1);
        if (r + 1) * (r + 1) <= n {
            assert((r + 2) * (r + 2) > (r + 1) * (r + 1)) by (nonlinear_arith)
                requires
                    r >= 0,
            ;
        }
    }
}

/// Two integer square roots of the same value coincide.
pub proof fn lemma_isqrt_unique(n: int, r1: int, r2: int)
    requires
        is_isqrt(n, r1),
        is_isqrt(n, r2),
    ensures
        r1 == r2,
{
    if r1 < r2 {
        assert((r1 + 1) * (r1 + 1) <= r2 * r2) by (nonlinear_arith)
            requires
                0 <= r1,
                r1 + 1 <= r2,
        ;
    }
    if r2 < r1 {
        assert((r2 + 1) * (r2 + 1) <= r1 * r1) by (nonlinear_arith)
            requires
                0 <= r2,
                r2 + 1 <= r1,
        ;
    }
}

/// Computes the integer square root of `n` by bisection.
pub fn isqrt_u128(n: u128) -> (r: u128)
    ensures
        r as int == spec_isqrt(n as int),
        is_isqrt(n as int, r as int),
        r <= 0xffff_ffff_ffff_ffff,
{
    let mut lo: u128 = 0;
    let mut hi: u128 = 0xffff_ffff_ffff_ffff;
    proof {
        assert(n < (0xffff_ffff_ffff_ffffu128 + 1) * (0xffff_ffff_ffff_ffffu128 + 1));
    }
    while lo < hi
        invariant
            lo <= hi <= 0xffff_ffff_ffff_ffff,
            lo * lo <= n,
            n < (hi + 1) * (hi + 1),
        decreases hi - lo,
    {
        let mid: u128 = lo + (hi - lo + 1) / 2;
        proof {
            assert(mid * mid <= 0xffff_ffff_ffff_ffffu128 * 0xffff_ffff_ffff_ffffu128)
                by (nonlinear_arith)
                requires
                    0 <= mid <= 0xffff_ffff_ffff_ffffu128,
            ;
        }
        let sq: u128 = mid * mid;
        if sq <= n {
            lo = mid;
        } else {
            hi = mid - 1;
        }
    }
    proof {
        lemma_spec_isqrt(n as int);
        lemma_isqrt_unique(n as int, lo as int, spec_isqrt(n as int));
    }
    lo
}

/// Ten to the power `e`, as a mathematical function.
pub open spec fn pow10(e: nat) -> nat
    decreases e,
{
    if e == 0 {
        1
    } else {
        10 * pow10((e - 1) as nat)
    }
}

/// Powers of ten are positive and monotone in the exponent.
pub proof fn lemma_pow10_monotone(a: nat, b: nat)
    requires
        a <= b,
    ensures
        1 <= pow10(a) <= pow10(b),
    decreases b,
{
    if b == 0 {
    } else if a == b {
        lemma_pow10_monotone((b - 1) as nat, (b - 1) as nat);
    } else {
        lemma_pow10_monotone(a, (b - 1) as nat);
    }
}

/// `pow10(38)` is the largest power of ten representable in a `u128`.
pub proof fn lemma_pow10_38_fits()
    ensures
        pow10(38) == 100000000000000000000000000000000000000int,
{
    reveal_with_fuel(pow10, 40);
}

/// `pow10(39)` exceeds `u128::MAX`.
pub proof fn lemma_pow10_39_large()
    ensures
        pow10(39) > u128::MAX,
{
    reveal_with_fuel(pow10, 40);
    lemma_pow10_38_fits();
}

/// Computes `10^e`, or reports that it exceeds `u128::MAX`.
pub fn pow10_u128(e: u32) -> (r: Option<u128>)
    ensures
        match r {
            Some(v) => v as int == pow10(e as nat),
            None => pow10(e as nat) > u128::MAX,
        },
{
    if e >= 39 {
        proof {
            lemma_pow10_39_large();
            lemma_pow10_monotone(39, e as nat);
        }
        return None;
    }
    let mut acc: u128 = 1;
    let mut i: u32 = 0;
    while i < e
        invariant
            i <= e < 39,
            acc as int == pow10(i as nat),
        decreases e - i,
    {
        proof {
            lemma_pow10_monotone((i + 1) as nat, 38);
            lemma_pow10_38_fits();
        }
        acc = acc * 10;
        i = i + 1;
    }
    Some(acc)
}

/// Multiplies two wide integers, or reports that the product exceeds
/// `u128::MAX`.
pub fn mul_check_u128(a: u128, b: u128) -> (r: Option<u128>)
    ensures
        match r {
            Some(v) => v as int == a as int * b as int,
            None => a as int * b as int > u128::MAX,
        },
{
    if a == 0 {
        return Some(0);
    }
    let q: u128 = u128::MAX / a;
    if b <= q {
        proof {
            assert(a as int * b as int <= u128::MAX) by (nonlinear_arith)
                requires
                    0 < a,
                    0 <= b,
                    b <= u128::MAX as int / a as int,
            ;
        }
        Some(a * b)
    } else {
        proof {
            assert(a as int * b as int > u128::MAX) by (nonlinear_arith)
                requires
                    0 < a,
                    b > u128::MAX as int / a as int,
            ;
        }
        None
    }
}

/// Adds two wide integers, or reports that the sum exceeds `u128::MAX`.
pub fn add_check_u128(a: u128, b: u128) -> (r: Option<u128>)
    ensures
        match r {
            Some(v) => v as int == a as int + b as int,
            None => a as int + b as int > u128::MAX,
        },
{
    if b <= u128::MAX - a {
        Some(a + b)
    } else {
        None
    }
}

/// Adds two `u64` values, or reports that the sum exceeds `u64::MAX`.
pub fn add_check_u64(a: u64, b: u64) -> (r: Option<u64>)
    ensures
        match r {
            Some(v) => v as int == a as int + b as int,
            None => a as int + b as int > u64::MAX,
        },
{
    if b <= u64::MAX - a {
        Some(a + b)
    } else {
        None
    }
}

} // verus!
