//! Double-precision numbers handled as 64-bit patterns.
//!
//! The guest exchanges numbers as IEEE-754 binary64 words. This module reads
//! and builds such words with integer arithmetic only: classification,
//! truncation to an unsigned integer, and the word of the double nearest a
//! given unsigned integer.

use vstd::prelude::*;
use vstd::arithmetic::power2::*;
use vstd::bits::*;

verus! {

/// The sign bit of a binary64 word.
pub const SIGN_BIT: u64 = 0x8000_0000_0000_0000;

/// The word of positive infinity: exponent all ones, fraction zero.
pub const INFINITY_BITS: u64 = 0x7ff0_0000_0000_0000;

/// The word of the canonical quiet NaN.
pub const CANONICAL_NAN: u64 = 0x7ff8_0000_0000_0000;

/// Two to the 52nd: the weight of the implicit leading bit of a significand.
pub const HIDDEN_BIT: u64 = 0x0010_0000_0000_0000;

/// The exponent field of the number one.
pub const EXPONENT_BIAS: u64 = 1023;

/// The word of the number one.
pub const ONE_BITS: u64 = 0x3ff0_0000_0000_0000;

/// The word of the number two.
pub const TWO_BITS: u64 = 0x4000_0000_0000_0000;

/// The word of the number minus one.
pub const MINUS_ONE_BITS: u64 = 0xbff0_0000_0000_0000;

/// Whether the sign bit of `bits` is set.
pub open spec fn is_negative(bits: u64) -> bool {
    bits >= SIGN_BIT
}

/// The word without its sign bit.
pub open spec fn magnitude(bits: u64) -> u64 {
    if bits >= SIGN_BIT {
        (bits - SIGN_BIT) as u64
    } else {
        bits
    }
}

/// The biased exponent field, between 0 and 2047.
pub open spec fn exponent(bits: u64) -> int {
    magnitude(bits) as int / (HIDDEN_BIT as int)
}

/// The 52-bit fraction field.
pub open spec fn fraction(bits: u64) -> int {
    magnitude(bits) as int % (HIDDEN_BIT as int)
}

/// Whether `bits` is a NaN: exponent all ones and a fraction that is not zero.
pub open spec fn is_nan(bits: u64) -> bool {
    magnitude(bits) > INFINITY_BITS
}

/// Whether `bits` is positive or negative zero.
pub open spec fn is_zero(bits: u64) -> bool {
    magnitude(bits) == 0
}

/// Equality of two numbers as doubles compare: a NaN equals nothing, the two
/// zeros equal each other, every other number equals only its own word.
pub open spec fn same_number(a: u64, b: u64) -> bool {
    &&& !is_nan(a)
    &&& !is_nan(b)
    &&& (a == b || (is_zero(a) && is_zero(b)))
}

/// The number `bits` cut to an unsigned 64-bit integer: the fraction is
/// dropped, a NaN and everything below one give zero, everything from two to
/// the 64th on (infinity included) gives the largest integer.
pub open spec fn truncated(bits: u64) -> int {
    if is_nan(bits) || is_negative(bits) || exponent(bits) < EXPONENT_BIAS {
        0
    } else if exponent(bits) >= EXPONENT_BIAS + 64 {
        u64::MAX as int
    } else {
        let significand = HIDDEN_BIT + fraction(bits);
        let scale = exponent(bits) - EXPONENT_BIAS;
        if scale <= 52 {
            significand / (pow2((52 - scale) as nat) as int)
        } else {
            significand * pow2((scale - 52) as nat)
        }
    }
}

/// The position of the highest set bit of `n`; zero for zero and one.
pub open spec fn floor_log2(n: nat) -> nat
    decreases n,
{
    if n <= 1 {
        0
    } else {
        1 + floor_log2(n / 2)
    }
}

/// The word of the double nearest to `n`, ties going to the even significand.
///
/// With `k` the position of the highest set bit of `n`, the 53 leading bits of
/// `n` are kept as the significand. What is cut off rounds the significand up
/// when it is more than half a unit, or exactly half beside an odd
/// significand. A carry out of the significand lands in the exponent field,
/// which the sum below performs by itself.
pub open spec fn nearest_number(n: nat) -> int {
    if n == 0 {
        0
    } else {
        let k = floor_log2(n);
        if k <= 52 {
            (EXPONENT_BIAS - 1 + k) * HIDDEN_BIT + n * pow2((52 - k) as nat)
        } else {
            let unit = pow2((k - 52) as nat);
            let kept = n / unit;
            let rest = n % unit;
            let round_up = 2 * rest > unit || (2 * rest == unit && kept % 2 == 1);
            (EXPONENT_BIAS - 1 + k) * HIDDEN_BIT + kept + if round_up {
                1int
            } else {
                0int
            }
        }
    }
}

/// Bounds on `n` by the powers of two around it.
pub proof fn lemma_floor_log2_bounds(n: nat)
    requires
        n >= 1,
    ensures
        pow2(floor_log2(n)) <= n < pow2(floor_log2(n) + 1),
    decreases n,
{
    lemma2_to64();
    if n > 1 {
        lemma_floor_log2_bounds(n / 2);
        lemma_pow2_unfold(floor_log2(n));
        lemma_pow2_unfold(floor_log2(n) + 1);
    }
}

/// An integer below two to the `e`-th has its highest bit below position `e`.
pub proof fn lemma_floor_log2_below(n: nat, e: nat)
    requires
        1 <= n < pow2(e),
    ensures
        floor_log2(n) < e,
{
    lemma_floor_log2_bounds(n);
    if floor_log2(n) >= e {
        if floor_log2(n) > e {
            lemma_pow2_strictly_increases(e, floor_log2(n));
        }
    }
}

/// Whether `bits` is a NaN.
pub fn number_is_nan(bits: u64) -> (r: bool)
    ensures
        r == is_nan(bits),
{
    let mag: u64 = if bits >= SIGN_BIT {
        bits - SIGN_BIT
    } else {
        bits
    };
    mag > INFINITY_BITS
}

/// Whether `bits` is one of the two zeros.
pub fn number_is_zero(bits: u64) -> (r: bool)
    ensures
        r == is_zero(bits),
{
    bits == 0 || bits == SIGN_BIT
}

/// Cuts the number `bits` to an unsigned 64-bit integer, saturating at both
/// ends.
pub fn number_to_u64(bits: u64) -> (r: u64)
    ensures
        r == truncated(bits),
{
    if bits >= SIGN_BIT || bits > INFINITY_BITS {
        return 0;
    }
    let field: u64 = bits / HIDDEN_BIT;
    if field < EXPONENT_BIAS {
        return 0;
    }
    if field >= EXPONENT_BIAS + 64 {
        return u64::MAX;
    }
    let significand: u64 = HIDDEN_BIT + bits % HIDDEN_BIT;
    let scale: u64 = field - EXPONENT_BIAS;
    if scale <= 52 {
        let shift: u64 = 52 - scale;
        proof {
            lemma_u64_shr_is_div(significand, shift);
        }
        significand >> shift
    } else {
        let shift: u64 = scale - 52;
        proof {
            lemma2_to64();
            if shift < 11 {
                lemma_pow2_strictly_increases(shift as nat, 11);
            }
            assert(significand * pow2(shift as nat) <= u64::MAX) by (nonlinear_arith)
                requires
                    significand < 0x20_0000_0000_0000,
                    pow2(shift as nat) <= 0x800,
            ;
            lemma_u64_shl_is_mul(significand, shift);
        }
        significand << shift
    }
}

/// The position of the highest set bit of `n`.
pub fn highest_bit(n: u64) -> (k: u64)
    requires
        n >= 1,
    ensures
        k == floor_log2(n as nat),
        k <= 63,
{
    proof {
        lemma2_to64();
        lemma_floor_log2_below(n as nat, 64);
    }
    let mut k: u64 = 0;
    let mut top: u64 = n;
    while top > 1
        invariant
            top >= 1,
            floor_log2(n as nat) == k + floor_log2(top as nat),
            floor_log2(n as nat) <= 63,
        decreases top,
    {
        top = top / 2;
        k = k + 1;
    }
    k
}

/// The word of the double nearest to `n`.
pub fn number_from_u64(n: u64) -> (r: u64)
    ensures
        r == nearest_number(n as nat),
{
    if n == 0 {
        return 0;
    }
    let k: u64 = highest_bit(n);
    proof {
        lemma2_to64();
        lemma2_to64_rest();
        lemma_floor_log2_bounds(n as nat);
    }
    if k <= 52 {
        let shift: u64 = 52 - k;
        proof {
            lemma_pow2_adds(k as nat + 1, shift as nat);
            assert(n * pow2(shift as nat) < pow2(53)) by (nonlinear_arith)
                requires
                    n < pow2(k as nat + 1),
                    pow2(k as nat + 1) * pow2(shift as nat) == pow2(53),
                    pow2(shift as nat) > 0,
            ;
            lemma_u64_shl_is_mul(n, shift);
        }
        (EXPONENT_BIAS - 1 + k) * HIDDEN_BIT + (n << shift)
    } else {
        let shift: u64 = k - 52;
        let kept: u64 = n >> shift;
        let unit: u64 = 1u64 << shift;
        proof {
            lemma_u64_shr_is_div(n, shift);
            lemma_pow2_strictly_increases(shift as nat, 12);
            lemma_u64_shl_is_mul(1, shift);
            lemma_pow2_adds(52, shift as nat);
            lemma_pow2_adds(53, shift as nat);
            assert(HIDDEN_BIT <= kept < 2 * HIDDEN_BIT) by (nonlinear_arith)
                requires
                    kept == n as nat / pow2(shift as nat),
                    pow2(shift as nat) > 0,
                    0x10_0000_0000_0000 * pow2(shift as nat) <= n,
                    n < 0x20_0000_0000_0000 * pow2(shift as nat),
            ;
        }
        let rest: u64 = n % unit;
        let half: u64 = unit / 2;
        proof {
            lemma_pow2_unfold(shift as nat);
        }
        let round_up: bool = rest > half || (rest == half && kept % 2 == 1);
        let bump: u64 = if round_up {
            1
        } else {
            0
        };
        (EXPONENT_BIAS - 1 + k) * HIDDEN_BIT + kept + bump
    }
}

/// The weight of the lowest bit that the double nearest to `n` keeps: one
/// while `n` fits the 53 bits of a significand, else the power of two by
/// which it is too long.
pub open spec fn rounding_unit(n: nat) -> nat {
    if floor_log2(n) <= 52 {
        1
    } else {
        pow2((floor_log2(n) - 52) as nat)
    }
}

/// The integer that the double nearest to `n` stands for.
pub open spec fn rounded(n: nat) -> int {
    if floor_log2(n) <= 52 {
        n as int
    } else {
        let unit = rounding_unit(n);
        let kept = n / unit;
        let rest = n % unit;
        if 2 * rest > unit || (2 * rest == unit && kept % 2 == 1) {
            ((kept + 1) * unit) as int
        } else {
            (kept * unit) as int
        }
    }
}

/// A cut number lies within the unsigned 64-bit integers.
pub proof fn lemma_truncated_bounds(bits: u64)
    ensures
        0 <= truncated(bits) <= u64::MAX,
{
    if !(is_nan(bits) || is_negative(bits) || exponent(bits) < EXPONENT_BIAS) && exponent(bits)
        < EXPONENT_BIAS + 64 {
        lemma2_to64();
        let significand = HIDDEN_BIT + fraction(bits);
        let scale = exponent(bits) - EXPONENT_BIAS;
        if scale <= 52 {
            let p = pow2((52 - scale) as nat);
            lemma_pow2_pos((52 - scale) as nat);
            assert(0 <= significand / (p as int) <= significand) by (nonlinear_arith)
                requires
                    significand >= 0,
                    p >= 1,
            ;
        } else {
            let p = pow2((scale - 52) as nat);
            if scale - 52 < 11 {
                lemma_pow2_strictly_increases((scale - 52) as nat, 11);
            }
            assert(0 <= significand * p <= u64::MAX) by (nonlinear_arith)
                requires
                    0 <= significand < 0x20_0000_0000_0000,
                    0 <= p <= 0x800,
            ;
        }
    }
}

/// The word that `nearest_number` gives for `n` is a finite number that is
/// not negative. It stands for `rounded(n)`, which truncation gives back
/// unless it is two to the 64th, and `rounded(n)` is a multiple of the unit
/// that lies within half a unit of `n`; exactly half a unit away, it is an
/// even multiple.
pub proof fn lemma_nearest_number_is_near(n: nat)
    requires
        1 <= n <= u64::MAX,
    ensures
        0 < nearest_number(n) < INFINITY_BITS,
        truncated(nearest_number(n) as u64) == if rounded(n) > u64::MAX {
            u64::MAX as int
        } else {
            rounded(n)
        },
        rounded(n) % (rounding_unit(n) as int) == 0,
        2 * (rounded(n) - n) <= rounding_unit(n),
        2 * (n - rounded(n)) <= rounding_unit(n),
        2 * (rounded(n) - n) == rounding_unit(n) || 2 * (n - rounded(n)) == rounding_unit(n) ==> (
        rounded(n) / (rounding_unit(n) as int)) % 2 == 0,
{
    lemma2_to64();
    lemma2_to64_rest();
    lemma_floor_log2_bounds(n);
    lemma_floor_log2_below(n, 64);
    let k = floor_log2(n);
    if k <= 52 {
        lemma_small_integers_are_exact(n);
        let p = pow2((52 - k) as nat);
        lemma_pow2_pos((52 - k) as nat);
        assert(n * p > 0) by (nonlinear_arith)
            requires
                n >= 1,
                p >= 1,
        ;
        lemma_pow2_adds(k + 1, (52 - k) as nat);
        assert(n * p < 0x20_0000_0000_0000) by (nonlinear_arith)
            requires
                n < pow2(k + 1),
                pow2(k + 1) * p == 0x20_0000_0000_0000,
                p > 0,
        ;
    } else {
        let shift = (k - 52) as nat;
        let unit = pow2(shift);
        let kept = n / unit;
        let rest = n % unit;
        lemma_pow2_pos(shift);
        lemma_pow2_adds(52, shift);
        lemma_pow2_adds(53, shift);
        lemma_pow2_strictly_increases(shift, 12);
        assert(HIDDEN_BIT <= kept < 2 * HIDDEN_BIT && n == kept * unit + rest && 0 <= rest < unit)
            by (nonlinear_arith)
            requires
                kept == n / unit,
                rest == n % unit,
                unit > 0,
                0x10_0000_0000_0000 * unit <= n,
                n < 0x20_0000_0000_0000 * unit,
        ;
        let up = 2 * rest > unit || (2 * rest == unit && kept % 2 == 1);
        let sum: int = if up {
            kept as int + 1
        } else {
            kept as int
        };
        let bits = (EXPONENT_BIAS - 1 + k) * HIDDEN_BIT + sum;
        assert(bits == nearest_number(n));
        assert(rounded(n) == sum * unit);
        assert(rounded(n) - n == sum * unit - kept * unit - rest);
        assert(sum * unit - kept * unit == (sum - kept) * unit) by (nonlinear_arith);
        assert((sum * unit) % (unit as int) == 0 && (sum * unit) / (unit as int) == sum)
            by (nonlinear_arith)
            requires
                unit > 0,
        ;
        if sum < 2 * HIDDEN_BIT {
            let field = EXPONENT_BIAS + k;
            assert(bits == field * HIDDEN_BIT + (sum - HIDDEN_BIT));
            assert(bits / (HIDDEN_BIT as int) == field && bits % (HIDDEN_BIT as int) == sum
                - HIDDEN_BIT) by (nonlinear_arith)
                requires
                    bits == field * HIDDEN_BIT + (sum - HIDDEN_BIT),
                    0 <= sum - HIDDEN_BIT < HIDDEN_BIT,
                    HIDDEN_BIT > 0,
            ;
            assert(sum * unit <= u64::MAX) by (nonlinear_arith)
                requires
                    sum < 0x20_0000_0000_0000,
                    n < 0x20_0000_0000_0000 * unit,
                    n <= u64::MAX,
                    sum * unit - n <= unit,
                    0x20_0000_0000_0000 * unit <= 0x1_0000_0000_0000_0000,
                    unit > 0,
            ;
        } else {
            let field = EXPONENT_BIAS + k + 1;
            assert(bits == field * HIDDEN_BIT);
            assert(bits / (HIDDEN_BIT as int) == field && bits % (HIDDEN_BIT as int) == 0)
                by (nonlinear_arith)
                requires
                    bits == field * HIDDEN_BIT,
                    HIDDEN_BIT > 0,
            ;
            if k < 63 {
                lemma_pow2_unfold(shift + 1);
                assert(HIDDEN_BIT * (2 * unit) == sum * unit) by (nonlinear_arith)
                    requires
                        sum == 2 * HIDDEN_BIT,
                ;
                lemma_pow2_adds(53, shift);
                lemma_pow2_strictly_increases(53 + shift, 64);
            } else {
                assert(sum * unit == 0x1_0000_0000_0000_0000) by (nonlinear_arith)
                    requires
                        sum == 0x20_0000_0000_0000,
                        unit == 0x800,
                ;
            }
        }
    }
}

/// Truncation undoes `nearest_number` on every integer that a double holds
/// exactly by its width: those below two to the 53rd.
pub proof fn lemma_small_integers_are_exact(n: nat)
    requires
        n < 0x20_0000_0000_0000,
    ensures
        0 <= nearest_number(n) <= u64::MAX,
        truncated(nearest_number(n) as u64) == n,
        !is_nan(nearest_number(n) as u64),
        !is_negative(nearest_number(n) as u64),
{
    lemma2_to64();
    lemma2_to64_rest();
    if n > 0 {
        let k = floor_log2(n);
        lemma_floor_log2_bounds(n);
        lemma_floor_log2_below(n, 53);
        let p = pow2((52 - k) as nat);
        lemma_pow2_adds(k, (52 - k) as nat);
        lemma_pow2_adds(k + 1, (52 - k) as nat);
        lemma_pow2_pos((52 - k) as nat);
        let scaled = n * p;
        assert(HIDDEN_BIT <= scaled < 2 * HIDDEN_BIT) by (nonlinear_arith)
            requires
                scaled == n * p,
                pow2(k) <= n < pow2(k + 1),
                pow2(k) * p == 0x10_0000_0000_0000,
                pow2(k + 1) * p == 0x20_0000_0000_0000,
                p > 0,
        ;
        let bits = (EXPONENT_BIAS - 1 + k) * HIDDEN_BIT + scaled;
        assert(bits == nearest_number(n));
        let field = EXPONENT_BIAS + k;
        assert(bits == field * HIDDEN_BIT + (scaled - HIDDEN_BIT));
        assert(bits / (HIDDEN_BIT as int) == field && bits % (HIDDEN_BIT as int) == scaled
            - HIDDEN_BIT) by (nonlinear_arith)
            requires
                bits == field * HIDDEN_BIT + (scaled - HIDDEN_BIT),
                0 <= scaled - HIDDEN_BIT < HIDDEN_BIT,
                HIDDEN_BIT > 0,
        ;
        assert((scaled as int) / (p as int) == n) by (nonlinear_arith)
            requires
                scaled == n * p,
                p > 0,
        ;
    }
}

} // verus!
