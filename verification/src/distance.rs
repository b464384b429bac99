//! Distances as ordered integer keys.
//!
//! A distance arrives as the 32 bits of its IEEE 754 single-precision
//! encoding: a sign bit, eight exponent bits and twenty-three fraction bits.
//! The key of an encoding is an integer that compares as the encoded numbers
//! do, so that the scene query can order distances without computing on them.

use vstd::arithmetic::power2::*;
use vstd::prelude::*;

verus! {

/// The encoding without its sign bit.
pub open spec fn magnitude(bits: u32) -> int {
    bits as int % 0x8000_0000
}

/// Whether the sign bit is set.
pub open spec fn negative(bits: u32) -> bool {
    bits >= 0x8000_0000
}

/// Whether the encoding stands for a number, finite or infinite: all
/// exponent bits set together with a fraction that is not zero does not.
pub open spec fn is_number(bits: u32) -> bool {
    magnitude(bits) <= 0x7f80_0000
}

/// The key of an encoding: its magnitude, negated under a set sign bit, so
/// that both zeros have key 0; `None` where the encoding is not a number.
pub open spec fn key_of(bits: u32) -> Option<i64> {
    if !is_number(bits) {
        None
    } else if negative(bits) {
        Some((-magnitude(bits)) as i64)
    } else {
        Some(magnitude(bits) as i64)
    }
}

/// The key of the encoding `bits`.
pub fn order_key(bits: u32) -> (key: Option<i64>)
    ensures
        key == key_of(bits),
        key matches Some(k) ==> -0x7f80_0000 <= k <= 0x7f80_0000,
{
    let low: u32 = bits & 0x7fff_ffff;
    assert(low == bits % 0x8000_0000) by (bit_vector)
        requires
            low == bits & 0x7fff_ffff,
    ;
    if low > 0x7f80_0000 {
        None
    } else if bits >= 0x8000_0000 {
        Some(-(low as i64))
    } else {
        Some(low as i64)
    }
}

/// The number that a magnitude encodes, in units of two to the power -149:
/// the fraction alone under exponent bits zero, else the fraction with its
/// leading one, doubled once for each step of the exponent above one. The
/// magnitude of infinity comes out above every finite one.
pub open spec fn scaled_magnitude(m: int) -> int {
    let exponent = m / 0x80_0000;
    let fraction = m % 0x80_0000;
    if exponent == 0 {
        fraction
    } else {
        (0x80_0000 + fraction) * pow2((exponent - 1) as nat)
    }
}

/// The number that an encoding stands for, in units of two to the power
/// -149.
pub open spec fn scaled_value(bits: u32) -> int {
    if negative(bits) {
        -scaled_magnitude(magnitude(bits))
    } else {
        scaled_magnitude(magnitude(bits))
    }
}

/// A larger magnitude encodes a larger number, and magnitude zero encodes
/// zero.
pub proof fn lemma_scaled_magnitude_increases(m: int, n: int)
    requires
        0 <= m < n,
    ensures
        0 <= scaled_magnitude(m) < scaled_magnitude(n),
        m == 0 ==> scaled_magnitude(m) == 0,
{
    let exponent_m = m / 0x80_0000;
    let fraction_m = m % 0x80_0000;
    let exponent_n = n / 0x80_0000;
    let fraction_n = n % 0x80_0000;
    assert(exponent_m <= exponent_n);
    if exponent_m > 0 {
        lemma_pow2_pos((exponent_m - 1) as nat);
        assert(0 <= (0x80_0000 + fraction_m) * pow2((exponent_m - 1) as nat)) by (nonlinear_arith)
            requires
                0 <= fraction_m,
                pow2((exponent_m - 1) as nat) > 0,
        ;
    }
    lemma_pow2_pos((exponent_n - 1) as nat);
    if exponent_m == exponent_n {
        assert(fraction_m < fraction_n);
        if exponent_m > 0 {
            assert((0x80_0000 + fraction_m) * pow2((exponent_m - 1) as nat) < (0x80_0000 + fraction_n) * pow2(
                (exponent_m - 1) as nat,
            )) by (nonlinear_arith)
                requires
                    fraction_m < fraction_n,
                    pow2((exponent_m - 1) as nat) > 0,
            ;
        }
    } else {
        // the smaller number lies below the least number of the next exponent
        let floor = 0x80_0000 * pow2((exponent_n - 1) as nat);
        assert(floor <= (0x80_0000 + fraction_n) * pow2((exponent_n - 1) as nat)) by (nonlinear_arith)
            requires
                floor == 0x80_0000 * pow2((exponent_n - 1) as nat),
                0 <= fraction_n,
                pow2((exponent_n - 1) as nat) > 0,
        ;
        if exponent_m == 0 {
            assert(fraction_m < 0x80_0000 <= floor) by (nonlinear_arith)
                requires
                    fraction_m < 0x80_0000,
                    floor == 0x80_0000 * pow2((exponent_n - 1) as nat),
                    pow2((exponent_n - 1) as nat) > 0,
            ;
        } else {
            lemma_pow2_unfold(exponent_m as nat);
            if exponent_m < exponent_n - 1 {
                lemma_pow2_strictly_increases(exponent_m as nat, (exponent_n - 1) as nat);
            }
            assert((0x80_0000 + fraction_m) * pow2((exponent_m - 1) as nat) < floor) by (nonlinear_arith)
                requires
                    fraction_m < 0x80_0000,
                    pow2((exponent_m - 1) as nat) > 0,
                    pow2(exponent_m as nat) == 2 * pow2((exponent_m - 1) as nat),
                    pow2(exponent_m as nat) <= pow2((exponent_n - 1) as nat),
                    floor == 0x80_0000 * pow2((exponent_n - 1) as nat),
            ;
        }
    }
}

/// Keys keep the order of the numbers: of two encodings that stand for
/// numbers, one has the smaller key exactly when it stands for the smaller
/// number, and the keys are equal exactly when the numbers are.
pub proof fn lemma_key_orders_values(a: u32, b: u32)
    requires
        is_number(a),
        is_number(b),
    ensures
        key_of(a).unwrap() < key_of(b).unwrap() <==> scaled_value(a) < scaled_value(b),
        key_of(a).unwrap() == key_of(b).unwrap() <==> scaled_value(a) == scaled_value(b),
{
    let m = magnitude(a);
    let n = magnitude(b);
    if m < n {
        lemma_scaled_magnitude_increases(m, n);
    } else if n < m {
        lemma_scaled_magnitude_increases(n, m);
    }
    if 0 < m {
        lemma_scaled_magnitude_increases(0, m);
    }
    if 0 < n {
        lemma_scaled_magnitude_increases(0, n);
    }
}

} // verus!
