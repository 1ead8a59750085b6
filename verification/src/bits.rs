//! Single-precision floats as the bit patterns that cross the threads.
//!
//! Every shared word is a `u32`, so a float travels as its IEEE 754 bits. This module gives the
//! bits their numeric meaning (an integer count of the smallest positive float) and compares
//! floats through their bits.

use vstd::arithmetic::power2::{lemma_pow2_pos, lemma_pow2_strictly_increases, lemma_pow2_unfold, pow2};
use vstd::prelude::*;

verus! {

/// The bit pattern of positive infinity. Larger magnitudes are not numbers.
pub const INFINITY_BITS: u32 = 0x7f80_0000;

/// The sign bit.
pub const SIGN_BIT: u32 = 0x8000_0000;

/// Number of distinct fractions that share one exponent.
pub const FRACTIONS: u32 = 0x0080_0000;

/// Whether the sign bit is set.
pub open spec fn is_negative(bits: u32) -> bool {
    bits >= SIGN_BIT
}

/// The bits without the sign.
pub open spec fn magnitude(bits: u32) -> u32 {
    if is_negative(bits) {
        (bits - SIGN_BIT) as u32
    } else {
        bits
    }
}

/// Whether the bits stand for something other than a number.
pub open spec fn is_nan(bits: u32) -> bool {
    magnitude(bits) > INFINITY_BITS
}

/// The absolute value of a float, counted in units of the smallest positive float. Infinity gets
/// the value that the next exponent would have, above every finite float.
pub open spec fn units(mag: u32) -> nat {
    let exponent = mag / FRACTIONS;
    let fraction = mag % FRACTIONS;
    if exponent == 0 {
        fraction as nat
    } else {
        ((FRACTIONS + fraction) as nat) * pow2((exponent - 1) as nat)
    }
}

/// The value of a float, counted in units of the smallest positive float. Both zeros are `0`.
pub open spec fn value(bits: u32) -> int {
    if is_negative(bits) {
        -(units(magnitude(bits)) as int)
    } else {
        units(magnitude(bits)) as int
    }
}

/// The float order `a < b`: false as soon as one side is not a number.
pub open spec fn less(a: u32, b: u32) -> bool {
    !is_nan(a) && !is_nan(b) && value(a) < value(b)
}

/// The smaller of two floats; where one side is not a number, the other side. Of equal floats the
/// first is kept.
pub open spec fn least(a: u32, b: u32) -> u32 {
    if is_nan(a) || less(b, a) {
        b
    } else {
        a
    }
}

/// The larger of two floats; where one side is not a number, the other side. Of equal floats the
/// first is kept.
pub open spec fn greatest(a: u32, b: u32) -> u32 {
    if is_nan(a) || less(a, b) {
        b
    } else {
        a
    }
}

/// Magnitudes order as the absolute values they stand for.
pub proof fn units_increase(a: u32, b: u32)
    requires
        a < b,
    ensures
        units(a) < units(b),
{
    let ea = a / FRACTIONS;
    let eb = b / FRACTIONS;
    let fa = a % FRACTIONS;
    let fb = b % FRACTIONS;
    assert(ea <= eb);
    if ea == eb {
        assert(fa < fb);
        if ea > 0 {
            lemma_pow2_pos((ea - 1) as nat);
            let p = pow2((ea - 1) as nat);
            assert((FRACTIONS + fa) * p < (FRACTIONS + fb) * p) by (nonlinear_arith)
                requires
                    fa < fb,
                    p > 0,
            ;
        }
    } else {
        let q = pow2((eb - 1) as nat);
        lemma_pow2_pos((eb - 1) as nat);
        assert((FRACTIONS + fb) * q >= FRACTIONS * q) by (nonlinear_arith)
            requires
                q > 0,
                fb >= 0,
        ;
        if ea == 0 {
            assert(FRACTIONS * q >= FRACTIONS) by (nonlinear_arith)
                requires
                    q >= 1,
            ;
        } else {
            let p = pow2((ea - 1) as nat);
            lemma_pow2_pos((ea - 1) as nat);
            lemma_pow2_unfold(ea as nat);
            if ea < eb - 1 {
                lemma_pow2_strictly_increases(ea as nat, (eb - 1) as nat);
            }
            assert(q >= 2 * p);
            assert((FRACTIONS + fa) * p < FRACTIONS * q) by (nonlinear_arith)
                requires
                    fa < FRACTIONS,
                    p > 0,
                    q >= 2 * p,
            ;
        }
    }
}

/// For floats that are not negative, the order of the bits is the order of the values: the
/// greatest bit pattern belongs to the greatest float.
pub proof fn nonnegative_bits_order(a: u32, b: u32)
    requires
        a <= INFINITY_BITS,
        b <= INFINITY_BITS,
    ensures
        a < b <==> value(a) < value(b),
        a < b <==> less(a, b),
        (if a < b { b } else { a }) == greatest(a, b),
{
    if a < b {
        units_increase(a, b);
    } else if b < a {
        units_increase(b, a);
    }
}

/// Compares two floats by their bits.
pub fn float_less(a: u32, b: u32) -> (r: bool)
    ensures
        r == less(a, b),
{
    let neg_a: bool = a >= SIGN_BIT;
    let neg_b: bool = b >= SIGN_BIT;
    let mag_a: u32 = if neg_a { a - SIGN_BIT } else { a };
    let mag_b: u32 = if neg_b { b - SIGN_BIT } else { b };
    proof {
        if mag_a < mag_b {
            units_increase(mag_a, mag_b);
        } else if mag_b < mag_a {
            units_increase(mag_b, mag_a);
        }
        if mag_a > 0 {
            units_increase(0, mag_a);
        }
        if mag_b > 0 {
            units_increase(0, mag_b);
        }
    }
    if mag_a > INFINITY_BITS || mag_b > INFINITY_BITS {
        false
    } else if neg_a && neg_b {
        mag_b < mag_a
    } else if neg_a {
        mag_a > 0 || mag_b > 0
    } else if neg_b {
        false
    } else {
        mag_a < mag_b
    }
}

/// The smaller of two floats, by their bits.
pub fn float_min(a: u32, b: u32) -> (r: u32)
    ensures
        r == least(a, b),
{
    let nan: bool = if a >= SIGN_BIT {
        a - SIGN_BIT > INFINITY_BITS
    } else {
        a > INFINITY_BITS
    };
    if nan || float_less(b, a) {
        b
    } else {
        a
    }
}

/// The larger of two floats, by their bits.
pub fn float_max(a: u32, b: u32) -> (r: u32)
    ensures
        r == greatest(a, b),
{
    let nan: bool = if a >= SIGN_BIT {
        a - SIGN_BIT > INFINITY_BITS
    } else {
        a > INFINITY_BITS
    };
    if nan || float_less(a, b) {
        b
    } else {
        a
    }
}

/// A float held between two others: the lower bound where it is below, the upper bound where it
/// is above, and itself otherwise, also where it is not a number.
pub open spec fn clamped(x: u32, low: u32, high: u32) -> u32 {
    if less(x, low) {
        low
    } else if less(high, x) {
        high
    } else {
        x
    }
}

/// Holds a float between two others, by their bits.
pub fn float_clamp(x: u32, low: u32, high: u32) -> (r: u32)
    ensures
        r == clamped(x, low, high),
{
    if float_less(x, low) {
        low
    } else if float_less(high, x) {
        high
    } else {
        x
    }
}

/// A clamped number lies between its bounds, is itself where it lies there already, and is else the
/// bound on its side.
pub proof fn clamped_lies_between(x: u32, low: u32, high: u32)
    requires
        !is_nan(x),
        !is_nan(low),
        !is_nan(high),
        !less(high, low),
    ensures
        value(low) <= value(clamped(x, low, high)) <= value(high),
        value(low) <= value(x) <= value(high) ==> clamped(x, low, high) == x,
        value(x) < value(low) ==> clamped(x, low, high) == low,
        value(x) > value(high) ==> clamped(x, low, high) == high,
{
}

/// The float `p` is `x` where `x` lies within the range, and the nearer end of the range where it
/// does not; what is no number stays as it is.
pub open spec fn held_within(p: u32, x: u32, range: (u32, u32)) -> bool {
    if is_nan(x) {
        p == x
    } else {
        let v = value(x);
        let low = value(range.0);
        let high = value(range.1);
        &&& !is_nan(p)
        &&& low <= value(p) <= high
        &&& low <= v <= high ==> p == x
        &&& v < low ==> p == range.0
        &&& v > high ==> p == range.1
    }
}

/// What is no number passes a clamp as it is.
pub proof fn clamped_keeps_what_is_no_number(x: u32, low: u32, high: u32)
    requires
        is_nan(x),
    ensures
        clamped(x, low, high) == x,
{
}

/// The least and the greatest of two numbers are two bounds: each is one of the two, and neither
/// number lies outside them. Where one side is no number the other one is taken.
pub proof fn least_and_greatest_are_bounds(a: u32, b: u32)
    ensures
        least(a, b) == a || least(a, b) == b,
        greatest(a, b) == a || greatest(a, b) == b,
        !is_nan(a) && !is_nan(b) ==> {
            &&& value(least(a, b)) <= value(a) <= value(greatest(a, b))
            &&& value(least(a, b)) <= value(b) <= value(greatest(a, b))
        },
        is_nan(a) ==> least(a, b) == b && greatest(a, b) == b,
        is_nan(b) && !is_nan(a) ==> least(a, b) == a && greatest(a, b) == a,
        !is_nan(a) && !is_nan(b) && value(a) == value(b) ==> least(a, b) == a && greatest(a, b)
            == a,
{
}

/// The float order is the order of the values, among numbers; the sign bit decides on which side of
/// zero a float lies, the rest how far; and infinity is a number, the greatest.
pub proof fn floats_order_by_value(a: u32, b: u32)
    ensures
        less(a, b) ==> !less(b, a) && !is_nan(a) && !is_nan(b),
        !is_nan(a) && !is_nan(b) ==> (less(a, b) <==> value(a) < value(b)),
        value(a) == 0 <==> a == 0 || a == 0x8000_0000u32,
        value(a) > 0 <==> 0 < a < 0x8000_0000u32,
        value(a) < 0 <==> a > 0x8000_0000u32,
        a < b < 0x8000_0000u32 ==> value(a) < value(b),
        0x8000_0000u32 <= a < b ==> value(b) < value(a),
        is_nan(a) <==> 0x7f80_0000u32 < a < 0x8000_0000u32 || a > 0xff80_0000u32,
        !is_nan(a) ==> value(0xff80_0000u32) <= value(a) <= value(0x7f80_0000u32),
{
    let zero = 0u32;
    let ma = magnitude(a);
    let mb = magnitude(b);
    if ma > 0 {
        units_increase(zero, ma);
    }
    if ma < mb {
        units_increase(ma, mb);
    }
    if ma < 0x7f80_0000u32 {
        units_increase(ma, 0x7f80_0000u32);
    }
    units_increase(zero, 0x7f80_0000u32);
}

/// Flipping the sign mirrors a float at zero: it negates the value, keeps the magnitude, and done
/// twice it changes nothing.
pub proof fn negation_mirrors(bits: u32)
    ensures
        value(negated(bits)) == -value(bits),
        magnitude(negated(bits)) == magnitude(bits),
        negated(negated(bits)) == bits,
        negated(bits) != bits,
{
}

/// The bits with the sign flipped.
pub open spec fn negated(bits: u32) -> u32 {
    if is_negative(bits) {
        (bits - SIGN_BIT) as u32
    } else {
        (bits + SIGN_BIT) as u32
    }
}

/// Flips the sign of a float.
pub fn float_negate(bits: u32) -> (r: u32)
    ensures
        r == negated(bits),
        value(r) == -value(bits),
        is_nan(r) == is_nan(bits),
{
    if bits >= SIGN_BIT {
        bits - SIGN_BIT
    } else {
        bits + SIGN_BIT
    }
}

/// The largest finite magnitude whose double is finite too.
pub const LARGEST_HALF: u32 = 0x7eff_ffff;

/// Doubles a float. The double is exact, or infinite where it is too large; what is no number
/// stays as it is.
pub fn float_double(bits: u32) -> (r: u32)
    ensures
        is_nan(bits) ==> r == bits,
        !is_nan(bits) ==> is_negative(r) == is_negative(bits),
        magnitude(bits) <= LARGEST_HALF ==> value(r) == 2 * value(bits) && magnitude(r)
            < INFINITY_BITS,
        LARGEST_HALF < magnitude(bits) <= INFINITY_BITS ==> magnitude(r) == INFINITY_BITS,
{
    let sign: u32 = if bits >= SIGN_BIT {
        SIGN_BIT
    } else {
        0
    };
    let mag: u32 = bits - sign;
    if mag > INFINITY_BITS {
        return bits;
    }
    if mag > LARGEST_HALF {
        return sign + INFINITY_BITS;
    }
    if mag < FRACTIONS {
        proof {
            let twice = (2 * mag) as u32;
            assert(vstd::arithmetic::power2::pow2(0) == 1) by {
                vstd::arithmetic::power2::lemma2_to64();
            }
            if twice < FRACTIONS {
                assert(units(twice) == 2 * units(mag));
            } else {
                assert(twice / FRACTIONS == 1);
                assert(units(twice) == ((FRACTIONS + twice % FRACTIONS) as nat) * pow2(0));
                assert(units(twice) == twice);
            }
        }
        return sign + 2 * mag;
    }
    proof {
        let next = (mag + FRACTIONS) as u32;
        let e = mag / FRACTIONS;
        let f = mag % FRACTIONS;
        assert(next / FRACTIONS == e + 1);
        assert(next % FRACTIONS == f);
        lemma_pow2_unfold(e as nat);
        let p = pow2((e - 1) as nat);
        let q = pow2(e as nat);
        assert(q == 2 * p);
        assert((FRACTIONS + f) * q == 2 * ((FRACTIONS + f) * p)) by (nonlinear_arith)
            requires
                q == 2 * p,
        ;
        assert(units(next) == 2 * units(mag));
    }
    sign + (mag + FRACTIONS)
}

/// The operations on floats agree with one another: the least and the greatest of two numbers frame
/// both, a clamp between them leaves both where they are, and mirrored at zero the greatest of two
/// numbers is the least of the mirrored.
pub proof fn float_operations_agree(
    a: u32,
    b: u32,
    low: u32,
    high: u32,
    x: u32,
    held: u32,
    na: u32,
    nb: u32,
    n_low: u32,
)
    requires
        !is_nan(a),
        !is_nan(b),
        !is_nan(x),
        call_ensures(float_min, (a, b), low),
        call_ensures(float_max, (a, b), high),
        call_ensures(float_clamp, (x, low, high), held),
        call_ensures(float_negate, (a,), na),
        call_ensures(float_negate, (b,), nb),
        call_ensures(float_min, (na, nb), n_low),
    ensures
        value(low) <= value(a) <= value(high),
        value(low) <= value(b) <= value(high),
        low == a || low == b,
        high == a || high == b,
        value(low) <= value(held) <= value(high),
        value(low) <= value(x) <= value(high) ==> held == x,
        value(n_low) == -value(high),
{
    clamped_lies_between(x, low, high);
}

/// Doubling a float doubles its value and keeps its sign; what is too large becomes infinite, and
/// what is no number stays as it is. Mirrored at zero, the double is mirrored too.
pub proof fn doubling_doubles(x: u32, twice: u32, mirrored: u32, mirrored_twice: u32)
    requires
        call_ensures(float_double, (x,), twice),
        call_ensures(float_negate, (x,), mirrored),
        call_ensures(float_double, (mirrored,), mirrored_twice),
    ensures
        is_nan(x) ==> twice == x,
        !is_nan(x) ==> is_negative(twice) == is_negative(x),
        magnitude(x) <= 0x7eff_ffffu32 ==> value(twice) == 2 * value(x),
        0x7eff_ffffu32 < magnitude(x) <= 0x7f80_0000u32 ==> magnitude(twice) == 0x7f80_0000u32,
        !is_nan(x) ==> value(mirrored_twice) == -value(twice),
{
}

} // verus!
