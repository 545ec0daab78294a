//! Integer reasoning about IEEE 754 binary32 encodings.
//!
//! An encoding is a `u32`: the top bit is the sign, the low 31 bits are the
//! magnitude (an 8-bit exponent field above a 23-bit fraction). Only what is
//! exact on encodings lives here: classification, comparison and scaling by
//! two. Nothing here rounds.

use vstd::prelude::*;

verus! {

/// The encoding's sign bit as a number: `0x8000_0000`.
pub const SIGN: u32 = 0x8000_0000;

/// The magnitude of positive infinity: exponent field all ones, fraction zero.
pub const INFINITY: u32 = 0x7f80_0000;

/// One unit of the exponent field: also the magnitude of the least normal number.
pub const EXPONENT_UNIT: u32 = 0x0080_0000;

/// The least magnitude whose exponent field is 254, the largest finite one.
pub const TOP_BINADE: u32 = 0x7f00_0000;

/// Whether the sign bit is set.
pub open spec fn is_negative(b: u32) -> bool {
    b >= SIGN
}

/// The low 31 bits: exponent field and fraction.
pub open spec fn magnitude(b: u32) -> int {
    if b >= SIGN {
        b - SIGN
    } else {
        b as int
    }
}

/// Whether the encoding is a number, finite or infinite.
pub open spec fn is_number(b: u32) -> bool {
    magnitude(b) <= INFINITY
}

/// Whether the encoding is a finite number.
pub open spec fn is_finite(b: u32) -> bool {
    magnitude(b) < INFINITY
}

/// Where a number stands in the order of the reals: the magnitude, negated
/// under a set sign bit. Both zeros stand at 0.
pub open spec fn rank(b: u32) -> int {
    if is_negative(b) {
        -magnitude(b)
    } else {
        magnitude(b)
    }
}

/// The comparison `a < b` of the encoded values: false when either is not a
/// number, and otherwise the order of the ranks.
pub open spec fn less(a: u32, b: u32) -> bool {
    is_number(a) && is_number(b) && rank(a) < rank(b)
}

/// Two to the power `e`.
pub open spec fn two_to(e: nat) -> int
    decreases e,
{
    if e == 0 {
        1
    } else {
        2 * two_to((e - 1) as nat)
    }
}

/// The absolute value of a finite encoding, counted in units of 2^-149: the
/// fraction alone under exponent field 0, and otherwise the fraction with its
/// hidden bit, shifted by the exponent field less one.
pub open spec fn scaled_magnitude(b: u32) -> int
    recommends
        is_finite(b),
{
    let m = magnitude(b);
    let e = m / (EXPONENT_UNIT as int);
    let f = m % (EXPONENT_UNIT as int);
    if e == 0 {
        f
    } else {
        (EXPONENT_UNIT + f) * two_to((e - 1) as nat)
    }
}

/// The magnitude of twice a value of magnitude `m`: below the normal range the
/// fraction doubles (and may carry into the exponent field), in the normal
/// range the exponent field grows by one, in the top binade the product
/// overflows to infinity, and infinity and non-numbers stay what they are.
pub open spec fn doubled_magnitude(m: int) -> int {
    if m < EXPONENT_UNIT {
        2 * m
    } else if m < TOP_BINADE {
        m + EXPONENT_UNIT
    } else if m < INFINITY {
        INFINITY as int
    } else {
        m
    }
}

/// The encoding of twice the value of `b`, with the sign of `b`.
pub open spec fn doubled(b: u32) -> u32 {
    if is_negative(b) {
        (SIGN + doubled_magnitude(magnitude(b))) as u32
    } else {
        doubled_magnitude(magnitude(b)) as u32
    }
}

/// The encoding of `b` doubled `k` times.
pub open spec fn doubled_times(b: u32, k: nat) -> u32
    decreases k,
{
    if k == 0 {
        b
    } else {
        doubled(doubled_times(b, (k - 1) as nat))
    }
}

/// Whether the encoding is a finite number.
pub fn encoding_is_finite(b: u32) -> (r: bool)
    ensures
        r == is_finite(b),
{
    let m: u32 = if b >= SIGN {
        b - SIGN
    } else {
        b
    };
    m < INFINITY
}

/// Whether the value of `a` is less than the value of `b`.
pub fn encoding_less(a: u32, b: u32) -> (r: bool)
    ensures
        r == less(a, b),
{
    let ma: u32 = if a >= SIGN {
        a - SIGN
    } else {
        a
    };
    let mb: u32 = if b >= SIGN {
        b - SIGN
    } else {
        b
    };
    if ma > INFINITY || mb > INFINITY {
        return false;
    }
    if a >= SIGN {
        if b >= SIGN {
            mb < ma
        } else {
            ma > 0 || mb > 0
        }
    } else {
        if b >= SIGN {
            false
        } else {
            ma < mb
        }
    }
}

/// The encoding of twice the value of `b`.
pub fn double_encoding(b: u32) -> (r: u32)
    ensures
        r == doubled(b),
{
    let negative = b >= SIGN;
    let m: u32 = if negative {
        b - SIGN
    } else {
        b
    };
    let d: u32 = if m < EXPONENT_UNIT {
        2 * m
    } else if m < TOP_BINADE {
        m + EXPONENT_UNIT
    } else if m < INFINITY {
        INFINITY
    } else {
        m
    };
    if negative {
        SIGN + d
    } else {
        d
    }
}

/// Doubling keeps the sign, and keeps a number a number.
pub proof fn lemma_doubled_keeps_sign(b: u32)
    ensures
        is_negative(doubled(b)) == is_negative(b),
        magnitude(doubled(b)) == doubled_magnitude(magnitude(b)),
        is_number(doubled(b)) == is_number(b),
{
}

/// Doubling never brings a value closer to zero.
pub proof fn lemma_doubled_never_shrinks(b: u32)
    ensures
        magnitude(doubled(b)) >= magnitude(b),
{
}

/// Below the top binade doubling is exact: the result is finite and its
/// absolute value is twice that of the argument.
pub proof fn lemma_doubled_is_twice(b: u32)
    requires
        magnitude(b) < TOP_BINADE,
    ensures
        is_finite(doubled(b)),
        scaled_magnitude(doubled(b)) == 2 * scaled_magnitude(b),
{
    let u = EXPONENT_UNIT as int;
    let m = magnitude(b);
    let d = magnitude(doubled(b));
    assert(d == doubled_magnitude(m));
    let e = m / u;
    let f = m % u;
    if m < u {
        assert(e == 0 && f == m);
        if 2 * m < u {
            assert(d / u == 0 && d % u == d);
        } else {
            assert(d / u == 1 && d % u == d - u);
            assert(two_to(0) == 1);
        }
    } else {
        assert(d == m + u);
        assert(d / u == e + 1 && d % u == f);
        assert(e >= 1);
        assert(two_to(e as nat) == 2 * two_to((e - 1) as nat));
        assert((u + f) * (2 * two_to((e - 1) as nat)) == 2 * ((u + f) * two_to((e - 1) as nat)))
            by (nonlinear_arith);
    }
}

/// Doubling `k` times multiplies the absolute value by two to the power `k`,
/// as long as the last doubling starts below the top binade.
pub proof fn lemma_doubled_times_is_power(b: u32, k: nat)
    requires
        is_finite(b),
        k > 0 ==> magnitude(doubled_times(b, (k - 1) as nat)) < TOP_BINADE,
    ensures
        is_finite(doubled_times(b, k)),
        scaled_magnitude(doubled_times(b, k)) == two_to(k) * scaled_magnitude(b),
    decreases k,
{
    if k > 0 {
        let before = doubled_times(b, (k - 1) as nat);
        if k > 1 {
            lemma_doubled_never_shrinks(doubled_times(b, (k - 2) as nat));
        }
        lemma_doubled_times_is_power(b, (k - 1) as nat);
        lemma_doubled_is_twice(before);
        assert(2 * (two_to((k - 1) as nat) * scaled_magnitude(b)) == (2 * two_to((k - 1) as nat))
            * scaled_magnitude(b)) by (nonlinear_arith);
    }
}

} // verus!
