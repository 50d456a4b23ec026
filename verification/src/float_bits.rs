//! Floating-point values by their bit patterns. Measurements travel through the library as the
//! bits of IEEE 754 singles (`u32`) and doubles (`u64`); here is the order of such values.

use vstd::prelude::*;

verus! {

/// The bits of the single `1.0`; those of `0.0` are zero.
pub const SINGLE_ONE: u32 = 0x3f80_0000;

/// The bits of the double `1.0`; those of `0.0` are zero.
pub const DOUBLE_ONE: u64 = 0x3ff0_0000_0000_0000;

/// The bits of positive infinity as a double.
pub const DOUBLE_INFINITY: u64 = 0x7ff0_0000_0000_0000;

const DOUBLE_SIGN: u64 = 0x8000_0000_0000_0000;

const SINGLE_INFINITY: u32 = 0x7f80_0000;

const SINGLE_SIGN: u32 = 0x8000_0000;

/// The magnitude bits of a double: everything but the sign.
pub open spec fn double_magnitude(bits: u64) -> int {
    if bits >= 0x8000_0000_0000_0000 {
        bits - 0x8000_0000_0000_0000
    } else {
        bits as int
    }
}

/// The place of a double on the number line: two doubles compare as their keys do, both zeros
/// have the key 0, and a NaN has none.
pub open spec fn double_key(bits: u64) -> Option<int> {
    if double_magnitude(bits) > DOUBLE_INFINITY {
        None
    } else if bits >= 0x8000_0000_0000_0000 {
        Some(-double_magnitude(bits))
    } else {
        Some(double_magnitude(bits))
    }
}

/// Neither a NaN nor an infinity.
pub open spec fn double_is_finite(bits: u64) -> bool {
    double_magnitude(bits) < DOUBLE_INFINITY
}

/// `a < b` as doubles; false when either is a NaN.
pub open spec fn double_less(a: u64, b: u64) -> bool {
    double_key(a) is Some && double_key(b) is Some && double_key(a)->0 < double_key(b)->0
}

/// `a >= b` as doubles; false when either is a NaN.
pub open spec fn double_at_least(a: u64, b: u64) -> bool {
    double_key(a) is Some && double_key(b) is Some && double_key(a)->0 >= double_key(b)->0
}

/// `a == b` as doubles: both zeros are equal, and a NaN equals nothing.
pub open spec fn double_equal(a: u64, b: u64) -> bool {
    double_key(a) is Some && double_key(a) == double_key(b)
}

/// The magnitude bits of a single.
pub open spec fn single_magnitude(bits: u32) -> int {
    if bits >= 0x8000_0000 {
        bits - 0x8000_0000
    } else {
        bits as int
    }
}

/// The place of a single on the number line, as for a double.
pub open spec fn single_key(bits: u32) -> Option<int> {
    if single_magnitude(bits) > 0x7f80_0000 {
        None
    } else if bits >= 0x8000_0000 {
        Some(-single_magnitude(bits))
    } else {
        Some(single_magnitude(bits))
    }
}

/// Neither a NaN nor an infinity.
pub open spec fn single_is_finite(bits: u32) -> bool {
    single_magnitude(bits) < 0x7f80_0000
}

/// `a < b` as singles; false when either is a NaN.
pub open spec fn single_less(a: u32, b: u32) -> bool {
    single_key(a) is Some && single_key(b) is Some && single_key(a)->0 < single_key(b)->0
}

/// `a <= b` as singles; false when either is a NaN.
pub open spec fn single_at_most(a: u32, b: u32) -> bool {
    single_key(a) is Some && single_key(b) is Some && single_key(a)->0 <= single_key(b)->0
}

/// The key of a double.
pub fn key_of_double(bits: u64) -> (key: Option<i64>)
    ensures
        key is Some <==> double_key(bits) is Some,
        key matches Some(k) ==> double_key(bits) == Some(k as int) && k > i64::MIN,
{
    if bits >= DOUBLE_SIGN {
        let magnitude: u64 = bits - DOUBLE_SIGN;
        if magnitude > DOUBLE_INFINITY {
            None
        } else {
            Some(-(magnitude as i64))
        }
    } else if bits > DOUBLE_INFINITY {
        None
    } else {
        Some(bits as i64)
    }
}

/// Whether a double is neither a NaN nor an infinity.
pub fn is_finite_double(bits: u64) -> (r: bool)
    ensures
        r == double_is_finite(bits),
{
    let magnitude: u64 = if bits >= DOUBLE_SIGN {
        bits - DOUBLE_SIGN
    } else {
        bits
    };
    magnitude < DOUBLE_INFINITY
}

/// `a < b` as doubles.
pub fn less_double(a: u64, b: u64) -> (r: bool)
    ensures
        r == double_less(a, b),
{
    match (key_of_double(a), key_of_double(b)) {
        (Some(x), Some(y)) => x < y,
        _ => false,
    }
}

/// `a >= b` as doubles.
pub fn at_least_double(a: u64, b: u64) -> (r: bool)
    ensures
        r == double_at_least(a, b),
{
    match (key_of_double(a), key_of_double(b)) {
        (Some(x), Some(y)) => x >= y,
        _ => false,
    }
}

/// `a == b` as doubles.
pub fn equal_double(a: u64, b: u64) -> (r: bool)
    ensures
        r == double_equal(a, b),
{
    match (key_of_double(a), key_of_double(b)) {
        (Some(x), Some(y)) => x == y,
        _ => false,
    }
}

/// The key of a single.
pub fn key_of_single(bits: u32) -> (key: Option<i32>)
    ensures
        key is Some <==> single_key(bits) is Some,
        key matches Some(k) ==> single_key(bits) == Some(k as int) && k > i32::MIN,
{
    if bits >= SINGLE_SIGN {
        let magnitude: u32 = bits - SINGLE_SIGN;
        if magnitude > SINGLE_INFINITY {
            None
        } else {
            Some(-(magnitude as i32))
        }
    } else if bits > SINGLE_INFINITY {
        None
    } else {
        Some(bits as i32)
    }
}

/// Whether a single is neither a NaN nor an infinity.
pub fn is_finite_single(bits: u32) -> (r: bool)
    ensures
        r == single_is_finite(bits),
{
    let magnitude: u32 = if bits >= SINGLE_SIGN {
        bits - SINGLE_SIGN
    } else {
        bits
    };
    magnitude < SINGLE_INFINITY
}

/// `a < b` as singles.
pub fn less_single(a: u32, b: u32) -> (r: bool)
    ensures
        r == single_less(a, b),
{
    match (key_of_single(a), key_of_single(b)) {
        (Some(x), Some(y)) => x < y,
        _ => false,
    }
}

/// `a <= b` as singles.
pub fn at_most_single(a: u32, b: u32) -> (r: bool)
    ensures
        r == single_at_most(a, b),
{
    match (key_of_single(a), key_of_single(b)) {
        (Some(x), Some(y)) => x <= y,
        _ => false,
    }
}

/// How singles compare, by their bits: a NaN compares with nothing; of two other singles one is
/// less or they are equal; not negative ones ascend with their bits, negative ones descend, and
/// the latter come first; both zeros are equal.
pub proof fn law_single_order(a: u32, b: u32, c: u32)
    ensures
        a % 0x8000_0000 > 0x7f80_0000 || b % 0x8000_0000 > 0x7f80_0000 ==> !single_less(a, b)
            && !single_at_most(a, b),
        a % 0x8000_0000 <= 0x7f80_0000 && b % 0x8000_0000 <= 0x7f80_0000 ==> single_less(a, b)
            != single_at_most(b, a),
        single_at_most(a, b) && single_at_most(b, c) ==> single_at_most(a, c),
        a < b <= 0x7f80_0000 ==> single_less(a, b),
        0x8000_0000 <= b < a <= 0xff80_0000 ==> single_less(a, b),
        0x8000_0000 < a <= 0xff80_0000 && b <= 0x7f80_0000 ==> single_less(a, b),
        single_at_most(0, 0x8000_0000) && single_at_most(0x8000_0000, 0),
        single_is_finite(a) <==> a % 0x8000_0000 < 0x7f80_0000,
{
}

/// How doubles compare, by their bits, as singles do.
pub proof fn law_double_order(a: u64, b: u64, c: u64)
    ensures
        a % 0x8000_0000_0000_0000 > 0x7ff0_0000_0000_0000 || b % 0x8000_0000_0000_0000
            > 0x7ff0_0000_0000_0000 ==> !double_less(a, b) && !double_at_least(a, b)
            && !double_equal(a, b),
        a % 0x8000_0000_0000_0000 <= 0x7ff0_0000_0000_0000 && b % 0x8000_0000_0000_0000
            <= 0x7ff0_0000_0000_0000 ==> double_less(a, b) != double_at_least(a, b),
        double_at_least(a, b) && double_at_least(b, c) ==> double_at_least(a, c),
        double_equal(a, b) <==> double_at_least(a, b) && double_at_least(b, a),
        a < b <= 0x7ff0_0000_0000_0000 ==> double_less(a, b),
        0x8000_0000_0000_0000 <= b < a <= 0xfff0_0000_0000_0000 ==> double_less(a, b),
        0x8000_0000_0000_0000 < a <= 0xfff0_0000_0000_0000 && b <= 0x7ff0_0000_0000_0000
            ==> double_less(a, b),
        double_equal(0, 0x8000_0000_0000_0000),
        double_is_finite(a) <==> a % 0x8000_0000_0000_0000 < 0x7ff0_0000_0000_0000,
{
}

} // verus!
