//! Single-precision numbers as the library carries them: by their IEEE-754
//! bit pattern, one `u32` each. The library never does arithmetic on such a
//! number. It only compares, and a comparison needs the bits alone.

use vstd::prelude::*;

verus! {

/// Bit pattern of positive zero.
pub const ZERO: u32 = 0;

/// Bit pattern of minus one.
pub const MINUS_ONE: u32 = 0xbf80_0000;

/// Bit pattern of the tolerance within which two points count as one
/// (a thousandth of a map unit).
pub const COLOCATED: u32 = 0x3a83_126f;

/// Bit pattern of the least sine of the angle between two edges of a face's
/// triangle for which the triangle still spans a plane (a millionth).
pub const COLLINEAR: u32 = 0x3586_37bd;

/// Bit pattern of positive infinity: the largest magnitude that is a number.
pub const INFINITE: u32 = 0x7f80_0000;

/// The pattern without its sign bit.
pub open spec fn magnitude(bits: u32) -> int {
    if bits >= 0x8000_0000 {
        bits - 0x8000_0000
    } else {
        bits as int
    }
}

/// The sign bit is set.
pub open spec fn signed(bits: u32) -> bool {
    bits >= 0x8000_0000
}

/// The pattern is no number: all exponent bits set and a mantissa that is not zero.
pub open spec fn is_nan(bits: u32) -> bool {
    magnitude(bits) > INFINITE
}

/// Where a number stands on the line. Both zeros stand at 0, and of two
/// numbers the smaller has the smaller rank. Meaningless for a NaN.
pub open spec fn rank(bits: u32) -> int {
    if signed(bits) {
        -magnitude(bits)
    } else {
        magnitude(bits)
    }
}

/// `a < b` as IEEE-754 orders two numbers: false as soon as one is a NaN.
pub open spec fn less(a: u32, b: u32) -> bool {
    !is_nan(a) && !is_nan(b) && rank(a) < rank(b)
}

/// `a == b` as IEEE-754 has it: the zeros are equal, a NaN equals nothing.
pub open spec fn same(a: u32, b: u32) -> bool {
    !is_nan(a) && !is_nan(b) && rank(a) == rank(b)
}

/// `0 < a`.
pub open spec fn is_positive(a: u32) -> bool {
    less(ZERO, a)
}

/// `a == 0`, for either zero.
pub open spec fn is_zero(a: u32) -> bool {
    same(a, ZERO)
}

fn magnitude_of(bits: u32) -> (m: u32)
    ensures
        m == magnitude(bits),
{
    if bits >= 0x8000_0000 {
        bits - 0x8000_0000
    } else {
        bits
    }
}

/// Tells whether the pattern is a NaN.
pub fn nan(bits: u32) -> (r: bool)
    ensures
        r == is_nan(bits),
{
    magnitude_of(bits) > INFINITE
}

/// Compares two numbers by their patterns: `a < b`.
pub fn lt(a: u32, b: u32) -> (r: bool)
    ensures
        r == less(a, b),
{
    if nan(a) || nan(b) {
        return false;
    }
    let ma = magnitude_of(a);
    let mb = magnitude_of(b);
    if a >= 0x8000_0000 {
        if b >= 0x8000_0000 {
            mb < ma
        } else {
            ma > 0 || mb > 0
        }
    } else {
        if b >= 0x8000_0000 {
            false
        } else {
            ma < mb
        }
    }
}

/// Compares two numbers by their patterns: `a > b`.
pub fn gt(a: u32, b: u32) -> (r: bool)
    ensures
        r == less(b, a),
{
    lt(b, a)
}

/// Compares two numbers by their patterns: `a == b`.
pub fn eq(a: u32, b: u32) -> (r: bool)
    ensures
        r == same(a, b),
{
    if nan(a) || nan(b) {
        return false;
    }
    let ma = magnitude_of(a);
    let mb = magnitude_of(b);
    if ma == 0 && mb == 0 {
        true
    } else {
        a == b
    }
}

/// Tells whether a number is above zero.
pub fn positive(a: u32) -> (r: bool)
    ensures
        r == is_positive(a),
{
    lt(ZERO, a)
}

/// Tells whether a number is zero.
pub fn zero(a: u32) -> (r: bool)
    ensures
        r == is_zero(a),
{
    eq(a, ZERO)
}

/// Of numbers, `less` is a strict order that takes the two zeros for one.
pub proof fn less_is_strict_order(a: u32, b: u32, c: u32)
    ensures
        !less(a, a),
        less(a, b) ==> !less(b, a),
        less(a, b) && less(b, c) ==> less(a, c),
        !is_nan(a) && !is_nan(b) ==> less(a, b) || less(b, a) || same(a, b),
{
}

} // verus!
