//! Single-precision numbers by their IEEE 754 bit patterns.
//!
//! Confidences and similarities are carried as `u32` bit patterns and compared as the numbers
//! that they stand for.

use vstd::arithmetic::power2::{lemma2_to64, lemma_pow2_pos, lemma_pow2_unfold, pow2};
use vstd::prelude::*;

verus! {

/// 1.0
pub const ONE: u32 = 0x3f80_0000;

/// Whether the pattern stands for no number.
pub open spec fn is_nan(bits: u32) -> bool {
    bits % 0x8000_0000 > 0x7f80_0000
}

/// Whether the pattern stands for a finite number.
pub open spec fn is_finite(bits: u32) -> bool {
    bits % 0x8000_0000 < 0x7f80_0000
}

/// A value that orders patterns as the numbers they stand for are ordered. Both zeros have the
/// same.
pub open spec fn rank(bits: u32) -> int {
    if bits < 0x8000_0000 {
        bits as int
    } else {
        0x8000_0000 - bits
    }
}

/// `a < b` as numbers.
pub open spec fn less(a: u32, b: u32) -> bool {
    !is_nan(a) && !is_nan(b) && rank(a) < rank(b)
}

/// `a >= b` as numbers.
pub open spec fn at_least(a: u32, b: u32) -> bool {
    !is_nan(a) && !is_nan(b) && rank(a) >= rank(b)
}

/// `v.clamp(0.0, 1.0)`.
pub open spec fn unit_clamped(v: u32) -> u32 {
    if less(v, 0) {
        0
    } else if less(ONE, v) {
        ONE
    } else {
        v
    }
}

/// Whether `v` lies in the unit interval.
pub open spec fn in_unit(v: u32) -> bool {
    at_least(v, 0) && at_least(ONE, v)
}

pub fn is_nan_bits(bits: u32) -> (b: bool)
    ensures
        b == is_nan(bits),
{
    bits % 0x8000_0000 > 0x7f80_0000
}

pub fn is_finite_bits(bits: u32) -> (b: bool)
    ensures
        b == is_finite(bits),
{
    bits % 0x8000_0000 < 0x7f80_0000
}

pub fn rank_of(bits: u32) -> (r: i64)
    ensures
        r == rank(bits),
{
    if bits < 0x8000_0000 {
        bits as i64
    } else {
        0x8000_0000 - bits as i64
    }
}

/// `a < b` as numbers.
pub fn less_than(a: u32, b: u32) -> (r: bool)
    ensures
        r == less(a, b),
{
    !is_nan_bits(a) && !is_nan_bits(b) && rank_of(a) < rank_of(b)
}

/// `a >= b` as numbers.
pub fn not_below(a: u32, b: u32) -> (r: bool)
    ensures
        r == at_least(a, b),
{
    !is_nan_bits(a) && !is_nan_bits(b) && rank_of(a) >= rank_of(b)
}

/// Clamps to the unit interval.
pub fn clamp_unit(v: u32) -> (r: u32)
    ensures
        r == unit_clamped(v),
{
    if less_than(v, 0) {
        0
    } else if less_than(ONE, v) {
        ONE
    } else {
        v
    }
}

/// Clamping yields a number in the unit interval, except that what is no number stays none; it
/// does nothing a second time.
pub proof fn law_clamp_is_idempotent(v: u32)
    ensures
        in_unit(unit_clamped(v)) || is_nan(unit_clamped(v)),
        is_nan(unit_clamped(v)) <==> is_nan(v),
        in_unit(v) ==> unit_clamped(v) == v,
        unit_clamped(unit_clamped(v)) == unit_clamped(v),
{
}

/// The size of the number that a pattern stands for, in units of the least positive number: the
/// low 23 bits are its digits, the eight above them its exponent, and every exponent but the least
/// adds a leading digit.
pub open spec fn magnitude(bits: u32) -> int {
    let exponent = (bits % 0x8000_0000) / 0x80_0000;
    let digits = (bits % 0x80_0000) as int;
    if exponent == 0 {
        digits
    } else {
        (0x80_0000 + digits) * pow2((exponent - 1) as nat)
    }
}

/// The number that a pattern stands for, in the same units. The topmost bit is its sign.
pub open spec fn number(bits: u32) -> int {
    if bits / 0x8000_0000 == 0 {
        magnitude(bits)
    } else {
        -magnitude(bits)
    }
}

proof fn lemma_next_magnitude(bits: u32)
    requires
        bits < 0x7f80_0000,
    ensures
        0 <= magnitude(bits) < magnitude((bits + 1) as u32),
{
    let e: int = (bits / 0x80_0000) as int;
    let m: int = (bits % 0x80_0000) as int;
    let next: u32 = (bits + 1) as u32;
    assert(bits % 0x8000_0000 == bits && next % 0x8000_0000 == next);
    if m < 0x7f_ffff {
        assert(next / 0x80_0000 == e && next % 0x80_0000 == m + 1);
    } else {
        assert(next / 0x80_0000 == e + 1 && next % 0x80_0000 == 0);
    }
    lemma2_to64();
    if e > 0 {
        lemma_pow2_pos((e - 1) as nat);
        lemma_pow2_unfold(e as nat);
        let p: int = pow2((e - 1) as nat) as int;
        assert((0x80_0000 + m) * p >= 0) by (nonlinear_arith)
            requires
                p > 0,
                m >= 0,
        ;
        assert((0x80_0000 + m) * p < (0x80_0000 + (m + 1)) * p) by (nonlinear_arith)
            requires
                p > 0,
        ;
        assert(m <= 0x7f_ffff ==> (0x80_0000 + m) * p < 0x80_0000 * (2 * p)) by (nonlinear_arith)
            requires
                p > 0,
        ;
        assert(magnitude(bits) == (0x80_0000 + m) * p);
        if m < 0x7f_ffff {
            assert(magnitude(next) == (0x80_0000 + (m + 1)) * p);
        } else {
            assert(magnitude(next) == 0x80_0000 * (2 * p));
        }
    }
}

proof fn lemma_magnitudes(a: u32, b: u32)
    requires
        a <= b <= 0x7f80_0000,
    ensures
        0 <= magnitude(a),
        a < b ==> magnitude(a) < magnitude(b),
    decreases b - a,
{
    if a < b {
        lemma_next_magnitude(a);
        lemma_magnitudes((a + 1) as u32, b);
    } else {
        lemma_pow2_pos(254);
        if a < 0x7f80_0000 {
            lemma_next_magnitude(a);
        }
    }
}

/// Patterns are compared as the numbers that they stand for.
pub proof fn law_patterns_are_ordered_as_numbers(a: u32, b: u32)
    requires
        !is_nan(a),
        !is_nan(b),
    ensures
        less(a, b) <==> number(a) < number(b),
        at_least(a, b) <==> number(a) >= number(b),
{
    let x = a % 0x8000_0000;
    let y = b % 0x8000_0000;
    assert(x % 0x8000_0000 == x && y % 0x8000_0000 == y);
    assert(x % 0x80_0000 == a % 0x80_0000 && y % 0x80_0000 == b % 0x80_0000);
    assert(magnitude(x) == magnitude(a) && magnitude(y) == magnitude(b));
    if x <= y {
        lemma_magnitudes(x, y);
    } else {
        lemma_magnitudes(y, x);
    }
    lemma_magnitudes(0, x);
    lemma_magnitudes(0, y);
    assert(magnitude(0) == 0);
}

/// What is no number is neither below nor above anything, and all other patterns are numbers.
pub proof fn law_no_number_compares_with_nothing(a: u32, b: u32)
    requires
        (a % 0x8000_0000) / 0x80_0000 == 0xff && a % 0x80_0000 != 0,
    ensures
        !less(a, b) && !less(b, a) && !at_least(a, b) && !at_least(b, a),
        !is_finite(a),
{
}

/// A pattern whose exponent is not the greatest stands for a finite number.
pub proof fn law_finite_numbers(a: u32)
    ensures
        is_finite(a) <==> (a % 0x8000_0000) / 0x80_0000 < 0xff,
        is_nan(a) <==> (a % 0x8000_0000) / 0x80_0000 == 0xff && a % 0x80_0000 != 0,
{
}

/// Clamping leaves a number of the unit interval, lifts one below to zero and lowers one above to
/// one.
pub proof fn law_clamp_moves_to_the_nearer_end(v: u32)
    requires
        !is_nan(v),
    ensures
        number(v) < 0 ==> unit_clamped(v) == 0,
        number(v) > number(0x3f80_0000) ==> unit_clamped(v) == 0x3f80_0000,
        0 <= number(v) <= number(0x3f80_0000) ==> unit_clamped(v) == v,
{
    law_patterns_are_ordered_as_numbers(v, 0);
    law_patterns_are_ordered_as_numbers(0x3f80_0000, v);
    assert(number(0) == 0);
}

} // verus!
