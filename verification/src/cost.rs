//! Cost of an output against what was expected.

use crate::fixed::PreconditionViolation;
use vstd::prelude::*;

verus! {

/// The values that were expected, one per output.
pub struct Expected<'a>(pub &'a [u64]);

/// The values that came out.
pub struct Output<'a>(pub &'a [u64]);

/// A measure of how far an output is from what was expected, in units of
/// 10^-24.
pub trait CostFunction {
    /// The cost of `output` against `expected`.
    fn cost(&self, output: Output, expected: Expected) -> Result<u128, PreconditionViolation>;
}

/// The sum of the squares of the differences.
pub struct Pow2CostFunction;

/// The square of the difference of two values.
pub open spec fn squared_error(output: u64, expected: u64) -> int {
    (output - expected) * (output - expected)
}

/// The squares of the differences of the first `n` values, added up.
pub open spec fn total_squared_error(output: Seq<u64>, expected: Seq<u64>, n: int) -> int
    decreases n,
{
    if n <= 0 {
        0
    } else {
        total_squared_error(output, expected, n - 1) + squared_error(output[n - 1], expected[n - 1])
    }
}

/// `x`, or the largest 128-bit integer where `x` is beyond it.
pub open spec fn capped(x: int) -> int {
    if x > u128::MAX {
        u128::MAX as int
    } else {
        x
    }
}

/// The square of the difference of two values.
fn square_of_difference(output: u64, expected: u64) -> (r: u128)
    ensures
        r == squared_error(output, expected),
{
    let distance: u64 = if output >= expected {
        output - expected
    } else {
        expected - output
    };
    assert(distance * distance <= u128::MAX && distance * distance == squared_error(
        output,
        expected,
    )) by (nonlinear_arith)
        requires
            0 <= distance <= 0xffff_ffff_ffff_ffff,
            distance == output - expected || distance == expected - output,
            squared_error(output, expected) == (output - expected) * (output - expected),
    ;
    (distance as u128) * (distance as u128)
}

impl CostFunction for Pow2CostFunction {
    /// The sum of the squares of the differences, held within the 128-bit
    /// integers. Rejects sequences of different lengths.
    fn cost(&self, output: Output, expected: Expected) -> (r: Result<u128, PreconditionViolation>)
        ensures
            output.0@.len() != expected.0@.len() ==> r == Err::<u128, _>(
                PreconditionViolation::LengthMismatch,
            ),
            output.0@.len() == expected.0@.len() ==> r is Ok && r->Ok_0 == capped(
                total_squared_error(output.0@, expected.0@, output.0@.len() as int),
            ),
    {
        let output = output.0;
        let expected = expected.0;
        if output.len() != expected.len() {
            return Err(PreconditionViolation::LengthMismatch);
        }
        let mut cost: u128 = 0;
        let mut index: usize = 0;
        while index < output.len()
            invariant
                index <= output@.len(),
                output@.len() == expected@.len(),
                cost == capped(total_squared_error(output@, expected@, index as int)),
                total_squared_error(output@, expected@, index as int) >= 0,
            decreases output@.len() - index,
        {
            let term: u128 = square_of_difference(output[index], expected[index]);
            cost = cost.saturating_add(term);
            index = index + 1;
        }
        Ok(cost)
    }
}

} // verus!
