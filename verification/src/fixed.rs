//! The scale of the fixed-point scalars and the clamped cell that stores one.

use vstd::prelude::*;

verus! {

/// Number of units that make up the scalar 1: a scalar `x` is held as the
/// whole number `x * CONVERSION_FACTOR`.
pub const CONVERSION_FACTOR: u64 = 1_000_000_000_000;

/// Why a call was rejected. A rejected call changes nothing.
#[derive(Clone, Copy, Debug, PartialEq, Eq, Structural)]
pub enum PreconditionViolation {
    /// A value of the unit interval was asked for and the one given is above 1.
    OutOfRange,
    /// Two sequences that must have the same length have not.
    LengthMismatch,
    /// A network needs an input layer, a hidden layer and an output layer.
    TooFewLayers,
    /// A handle names a cell or a cache that the store does not hold.
    UnknownCell,
}

/// A scalar of the unit interval, `0 ..= CONVERSION_FACTOR` units.
///
/// A write is all or nothing: it either replaces the value or, where the new
/// value is out of range, leaves the cell as it was.
pub struct AtomicF64Between01 {
    raw: u64,
}

impl View for AtomicF64Between01 {
    type V = u64;

    closed spec fn view(&self) -> u64 {
        self.raw
    }
}

impl Default for AtomicF64Between01 {
    /// A cell that holds 0.
    fn default() -> (r: Self)
        ensures
            r@ == 0,
    {
        AtomicF64Between01 { raw: 0 }
    }
}

impl AtomicF64Between01 {
    #[verifier::type_invariant]
    spec fn in_range(self) -> bool {
        self.raw <= CONVERSION_FACTOR
    }

    /// A cell that holds `value`, unless `value` is out of range.
    pub fn new(value: u64) -> (r: Result<Self, PreconditionViolation>)
        ensures
            value <= CONVERSION_FACTOR ==> r is Ok && r->Ok_0@ == value,
            value > CONVERSION_FACTOR ==> r == Err::<Self, _>(PreconditionViolation::OutOfRange),
    {
        let mut instance = AtomicF64Between01 { raw: 0 };
        match instance.store(value) {
            Ok(()) => Ok(instance),
            Err(e) => Err(e),
        }
    }

    /// Replaces the value, unless `value` is out of range.
    pub fn store(&mut self, value: u64) -> (r: Result<(), PreconditionViolation>)
        ensures
            value <= CONVERSION_FACTOR ==> r is Ok && final(self)@ == value,
            value > CONVERSION_FACTOR ==> r == Err::<(), _>(PreconditionViolation::OutOfRange)
                && *final(self) == *old(self),
    {
        if value > CONVERSION_FACTOR {
            return Err(PreconditionViolation::OutOfRange);
        }
        self.raw = value;
        Ok(())
    }

    /// The value held.
    pub fn load(&self) -> (r: u64)
        ensures
            r == self@,
            r <= CONVERSION_FACTOR,
    {
        proof {
            use_type_invariant(self);
        }
        self.raw
    }
}

} // verus!
