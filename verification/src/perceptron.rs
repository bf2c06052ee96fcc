//! The step strategy: a neuron that fires or does not.

use crate::fixed::CONVERSION_FACTOR;
use crate::input::WeightedInput;
use crate::neuron::{net_input, weighted_sum, Neuron, NeuronInputStrategy};
use crate::store::{Store, StoreView};
use vstd::prelude::*;

verus! {

/// A neuron whose value is either 0 or 1.
pub type Perceptron = Neuron<PerceptronStrategy>;

/// The hard threshold: 0 where the net input is at most 0, 1 above.
#[derive(Clone, Copy)]
pub struct PerceptronStrategy;

/// The output of the threshold for net input `z`.
pub open spec fn step(z: int) -> u64 {
    if z <= 0 {
        0
    } else {
        CONVERSION_FACTOR
    }
}

impl NeuronInputStrategy for PerceptronStrategy {
    open spec fn eval(&self, inputs: Seq<WeightedInput>, bias: i64, st: StoreView) -> (
        u64,
        StoreView,
    ) {
        (step(net_input(inputs, bias, st).0), net_input(inputs, bias, st).1)
    }

    /// 0 where the net input is at most 0, 1 where it is above.
    fn value(&self, inputs: &[WeightedInput], bias: i64, store: &mut Store) -> (r: u64)
        ensures
            net_input(inputs@, bias, old(store)@).0 <= 0 ==> r == 0,
            net_input(inputs@, bias, old(store)@).0 > 0 ==> r == CONVERSION_FACTOR,
            final(store)@ == net_input(inputs@, bias, old(store)@).1,
    {
        let z: i128 = weighted_sum(inputs, bias, store);
        if z <= 0 {
            0
        } else {
            CONVERSION_FACTOR
        }
    }
}

} // verus!
