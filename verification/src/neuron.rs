//! Neurons: sources that weigh other sources, add a bias and let a strategy
//! decide what comes out.

use crate::fixed::CONVERSION_FACTOR;
use crate::input::{BoxClone, BoxedInput, CachedInput, Input, WeightedInput};
use crate::store::{Store, StoreView};
use std::sync::Arc;
use vstd::pervasive::strictly_cloned;
use vstd::prelude::*;

verus! {

/// Where the random part of a new neuron comes from: a sequence of
/// deviates of the standard normal distribution, in units of 10^-12.
pub trait DeviateSource {
    /// The next deviate.
    fn next_deviate(&mut self) -> i64;
}

/// What the edges carry when they are read one after the other, first
/// edge first, and the store that the last reading leaves.
pub open spec fn contributions(inputs: Seq<WeightedInput>, st: StoreView) -> (Seq<int>, StoreView)
    decreases inputs.len(),
{
    if inputs.len() == 0 {
        (Seq::empty(), st)
    } else {
        let (before, st1) = contributions(inputs.drop_last(), st);
        let (last, st2) = inputs.last().eval(st1);
        (before.push(last), st2)
    }
}

/// `x`, or the nearest bound of the 128-bit integers where `x` is beyond
/// them.
pub open spec fn saturate(x: int) -> int {
    if x > i128::MAX {
        i128::MAX as int
    } else if x < i128::MIN {
        i128::MIN as int
    } else {
        x
    }
}

/// The terms added up from the first on, each partial sum held within the
/// 128-bit integers.
pub open spec fn saturating_sum(terms: Seq<int>) -> int
    decreases terms.len(),
{
    if terms.len() == 0 {
        0
    } else {
        saturate(saturating_sum(terms.drop_last()) + terms.last())
    }
}

/// The terms added up.
pub open spec fn sum(terms: Seq<int>) -> int
    decreases terms.len(),
{
    if terms.len() == 0 {
        0
    } else {
        sum(terms.drop_last()) + terms.last()
    }
}

/// The net input of a neuron in store `st`, in units of 10^-24: what its
/// edges carry, added up, plus its bias; and the store that reading the
/// edges leaves.
pub open spec fn net_input(inputs: Seq<WeightedInput>, bias: i64, st: StoreView) -> (
    int,
    StoreView,
) {
    let (terms, st1) = contributions(inputs, st);
    (saturate(saturating_sum(terms) + bias * CONVERSION_FACTOR), st1)
}

/// Where no term is beyond `bound` in size and the terms are few enough for
/// their bounds to add up within the 128-bit integers, the saturating sum is
/// the sum.
pub proof fn lemma_saturating_sum_exact(terms: Seq<int>, bound: int)
    requires
        0 <= bound,
        forall|i: int| 0 <= i < terms.len() ==> -bound <= #[trigger] terms[i] <= bound,
        terms.len() * bound <= i128::MAX,
    ensures
        saturating_sum(terms) == sum(terms),
        -(terms.len() * bound) <= sum(terms) <= terms.len() * bound,
    decreases terms.len(),
{
    if terms.len() > 0 {
        let front = terms.drop_last();
        assert(front.len() * bound <= terms.len() * bound) by (nonlinear_arith)
            requires
                front.len() + 1 == terms.len(),
                0 <= bound,
        ;
        assert(front.len() * bound + bound == terms.len() * bound) by (nonlinear_arith)
            requires
                front.len() + 1 == terms.len(),
        ;
        lemma_saturating_sum_exact(front, bound);
    } else {
        assert(terms.len() * bound == 0) by (nonlinear_arith)
            requires
                terms.len() == 0,
        ;
    }
}

/// Largest size of what one edge can carry: a value of at most 1 times a
/// 64-bit weight.
pub open spec fn edge_bound() -> int {
    CONVERSION_FACTOR * 0x8000_0000_0000_0000
}

/// With at most 16 million edges, none of which carries more than
/// `edge_bound()`, nothing saturates: the net input is the sum of what the
/// edges carry plus the bias.
pub proof fn lemma_net_input_exact(terms: Seq<int>, bias: i64)
    requires
        terms.len() <= 16_000_000,
        forall|i: int|
            0 <= i < terms.len() ==> -edge_bound() <= #[trigger] terms[i] <= edge_bound(),
    ensures
        saturate(saturating_sum(terms) + bias * CONVERSION_FACTOR) == sum(terms) + bias
            * CONVERSION_FACTOR,
{
    assert(terms.len() * edge_bound() <= 16_000_000 * edge_bound()) by (nonlinear_arith)
        requires
            terms.len() <= 16_000_000,
            0 <= edge_bound(),
    ;
    lemma_saturating_sum_exact(terms, edge_bound());
    assert(-edge_bound() <= bias * CONVERSION_FACTOR <= edge_bound()) by (nonlinear_arith)
        requires
            -0x8000_0000_0000_0000 <= bias < 0x8000_0000_0000_0000,
            CONVERSION_FACTOR == 1_000_000_000_000,
            edge_bound() == CONVERSION_FACTOR * 0x8000_0000_0000_0000,
    ;
}

/// Adds `term` to `acc`, stopping at the bounds of the 128-bit integers.
fn saturating_add(acc: i128, term: i128) -> (r: i128)
    ensures
        r == saturate(acc + term),
{
    match acc.checked_add(term) {
        Some(s) => s,
        None => if term > 0 {
            i128::MAX
        } else {
            i128::MIN
        },
    }
}

/// Reads the edges in order and computes the net input of a neuron.
pub fn weighted_sum(inputs: &[WeightedInput], bias: i64, store: &mut Store) -> (z: i128)
    ensures
        (z as int, final(store)@) == net_input(inputs@, bias, old(store)@),
        final(store)@.cells == old(store)@.cells,
{
    let mut acc: i128 = 0;
    let mut i: usize = 0;
    let ghost mut terms: Seq<int> = Seq::empty();
    while i < inputs.len()
        invariant
            i <= inputs@.len(),
            (terms, store@) == contributions(inputs@.take(i as int), old(store)@),
            store@.cells == old(store)@.cells,
            acc == saturating_sum(terms),
        decreases inputs@.len() - i,
    {
        let term: i128 = inputs[i].value(store);
        proof {
            assert(inputs@.take(i + 1).drop_last() == inputs@.take(i as int));
            assert(terms.push(term as int).drop_last() == terms);
            terms = terms.push(term as int);
        }
        acc = saturating_add(acc, term);
        i = i + 1;
    }
    proof {
        assert(inputs@.take(i as int) == inputs@);
    }
    assert(i128::MIN <= bias * CONVERSION_FACTOR <= i128::MAX) by (nonlinear_arith)
        requires
            -0x8000_0000_0000_0000 <= bias < 0x8000_0000_0000_0000,
            CONVERSION_FACTOR == 1_000_000_000_000,
    ;
    saturating_add(acc, (bias as i128) * (CONVERSION_FACTOR as i128))
}

/// How a neuron turns its edges and its bias into a value.
///
/// A strategy is a function: the same edges, the same bias and the same
/// store give the same value and leave the same store.
pub trait NeuronInputStrategy {
    /// The value of a neuron with these edges and this bias in store `st`,
    /// and the store that the reading leaves. A strategy overrides this to
    /// say which function it is. Where it does not, the function stays
    /// unknown: contracts and laws that speak of `eval` then tell nothing
    /// of the strategy beyond the range of its values and the cells that it
    /// leaves alone.
    closed spec fn eval(&self, inputs: Seq<WeightedInput>, bias: i64, st: StoreView) -> (
        u64,
        StoreView,
    ) {
        arbitrary()
    }

    /// Reads the edges and computes the value of the neuron. The reading
    /// leaves the cells of the store as they are.
    fn value(&self, inputs: &[WeightedInput], bias: i64, store: &mut Store) -> (r: u64)
        ensures
            r <= CONVERSION_FACTOR,
            (r, final(store)@) == self.eval(inputs@, bias, old(store)@),
            final(store)@.cells == old(store)@.cells,
    ;
}

/// What can be wired: a node with incoming edges.
pub trait NeuronLike {
    /// The incoming edges, in the order in which they were added.
    spec fn edges(&self) -> Seq<WeightedInput>;

    /// What a node is made of besides its edges.
    type Rest;

    /// The node without its edges.
    spec fn rest(&self) -> Self::Rest;

    /// Adds an edge from a copy of `input`, with weight `weight`, behind the
    /// edges that are there.
    fn add_input<I: BoxClone>(&mut self, input: &I, weight: i64)
        ensures
            final(self).edges().len() == old(self).edges().len() + 1,
            final(self).edges().drop_last() == old(self).edges(),
            final(self).edges().last().weight == weight,
            final(self).edges().last().reads(input),
            final(self).rest() == old(self).rest(),
    ;
}

/// A node with any number of weighted inputs and a bias, whose value the
/// strategy `S` decides.
pub struct Neuron<S> {
    /// How the value is decided; shared by the copies of the neuron.
    pub strategy: Arc<S>,
    /// The incoming edges, in the order in which they were added.
    pub inputs: Vec<WeightedInput>,
    /// What is added to the weighted inputs, in units of 10^-12.
    pub bias: i64,
}

impl<S> Neuron<S> {
    /// A neuron without inputs, whose bias is the next deviate of
    /// `deviates`.
    pub fn new<D: DeviateSource>(strategy: S, deviates: &mut D) -> (r: Self)
        ensures
            *r.strategy == strategy,
            r.inputs@ == Seq::<WeightedInput>::empty(),
    {
        let bias: i64 = deviates.next_deviate();
        Neuron { strategy: Arc::new(strategy), inputs: Vec::new(), bias }
    }

    /// The neuron with its bias replaced.
    pub fn with_bias(self, bias: i64) -> (r: Self)
        ensures
            r.bias == bias,
            r.strategy == self.strategy,
            r.inputs == self.inputs,
    {
        let mut neuron = self;
        neuron.bias = bias;
        neuron
    }

    /// The neuron with one more edge, from a copy of `input`.
    pub fn and_input<I: BoxClone>(self, input: &I, weight: i64) -> (r: Self)
        ensures
            r.inputs@.len() == self.inputs@.len() + 1,
            r.inputs@.drop_last() == self.inputs@,
            r.inputs@.last().weight == weight,
            r.inputs@.last().reads(input),
            r.strategy == self.strategy,
            r.bias == self.bias,
    {
        let mut neuron = self;
        neuron.add_input(input, weight);
        neuron
    }

    /// Adds an edge from a copy of `input`, with weight `weight`, behind the
    /// edges that are there.
    pub fn add_input<I: BoxClone>(&mut self, input: &I, weight: i64)
        ensures
            final(self).inputs@.len() == old(self).inputs@.len() + 1,
            final(self).inputs@.drop_last() == old(self).inputs@,
            final(self).inputs@.last().weight == weight,
            final(self).inputs@.last().reads(input),
            final(self).strategy == old(self).strategy,
            final(self).bias == old(self).bias,
    {
        self.inputs.push(WeightedInput::new(input, weight));
    }
}

impl<S> Clone for Neuron<S> {
    /// A neuron with the same strategy, the same edges and the same bias.
    fn clone(&self) -> (r: Self)
        ensures
            r.strategy == self.strategy,
            r.inputs@ == self.inputs@,
            r.bias == self.bias,
    {
        let inputs = self.inputs.clone();
        assert(inputs@ =~= self.inputs@);
        Neuron { strategy: self.strategy.clone(), inputs, bias: self.bias }
    }
}

impl<S: NeuronInputStrategy + 'static> Input for Neuron<S> {
    open spec fn eval(&self, st: StoreView) -> (u64, StoreView) {
        self.strategy.eval(self.inputs@, self.bias, st)
    }

    fn value(&self, store: &mut Store) -> (r: u64) {
        self.strategy.value(self.inputs.as_slice(), self.bias, store)
    }

    proof fn copy_reads_alike(&self, copy: &Self) {
        assert(strictly_cloned(*self, *copy) ==> copy.strategy == self.strategy && copy.inputs@
            == self.inputs@ && copy.bias == self.bias);
    }
}

impl<S: NeuronInputStrategy + 'static> BoxClone for Neuron<S> {
    fn box_clone(&self) -> (r: BoxedInput) {
        let copy = self.clone();
        proof {
            self.copy_reads_alike(&copy);
        }
        BoxedInput { node: Box::new(copy) }
    }
}

impl<S> NeuronLike for Neuron<S> {
    open spec fn edges(&self) -> Seq<WeightedInput> {
        self.inputs@
    }

    type Rest = (Arc<S>, i64);

    open spec fn rest(&self) -> (Arc<S>, i64) {
        (self.strategy, self.bias)
    }

    fn add_input<I: BoxClone>(&mut self, input: &I, weight: i64) {
        self.inputs.push(WeightedInput::new(input, weight));
    }
}

impl<N: NeuronLike> NeuronLike for CachedInput<N> {
    open spec fn edges(&self) -> Seq<WeightedInput> {
        self.input.edges()
    }

    type Rest = (usize, N::Rest);

    open spec fn rest(&self) -> (usize, N::Rest) {
        (self.slot, self.input.rest())
    }

    fn add_input<I: BoxClone>(&mut self, input: &I, weight: i64) {
        self.input.add_input(input, weight);
    }
}

} // verus!
