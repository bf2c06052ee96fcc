//! Networks: an input layer, hidden layers and an output layer, each wired
//! to the one before it, with the store that their nodes read and write.

use crate::fixed::{PreconditionViolation, CONVERSION_FACTOR};
use crate::input::{readings, CachedInput, ConstantInput, Input};
use crate::layer::{fully_connected, lemma_wired_from_nothing, slots_of, Layer};
use crate::neuron::{DeviateSource, Neuron, NeuronInputStrategy};
use crate::store::{Store, StoreView};
use vstd::prelude::*;

verus! {

/// A feed-forward network whose neurons follow the strategy `S`.
///
/// The network is made once and never rewired. Its inputs are set as a
/// whole, its caches are invalidated as a whole, its outputs are read as a
/// whole. After a change of the inputs the hidden and output nodes keep
/// handing out what they remember until `dirty` is called.
pub struct Network<S> {
    store: Store,
    input: Layer<ConstantInput>,
    hidden: Vec<Layer<CachedInput<Neuron<S>>>>,
    output: Layer<CachedInput<Neuron<S>>>,
}

/// What a network is: its store and the nodes of its layers.
pub struct NetworkView<S> {
    /// What the store holds.
    pub store: StoreView,
    /// The input sources.
    pub input: Seq<ConstantInput>,
    /// The neurons of the hidden layers, layer after layer.
    pub hidden: Seq<Seq<CachedInput<Neuron<S>>>>,
    /// The neurons of the output layer.
    pub output: Seq<CachedInput<Neuron<S>>>,
}

/// Number of neurons in the layers 1 to `layer - 1` of a network with
/// these layer sizes; layer 0 is the input layer.
pub open spec fn neurons_before(sizes: Seq<usize>, layer: int) -> int
    decreases layer,
{
    if layer <= 1 {
        0
    } else {
        neurons_before(sizes, layer - 1) + sizes[layer - 1]
    }
}

/// The caches of all the nodes of these layers.
pub open spec fn slots_of_all<I>(layers: Seq<Seq<CachedInput<I>>>) -> Set<int> {
    Set::new(
        |slot: int|
            exists|k: int| 0 <= k < layers.len() && slots_of(#[trigger] layers[k]).contains(slot),
    )
}

impl<S> NetworkView<S> {
    /// Layer `k` of the neurons: the hidden layers, then the output layer.
    pub open spec fn neurons(self, k: int) -> Seq<CachedInput<Neuron<S>>> {
        if k < self.hidden.len() {
            self.hidden[k]
        } else {
            self.output
        }
    }

    /// Whether the input sources read the cells 0, 1, 2, ... of the store
    /// and these are all its cells.
    pub open spec fn inputs_in_order(self) -> bool {
        &&& self.store.cells.len() == self.input.len()
        &&& forall|j: int| 0 <= j < self.input.len() ==> (#[trigger] self.input[j]).cell == j
    }

    /// Whether every neuron has a cache of its own: the caches are numbered
    /// layer after layer, node after node.
    pub open spec fn caches_in_order(self, sizes: Seq<usize>) -> bool {
        forall|k: int, i: int|
            0 <= k <= self.hidden.len() && 0 <= i < self.neurons(k).len() ==> (
            #[trigger] self.neurons(k)[i]).slot == neurons_before(sizes, k + 1) + i
    }

    /// Whether the layers have these sizes.
    pub open spec fn has_sizes(self, sizes: Seq<usize>) -> bool {
        &&& sizes.len() >= 3
        &&& self.input.len() == sizes[0]
        &&& self.hidden.len() == sizes.len() - 2
        &&& forall|k: int|
            0 <= k < self.hidden.len() ==> (#[trigger] self.hidden[k]).len() == sizes[k + 1]
        &&& self.output.len() == sizes.last()
    }
}

impl<S: Clone> NetworkView<S> {
    /// Whether the strategy of every neuron is a copy of `strategy`.
    pub open spec fn strategies_are_copies_of(self, strategy: S) -> bool {
        forall|k: int, i: int|
            0 <= k <= self.hidden.len() && 0 <= i < self.neurons(k).len() ==> cloned(
                strategy,
                *(#[trigger] self.neurons(k)[i]).input.strategy,
            )
    }
}

impl<S: NeuronInputStrategy + Clone + 'static> NetworkView<S> {
    /// Whether each layer is wired to the one before it and to no other:
    /// the first hidden layer to the input layer, every further hidden
    /// layer to the hidden layer before it, the output layer to the last
    /// hidden layer.
    pub open spec fn feeds_forward(self) -> bool {
        &&& self.hidden.len() >= 1
        &&& fully_connected(self.hidden[0], self.input)
        &&& forall|k: int|
            1 <= k < self.hidden.len() ==> fully_connected(
                #[trigger] self.hidden[k],
                self.hidden[k - 1],
            )
        &&& fully_connected(self.output, self.hidden.last())
    }
}

impl<S> View for Network<S> {
    type V = NetworkView<S>;

    closed spec fn view(&self) -> NetworkView<S> {
        NetworkView {
            store: self.store@,
            input: self.input@,
            hidden: Seq::new(self.hidden@.len(), |k: int| self.hidden@[k]@),
            output: self.output@,
        }
    }
}

impl<S> Network<S> {
    /// The input layer.
    pub fn input(&self) -> (r: &Layer<ConstantInput>)
        ensures
            r@ == self@.input,
    {
        &self.input
    }

    /// The hidden layers, first to last.
    pub fn hidden(&self) -> (r: &Vec<Layer<CachedInput<Neuron<S>>>>)
        ensures
            r@.len() == self@.hidden.len(),
            forall|k: int| 0 <= k < r@.len() ==> (#[trigger] r@[k])@ == self@.hidden[k],
    {
        &self.hidden
    }

    /// The output layer.
    pub fn output(&self) -> (r: &Layer<CachedInput<Neuron<S>>>)
        ensures
            r@ == self@.output,
    {
        &self.output
    }

    /// The store of the network.
    pub fn store(&self) -> (r: &Store)
        ensures
            r@ == self@.store,
    {
        &self.store
    }

    /// Marks the cache of every hidden and output node invalid. To be called
    /// after the inputs were set: without it the outputs stay what they
    /// were.
    pub fn dirty(&mut self)
        ensures
            final(self)@ == (NetworkView {
                store: old(self)@.store.without(
                    slots_of_all(old(self)@.hidden) + slots_of(old(self)@.output),
                ),
                ..old(self)@
            }),
    {
        let mut k: usize = 0;
        while k < self.hidden.len()
            invariant
                k <= self.hidden@.len(),
                self.input == old(self).input,
                self.hidden == old(self).hidden,
                self.output == old(self).output,
                self.store@ == old(self).store@.without(
                    slots_of_all(old(self)@.hidden.take(k as int)),
                ),
            decreases self.hidden@.len() - k,
        {
            let ghost done = slots_of_all(old(self)@.hidden.take(k as int));
            let ghost next = slots_of_all(old(self)@.hidden.take(k + 1));
            let ghost here = slots_of(self.hidden@[k as int]@);
            self.hidden[k].dirty(&mut self.store);
            proof {
                assert forall|s: int|
                    next.contains(s) == (done.contains(s) || here.contains(s)) by {
                    if done.contains(s) {
                        let w = choose|w: int|
                            0 <= w < k && slots_of(
                                #[trigger] old(self)@.hidden.take(k as int)[w],
                            ).contains(s);
                        assert(slots_of(old(self)@.hidden.take(k + 1)[w]).contains(s));
                    }
                    if here.contains(s) {
                        assert(slots_of(old(self)@.hidden.take(k + 1)[k as int]).contains(s));
                    }
                    if next.contains(s) {
                        let w = choose|w: int|
                            0 <= w < k + 1 && slots_of(
                                #[trigger] old(self)@.hidden.take(k + 1)[w],
                            ).contains(s);
                        if w < k {
                            assert(slots_of(old(self)@.hidden.take(k as int)[w]).contains(s));
                        }
                    }
                }
                assert(self.store@.caches =~= old(self).store@.without(next).caches);
            }
            k = k + 1;
        }
        let ghost done = slots_of_all(old(self)@.hidden);
        proof {
            assert(old(self)@.hidden.take(k as int) == old(self)@.hidden);
        }
        self.output.dirty(&mut self.store);
        proof {
            assert(self.store@.caches =~= old(self).store@.without(
                done + slots_of(old(self)@.output),
            ).caches);
            assert(self@.hidden =~= old(self)@.hidden);
        }
    }
}

impl<S: NeuronInputStrategy + Clone + 'static> Network<S> {
    /// A network with layers of these sizes: `sizes[0]` constant sources
    /// that hold 0, then layers of memoised neurons, each neuron with a
    /// copy of `strategy`, a bias and weights drawn from `deviates`, an
    /// invalid cache, and one edge from every node of the layer before it.
    /// Rejects fewer than three sizes.
    pub fn new<D: DeviateSource>(sizes: Vec<usize>, strategy: S, deviates: &mut D) -> (r: Result<
        Self,
        PreconditionViolation,
    >)
        ensures
            sizes@.len() < 3 ==> r is Err && r->Err_0 == PreconditionViolation::TooFewLayers,
            sizes@.len() >= 3 ==> r is Ok && {
                let n = r->Ok_0@;
                &&& n.has_sizes(sizes@)
                &&& n.feeds_forward()
                &&& n.inputs_in_order()
                &&& n.caches_in_order(sizes@)
                &&& n.strategies_are_copies_of(strategy)
                &&& n.store.cells == Seq::new(sizes@[0] as nat, |j: int| 0u64)
                &&& n.store.caches == Seq::new(
                    neurons_before(sizes@, sizes@.len() as int) as nat,
                    |i: int| None::<u64>,
                )
            },
    {
        let len: usize = sizes.len();
        if len < 3 {
            return Err(PreconditionViolation::TooFewLayers);
        }
        let mut store = Store::new();
        let input = Layer::<ConstantInput>::default_new(sizes[0], &mut store);
        let mut hidden: Vec<Layer<CachedInput<Neuron<S>>>> = Vec::new();
        let mut i: usize = 1;
        while i < len - 1
            invariant
                len == sizes@.len(),
                len >= 3,
                1 <= i <= len - 1,
                hidden@.len() == i - 1,
                input@.len() == sizes@[0],
                forall|j: int| 0 <= j < input@.len() ==> (#[trigger] input@[j]).cell == j,
                store@.cells == Seq::new(sizes@[0] as nat, |j: int| 0u64),
                store@.caches == Seq::new(
                    neurons_before(sizes@, i as int) as nat,
                    |i: int| None::<u64>,
                ),
                neurons_before(sizes@, i as int) >= 0,
                forall|k: int|
                    0 <= k < hidden@.len() ==> (#[trigger] hidden@[k])@.len() == sizes@[k + 1],
                forall|k: int, m: int|
                    0 <= k < hidden@.len() && 0 <= m < hidden@[k]@.len() ==> (
                    #[trigger] hidden@[k]@[m]).slot == neurons_before(sizes@, k + 1) + m,
                forall|k: int, m: int|
                    0 <= k < hidden@.len() && 0 <= m < hidden@[k]@.len() ==> cloned(
                        strategy,
                        *(#[trigger] hidden@[k]@[m]).input.strategy,
                    ),
                hidden@.len() >= 1 ==> fully_connected(hidden@[0]@, input@),
                forall|k: int|
                    1 <= k < hidden@.len() ==> fully_connected(
                        #[trigger] hidden@[k]@,
                        hidden@[k - 1]@,
                    ),
            decreases len - i,
        {
            let mut layer = Layer::<CachedInput<Neuron<S>>>::default_new(
                sizes[i],
                &strategy,
                &mut store,
                deviates,
            );
            let ghost fresh = layer@;
            if hidden.len() == 0 {
                layer.connect(&input, deviates);
                proof {
                    lemma_wired_from_nothing(fresh, layer@, input@);
                }
            } else {
                layer.connect(&hidden[hidden.len() - 1], deviates);
                proof {
                    lemma_wired_from_nothing(fresh, layer@, hidden@[hidden@.len() - 1]@);
                }
            }
            proof {
                assert(store@.caches =~= Seq::new(
                    neurons_before(sizes@, i + 1) as nat,
                    |i: int| None::<u64>,
                ));
            }
            hidden.push(layer);
            i = i + 1;
        }
        let mut output = Layer::<CachedInput<Neuron<S>>>::default_new(
            sizes[len - 1],
            &strategy,
            &mut store,
            deviates,
        );
        let ghost fresh = output@;
        output.connect(&hidden[hidden.len() - 1], deviates);
        proof {
            lemma_wired_from_nothing(fresh, output@, hidden@[hidden@.len() - 1]@);
            assert(store@.caches =~= Seq::new(
                neurons_before(sizes@, len as int) as nat,
                |i: int| None::<u64>,
            ));
        }
        let network = Network { store, input, hidden, output };
        proof {
            let n = network@;
            assert(n.hidden.last() == hidden@[hidden@.len() - 1]@);
            assert(n.hidden[0] == hidden@[0]@);
            assert forall|k: int| 1 <= k < n.hidden.len() implies fully_connected(
                #[trigger] n.hidden[k],
                n.hidden[k - 1],
            ) by {
                assert(fully_connected(hidden@[k]@, hidden@[k - 1]@));
            }
        }
        Ok(network)
    }

    /// Sets the inputs, first value to first source. Rejects a number of
    /// values other than the number of sources, then a value above 1; a
    /// rejected call sets none.
    pub fn set_input(&mut self, values: Vec<u64>) -> (r: Result<(), PreconditionViolation>)
        requires
            old(self)@.inputs_in_order(),
        ensures
            values@.len() != old(self)@.input.len() ==> r is Err && r->Err_0
                == PreconditionViolation::LengthMismatch,
            values@.len() == old(self)@.input.len() && (exists|j: int|
                0 <= j < values@.len() && #[trigger] values@[j] > CONVERSION_FACTOR) ==> r is Err
                && r->Err_0 == PreconditionViolation::OutOfRange,
            values@.len() == old(self)@.input.len() && (forall|j: int|
                0 <= j < values@.len() ==> #[trigger] values@[j] <= CONVERSION_FACTOR) ==> r is Ok,
            r is Ok ==> final(self)@ == (NetworkView {
                store: StoreView { cells: values@, ..old(self)@.store },
                ..old(self)@
            }),
            r is Err ==> final(self)@ == old(self)@,
    {
        if values.len() != self.input.len() {
            return Err(PreconditionViolation::LengthMismatch);
        }
        let mut j: usize = 0;
        while j < values.len()
            invariant
                j <= values@.len(),
                values@.len() == old(self)@.input.len(),
                *self == *old(self),
                forall|m: int| 0 <= m < j ==> #[trigger] values@[m] <= CONVERSION_FACTOR,
            decreases values@.len() - j,
        {
            if values[j] > CONVERSION_FACTOR {
                return Err(PreconditionViolation::OutOfRange);
            }
            j = j + 1;
        }
        let mut j: usize = 0;
        while j < values.len()
            invariant
                j <= values@.len(),
                values@.len() == self.input@.len(),
                forall|m: int|
                    0 <= m < values@.len() ==> #[trigger] values@[m] <= CONVERSION_FACTOR,
                self.input == old(self).input,
                self.hidden == old(self).hidden,
                self.output == old(self).output,
                self@.inputs_in_order(),
                self.store@.caches == old(self).store@.caches,
                self.store@.cells.len() == values@.len(),
                forall|m: int| 0 <= m < j ==> #[trigger] self.store@.cells[m] == values@[m],
            decreases values@.len() - j,
        {
            match self.input.get(j) {
                Some(source) => {
                    let _ = source.replace_with(&mut self.store, values[j]);
                },
                None => {},
            }
            j = j + 1;
        }
        proof {
            assert(self.store@.cells =~= values@);
            assert(self@.hidden =~= old(self)@.hidden);
        }
        Ok(())
    }

    /// Reads the output nodes, first to last. A node whose cache is valid
    /// hands out what it remembers; any other is computed from the layer
    /// before it, which fills the caches on the way.
    pub fn output_values(&mut self) -> (r: Vec<u64>)
        ensures
            (r@, final(self)@.store) == readings(old(self)@.output, old(self)@.store),
            r@.len() == old(self)@.output.len(),
            forall|i: int| 0 <= i < r@.len() ==> #[trigger] r@[i] <= CONVERSION_FACTOR,
            final(self)@ == (NetworkView { store: final(self)@.store, ..old(self)@ }),
            final(self)@.store.cells == old(self)@.store.cells,
    {
        let mut values: Vec<u64> = Vec::new();
        let mut i: usize = 0;
        while i < self.output.len()
            invariant
                i <= self.output@.len(),
                self.input == old(self).input,
                self.hidden == old(self).hidden,
                self.output == old(self).output,
                self.store@.cells == old(self).store@.cells,
                (values@, self.store@) == readings(self.output@.take(i as int), old(self).store@),
                values@.len() == i,
                forall|m: int|
                    0 <= m < values@.len() ==> #[trigger] values@[m] <= CONVERSION_FACTOR,
            decreases self.output@.len() - i,
        {
            match self.output.get(i) {
                Some(node) => {
                    let v: u64 = node.value(&mut self.store);
                    proof {
                        assert(self.output@.take(i + 1).drop_last() == self.output@.take(i as int));
                    }
                    values.push(v);
                },
                None => {},
            }
            i = i + 1;
        }
        proof {
            assert(self.output@.take(i as int) == self.output@);
            assert(self@.hidden =~= old(self)@.hidden);
        }
        values
    }
}

} // verus!
