//! What a network computes: the values of its layers as a function of its
//! inputs, and the laws that tie the memoised reading to that function.

use crate::fixed::CONVERSION_FACTOR;
use crate::input::{readings, CachedInput, Input, WeightedInput};
use crate::layer::{fully_connected, slots_of};
use crate::network::{neurons_before, slots_of_all, NetworkView};
use crate::neuron::{
    contributions, net_input, saturate, saturating_sum, NeuronInputStrategy, NeuronLike,
};
use crate::perceptron::{step, PerceptronStrategy};
use crate::store::StoreView;
use vstd::prelude::*;

verus! {

/// Whether `strategy` turns the net input of a neuron into its value by
/// `act`, whatever the edges are and whatever the store holds.
pub open spec fn decides_by<S: NeuronInputStrategy>(
    strategy: &S,
    act: spec_fn(int) -> u64,
) -> bool {
    forall|inputs: Seq<WeightedInput>, bias: i64, st: StoreView| #[trigger]
        strategy.eval(inputs, bias, st) == (
            act(net_input(inputs, bias, st).0),
            net_input(inputs, bias, st).1,
        )
}

/// Whether store `after` has every valid cache of `before`, with the same
/// content: between the two, caches were filled at most.
pub open spec fn keeps(before: StoreView, after: StoreView) -> bool {
    &&& after.caches.len() == before.caches.len()
    &&& forall|slot: usize| #[trigger]
        before.cached(slot) is Some ==> after.cached(slot) == before.cached(slot)
}

/// What the edges carry when their sources have the values `below`: for
/// each edge the value of its source times its weight.
pub open spec fn weighed(edges: Seq<WeightedInput>, below: Seq<u64>) -> Seq<int> {
    Seq::new(edges.len(), |j: int| below[j] * edges[j].weight)
}

/// The net input of a neuron whose sources have the values `below`.
pub open spec fn net_input_of(edges: Seq<WeightedInput>, bias: i64, below: Seq<u64>) -> int {
    saturate(saturating_sum(weighed(edges, below)) + bias * CONVERSION_FACTOR)
}

impl<S> NetworkView<S> {
    /// The values of layer `k` as the inputs determine them: layer 0 holds
    /// the inputs, every other layer the values that its neurons compute
    /// from the layer before it by `act`. Caches play no part in it.
    pub open spec fn layer_values(self, act: spec_fn(int) -> u64, k: int) -> Seq<u64>
        decreases k,
    {
        if k <= 0 {
            Seq::new(self.input.len(), |j: int| self.store.cell(self.input[j].cell))
        } else {
            let below = self.layer_values(act, k - 1);
            let nodes = self.neurons(k - 1);
            Seq::new(
                nodes.len(),
                |i: int| act(net_input_of(nodes[i].input.inputs@, nodes[i].input.bias, below)),
            )
        }
    }

    /// The values of the output layer as the inputs determine them.
    pub open spec fn forward(self, act: spec_fn(int) -> u64) -> Seq<u64> {
        self.layer_values(act, self.hidden.len() as int + 1)
    }

    /// Whether no two neurons share a cache.
    pub open spec fn caches_apart(self) -> bool {
        forall|k: int, i: int, m: int, j: int|
            0 <= k <= self.hidden.len() && 0 <= i < self.neurons(k).len() && 0 <= m
                <= self.hidden.len() && 0 <= j < self.neurons(m).len() && (
            #[trigger] self.neurons(k)[i]).slot == (#[trigger] self.neurons(m)[j]).slot ==> k == m
                && i == j
    }

    /// Whether every cache of a neuron is a cache of the store.
    pub open spec fn caches_in_store(self) -> bool {
        forall|k: int, i: int|
            0 <= k <= self.hidden.len() && 0 <= i < self.neurons(k).len() ==> (
            #[trigger] self.neurons(k)[i]).slot < self.store.caches.len()
    }

    /// Whether store `st` holds the inputs of this network and every cache
    /// of it that is valid holds the value that the inputs determine for its
    /// neuron.
    pub open spec fn agrees(self, act: spec_fn(int) -> u64, st: StoreView) -> bool {
        &&& st.cells == self.store.cells
        &&& forall|k: int, i: int|
            0 <= k <= self.hidden.len() && 0 <= i < self.neurons(k).len() ==> (st.cached(
                (#[trigger] self.neurons(k)[i]).slot,
            ) matches Some(v) ==> v == self.layer_values(act, k + 1)[i])
    }

    /// Whether every neuron of the network decides by `act`.
    pub open spec fn all_decide_by(self, act: spec_fn(int) -> u64) -> bool where
        S: NeuronInputStrategy,
     {
        forall|k: int, i: int|
            0 <= k <= self.hidden.len() && 0 <= i < self.neurons(k).len() ==> decides_by(
                &*(#[trigger] self.neurons(k)[i]).input.strategy,
                act,
            )
    }
}

/// If reading any of `sources` in a store that satisfies `inv` yields its
/// value of `vals`, fills caches at most and leaves a store that satisfies
/// `inv`, then edges that read these sources carry the values times the
/// weights, and reading them all fills caches at most and leaves a store
/// that satisfies `inv`.
proof fn lemma_contributions<M: Input>(
    edges: Seq<WeightedInput>,
    sources: Seq<M>,
    vals: Seq<u64>,
    inv: spec_fn(StoreView) -> bool,
    st: StoreView,
)
    requires
        edges.len() == sources.len(),
        vals.len() == sources.len(),
        forall|j: int| 0 <= j < edges.len() ==> (#[trigger] edges[j]).reads(&sources[j]),
        forall|j: int, s: StoreView|
            0 <= j < sources.len() && inv(s) ==> (#[trigger] sources[j].eval(s)).0 == vals[j]
                && inv(sources[j].eval(s).1) && keeps(s, sources[j].eval(s).1),
        inv(st),
    ensures
        contributions(edges, st).0 == weighed(edges, vals),
        inv(contributions(edges, st).1),
        keeps(st, contributions(edges, st).1),
    decreases edges.len(),
{
    if edges.len() == 0 {
    } else {
        let front = edges.drop_last();
        let front_sources = sources.drop_last();
        let front_vals = vals.drop_last();
        assert forall|j: int| 0 <= j < front.len() implies (#[trigger] front[j]).reads(
            &front_sources[j],
        ) by {}
        assert forall|j: int, s: StoreView| 0 <= j < front_sources.len() && inv(s) implies (
        #[trigger] front_sources[j].eval(s)).0 == front_vals[j] && inv(
            front_sources[j].eval(s).1,
        ) && keeps(s, front_sources[j].eval(s).1) by {}
        lemma_contributions(front, front_sources, front_vals, inv, st);
    }
}

/// If reading any of `nodes` in a store that satisfies `inv` yields its
/// value of `vals`, fills caches at most and leaves a store that satisfies
/// `inv`, then reading them all yields `vals`, fills caches at most and
/// leaves a store that satisfies `inv`.
proof fn lemma_readings<M: Input>(
    nodes: Seq<M>,
    vals: Seq<u64>,
    inv: spec_fn(StoreView) -> bool,
    st: StoreView,
)
    requires
        vals.len() == nodes.len(),
        forall|j: int, s: StoreView|
            0 <= j < nodes.len() && inv(s) ==> (#[trigger] nodes[j].eval(s)).0 == vals[j] && inv(
                nodes[j].eval(s).1,
            ) && keeps(s, nodes[j].eval(s).1),
        inv(st),
    ensures
        readings(nodes, st).0 == vals,
        inv(readings(nodes, st).1),
        keeps(st, readings(nodes, st).1),
    decreases nodes.len(),
{
    if nodes.len() == 0 {
    } else {
        let front = nodes.drop_last();
        let front_vals = vals.drop_last();
        assert forall|j: int, s: StoreView| 0 <= j < front.len() && inv(s) implies (
        #[trigger] front[j].eval(s)).0 == front_vals[j] && inv(front[j].eval(s).1) && keeps(
            s,
            front[j].eval(s).1,
        ) by {}
        lemma_readings(front, front_vals, inv, st);
    }
}

/// A memoised neuron that is wired to `sources`, read in a store that agrees
/// with the network, yields the value that the inputs determine for it,
/// fills caches at most, its own among them, and leaves a store that agrees
/// with the network.
proof fn lemma_neuron<S: NeuronInputStrategy + 'static, M: Input>(
    net: NetworkView<S>,
    act: spec_fn(int) -> u64,
    k: int,
    i: int,
    sources: Seq<M>,
    s: StoreView,
)
    requires
        0 <= k <= net.hidden.len(),
        0 <= i < net.neurons(k).len(),
        net.caches_apart(),
        net.all_decide_by(act),
        fully_connected(net.neurons(k), sources),
        sources.len() == net.layer_values(act, k).len(),
        forall|j: int, t: StoreView|
            0 <= j < sources.len() && net.agrees(act, t) ==> (#[trigger] sources[j].eval(t)).0
                == net.layer_values(act, k)[j] && net.agrees(act, sources[j].eval(t).1) && keeps(
                t,
                sources[j].eval(t).1,
            ),
        net.agrees(act, s),
    ensures
        net.neurons(k)[i].eval(s).0 == net.layer_values(act, k + 1)[i],
        net.agrees(act, net.neurons(k)[i].eval(s).1),
        keeps(s, net.neurons(k)[i].eval(s).1),
        net.neurons(k)[i].slot < s.caches.len() ==> net.neurons(k)[i].eval(s).1.cached(
            net.neurons(k)[i].slot,
        ) is Some,
{
    let node = net.neurons(k)[i];
    let below = net.layer_values(act, k);
    let expected = net.layer_values(act, k + 1)[i];
    match s.cached(node.slot) {
        Some(v) => {},
        None => {
            let edges = node.input.inputs@;
            let inv = |t: StoreView| net.agrees(act, t);
            assert forall|j: int| 0 <= j < edges.len() implies (#[trigger] edges[j]).reads(
                &sources[j],
            ) by {}
            lemma_contributions(edges, sources, below, inv, s);
            let (z, s1) = net_input(edges, node.input.bias, s);
            let after = s1.with_cache(node.slot, Some(expected));
            assert forall|m: int, j: int|
                0 <= m <= net.hidden.len() && 0 <= j < net.neurons(m).len() implies (after.cached(
                (#[trigger] net.neurons(m)[j]).slot,
            ) matches Some(v) ==> v == net.layer_values(act, m + 1)[j]) by {
            }
        },
    }
}

/// Any neuron of layer `k`, read in a store that agrees with the network,
/// yields the value that the inputs determine for it, fills caches at most,
/// its own among them, and leaves a store that agrees with the network.
proof fn lemma_layer<S: NeuronInputStrategy + Clone + 'static>(
    net: NetworkView<S>,
    act: spec_fn(int) -> u64,
    k: int,
)
    requires
        0 <= k <= net.hidden.len(),
        net.feeds_forward(),
        net.caches_apart(),
        net.all_decide_by(act),
    ensures
        forall|i: int, s: StoreView|
            0 <= i < net.neurons(k).len() && net.agrees(act, s) ==> (
            #[trigger] net.neurons(k)[i].eval(s)).0 == net.layer_values(act, k + 1)[i]
                && net.agrees(act, net.neurons(k)[i].eval(s).1) && keeps(
                s,
                net.neurons(k)[i].eval(s).1,
            ) && (net.neurons(k)[i].slot < s.caches.len() ==> net.neurons(k)[i].eval(s).1.cached(
                net.neurons(k)[i].slot,
            ) is Some),
    decreases k,
{
    if k == 0 {
        let sources = net.input;
        assert forall|i: int, s: StoreView|
            0 <= i < net.neurons(k).len() && net.agrees(act, s) implies (
        #[trigger] net.neurons(k)[i].eval(s)).0 == net.layer_values(act, k + 1)[i] && net.agrees(
            act,
            net.neurons(k)[i].eval(s).1,
        ) && keeps(s, net.neurons(k)[i].eval(s).1) && (net.neurons(k)[i].slot < s.caches.len()
            ==> net.neurons(k)[i].eval(s).1.cached(net.neurons(k)[i].slot) is Some) by {
            lemma_neuron(net, act, k, i, sources, s);
        }
    } else {
        lemma_layer(net, act, k - 1);
        let sources = net.neurons(k - 1);
        assert forall|i: int, s: StoreView|
            0 <= i < net.neurons(k).len() && net.agrees(act, s) implies (
        #[trigger] net.neurons(k)[i].eval(s)).0 == net.layer_values(act, k + 1)[i] && net.agrees(
            act,
            net.neurons(k)[i].eval(s).1,
        ) && keeps(s, net.neurons(k)[i].eval(s).1) && (net.neurons(k)[i].slot < s.caches.len()
            ==> net.neurons(k)[i].eval(s).1.cached(net.neurons(k)[i].slot) is Some) by {
            lemma_neuron(net, act, k, i, sources, s);
        }
    }
}

/// Memoisation does not change what a network computes. Where every valid
/// cache holds the value that the inputs determine for its neuron (as after
/// `dirty`, when no cache is valid), reading the output layer yields the
/// values that the inputs determine, and every cache that the reading
/// fills holds such a value again.
pub proof fn lemma_reading_is_forward<S: NeuronInputStrategy + Clone + 'static>(
    net: NetworkView<S>,
    act: spec_fn(int) -> u64,
)
    requires
        net.feeds_forward(),
        net.caches_apart(),
        net.all_decide_by(act),
        net.agrees(act, net.store),
    ensures
        readings(net.output, net.store).0 == net.forward(act),
        net.agrees(act, readings(net.output, net.store).1),
        keeps(net.store, readings(net.output, net.store).1),
{
    let last = net.hidden.len() as int;
    lemma_layer(net, act, last);
    let inv = |t: StoreView| net.agrees(act, t);
    let vals = net.forward(act);
    assert forall|j: int, s: StoreView| 0 <= j < net.output.len() && inv(s) implies (
    #[trigger] net.output[j].eval(s)).0 == vals[j] && inv(net.output[j].eval(s).1) && keeps(
        s,
        net.output[j].eval(s).1,
    ) by {}
    lemma_readings(net.output, vals, inv, net.store);
}

/// Nodes whose caches are all valid hand out what the caches hold, and
/// reading them changes nothing.
pub proof fn lemma_valid_caches_are_handed_out<I: Input + Clone + 'static>(
    nodes: Seq<CachedInput<I>>,
    st: StoreView,
)
    requires
        forall|i: int| 0 <= i < nodes.len() ==> st.cached((#[trigger] nodes[i]).slot) is Some,
    ensures
        readings(nodes, st) == (
            Seq::new(nodes.len(), |i: int| st.cached(nodes[i].slot)->Some_0),
            st,
        ),
    decreases nodes.len(),
{
    if nodes.len() == 0 {
        assert(readings(nodes, st).0 =~= Seq::new(
            nodes.len(),
            |i: int| st.cached(nodes[i].slot)->Some_0,
        ));
    } else {
        let front = nodes.drop_last();
        assert forall|i: int| 0 <= i < front.len() implies st.cached(
            (#[trigger] front[i]).slot,
        ) is Some by {}
        lemma_valid_caches_are_handed_out(front, st);
        assert(readings(nodes, st).0 =~= Seq::new(
            nodes.len(),
            |i: int| st.cached(nodes[i].slot)->Some_0,
        ));
    }
}

/// If reading any of `nodes` in a store that satisfies `inv` fills the cache
/// of the node, keeps the caches that are valid and leaves a store that
/// satisfies `inv`, then after reading them all every one of their caches
/// is valid.
proof fn lemma_readings_fill<I: Input + Clone + 'static>(
    nodes: Seq<CachedInput<I>>,
    inv: spec_fn(StoreView) -> bool,
    st: StoreView,
)
    requires
        forall|j: int, s: StoreView|
            0 <= j < nodes.len() && inv(s) ==> inv((#[trigger] nodes[j].eval(s)).1) && keeps(
                s,
                nodes[j].eval(s).1,
            ) && (nodes[j].slot < s.caches.len() ==> nodes[j].eval(s).1.cached(nodes[j].slot)
                is Some),
        inv(st),
    ensures
        inv(readings(nodes, st).1),
        keeps(st, readings(nodes, st).1),
        forall|j: int|
            0 <= j < nodes.len() && (#[trigger] nodes[j]).slot < st.caches.len() ==> readings(
                nodes,
                st,
            ).1.cached(nodes[j].slot) is Some,
    decreases nodes.len(),
{
    if nodes.len() > 0 {
        let front = nodes.drop_last();
        assert forall|j: int, s: StoreView| 0 <= j < front.len() && inv(s) implies inv(
            (#[trigger] front[j].eval(s)).1,
        ) && keeps(s, front[j].eval(s).1) && (front[j].slot < s.caches.len()
            ==> front[j].eval(s).1.cached(front[j].slot) is Some) by {}
        lemma_readings_fill(front, inv, st);
        let st1 = readings(front, st).1;
        let n = nodes.len() - 1;
        let st2 = nodes[n].eval(st1).1;
        assert forall|j: int|
            0 <= j < nodes.len() && (#[trigger] nodes[j]).slot < st.caches.len() implies st2.cached(
            nodes[j].slot,
        ) is Some by {
            if j < n {
                assert(st1.cached(front[j].slot) is Some);
            }
        }
    }
}

/// Outputs stay what they were until `dirty` is called. Once the output
/// layer was read, a change of the inputs alone changes no output: the
/// next reading hands out the values of the first.
pub proof fn lemma_outputs_stay_until_dirty<S: NeuronInputStrategy + Clone + 'static>(
    net: NetworkView<S>,
    act: spec_fn(int) -> u64,
    inputs: Seq<u64>,
)
    requires
        net.feeds_forward(),
        net.caches_apart(),
        net.all_decide_by(act),
        net.agrees(act, net.store),
        net.caches_in_store(),
    ensures
        ({
            let (first, st1) = readings(net.output, net.store);
            let st2 = StoreView { cells: inputs, ..st1 };
            readings(net.output, st2) == (first, st2)
        }),
{
    let last = net.hidden.len() as int;
    lemma_layer(net, act, last);
    assert forall|j: int| 0 <= j < net.output.len() implies (#[trigger] net.output[j]).slot
        < net.store.caches.len() by {
        assert(net.neurons(last)[j].slot < net.store.caches.len());
    }
    let inv = |t: StoreView| net.agrees(act, t);
    assert forall|j: int, s: StoreView| 0 <= j < net.output.len() && inv(s) implies inv(
        (#[trigger] net.output[j].eval(s)).1,
    ) && keeps(s, net.output[j].eval(s).1) && (net.output[j].slot < s.caches.len()
        ==> net.output[j].eval(s).1.cached(net.output[j].slot) is Some) by {}
    lemma_readings_fill(net.output, inv, net.store);
    lemma_reading_is_forward(net, act);
    let (first, st1) = readings(net.output, net.store);
    let st2 = StoreView { cells: inputs, ..st1 };
    assert forall|j: int| 0 <= j < net.output.len() implies st2.cached(
        (#[trigger] net.output[j]).slot,
    ) is Some by {}
    lemma_valid_caches_are_handed_out(net.output, st2);
    assert forall|j: int| 0 <= j < net.output.len() implies st2.cached(net.output[j].slot)->Some_0
        == first[j] by {}
}

/// How a network is wired, whether its caches are apart and how its
/// neurons decide does not depend on what its store holds; whether its
/// caches are caches of the store depends on the number of caches alone.
pub proof fn lemma_wiring_is_apart_from_store<S: NeuronInputStrategy + Clone + 'static>(
    net: NetworkView<S>,
    st: StoreView,
    act: spec_fn(int) -> u64,
)
    ensures
        (NetworkView { store: st, ..net }).feeds_forward() == net.feeds_forward(),
        (NetworkView { store: st, ..net }).caches_apart() == net.caches_apart(),
        (NetworkView { store: st, ..net }).all_decide_by(act) == net.all_decide_by(act),
        st.caches.len() == net.store.caches.len() ==> (NetworkView {
            store: st,
            ..net
        }).caches_in_store() == net.caches_in_store(),
{
    let other = NetworkView { store: st, ..net };
    assert forall|k: int| other.neurons(k) == net.neurons(k) by {}
}

/// After `dirty` every store agrees with the network: no cache is valid.
pub proof fn lemma_dirty_agrees<S>(net: NetworkView<S>, act: spec_fn(int) -> u64)
    ensures
        ({
            let after = NetworkView {
                store: net.store.without(slots_of_all(net.hidden) + slots_of(net.output)),
                ..net
            };
            after.agrees(act, after.store)
        }),
{
    let slots = slots_of_all(net.hidden) + slots_of(net.output);
    let after = NetworkView { store: net.store.without(slots), ..net };
    assert forall|k: int, i: int|
        0 <= k <= after.hidden.len() && 0 <= i < after.neurons(k).len() implies after.store.cached(
        (#[trigger] after.neurons(k)[i]).slot,
    ) is None by {
    }
}

/// After the inputs were set and `dirty` was called, the outputs follow the
/// inputs: a reading of the output layer yields what the layers compute
/// from the values that were set, whatever the caches held before.
pub proof fn lemma_outputs_follow_inputs_after_dirty<S: NeuronInputStrategy + Clone + 'static>(
    net: NetworkView<S>,
    act: spec_fn(int) -> u64,
    values: Seq<u64>,
)
    requires
        net.feeds_forward(),
        net.caches_apart(),
        net.all_decide_by(act),
        net.inputs_in_order(),
        values.len() == net.input.len(),
    ensures
        ({
            let set = NetworkView { store: StoreView { cells: values, ..net.store }, ..net };
            let fresh = NetworkView {
                store: set.store.without(slots_of_all(set.hidden) + slots_of(set.output)),
                ..set
            };
            &&& fresh.layer_values(act, 0) == values
            &&& readings(fresh.output, fresh.store).0 == fresh.forward(act)
        }),
{
    let set = NetworkView { store: StoreView { cells: values, ..net.store }, ..net };
    let fresh = NetworkView {
        store: set.store.without(slots_of_all(set.hidden) + slots_of(set.output)),
        ..set
    };
    lemma_dirty_agrees(set, act);
    lemma_wiring_is_apart_from_store(net, fresh.store, act);
    lemma_reading_is_forward(fresh, act);
}

/// Caches that are numbered layer after layer, node after node, are apart.
pub proof fn lemma_caches_in_order_are_apart<S>(net: NetworkView<S>, sizes: Seq<usize>)
    requires
        net.has_sizes(sizes),
        net.caches_in_order(sizes),
    ensures
        net.caches_apart(),
{
    assert forall|k: int, i: int, m: int, j: int|
        0 <= k <= net.hidden.len() && 0 <= i < net.neurons(k).len() && 0 <= m <= net.hidden.len()
            && 0 <= j < net.neurons(m).len() && (#[trigger] net.neurons(k)[i]).slot == (
        #[trigger] net.neurons(m)[j]).slot implies k == m && i == j by {
        if k < m {
            lemma_neurons_before_grows(sizes, k + 2, m + 1);
        } else if m < k {
            lemma_neurons_before_grows(sizes, m + 2, k + 1);
        }
    }
}

/// Caches that are numbered layer after layer, node after node, are all
/// among the caches of the store where the store has one cache per neuron.
pub proof fn lemma_caches_in_order_are_in_store<S>(net: NetworkView<S>, sizes: Seq<usize>)
    requires
        net.has_sizes(sizes),
        net.caches_in_order(sizes),
        net.store.caches.len() == neurons_before(sizes, sizes.len() as int) as nat,
    ensures
        net.caches_in_store(),
{
    assert forall|k: int, i: int|
        0 <= k <= net.hidden.len() && 0 <= i < net.neurons(k).len() implies (
    #[trigger] net.neurons(k)[i]).slot < net.store.caches.len() by {
        assert(net.neurons(k).len() == sizes[k + 1]);
        lemma_neurons_before_grows(sizes, 1, k + 2);
        lemma_neurons_before_grows(sizes, k + 2, sizes.len() as int);
    }
}

/// The count of neurons before a layer does not fall from layer to layer.
proof fn lemma_neurons_before_grows(sizes: Seq<usize>, a: int, b: int)
    requires
        1 <= a <= b,
    ensures
        neurons_before(sizes, a) <= neurons_before(sizes, b),
    decreases b - a,
{
    if a < b {
        lemma_neurons_before_grows(sizes, a, b - 1);
    }
}

/// The threshold as a rule for turning a net input into a value.
pub open spec fn step_rule() -> spec_fn(int) -> u64 {
    |z: int| step(z)
}

/// The step strategy decides by the threshold.
pub proof fn lemma_perceptron_decides_by_step(strategy: &PerceptronStrategy)
    ensures
        decides_by(strategy, step_rule()),
{
}

/// Every neuron of a network of perceptrons decides by the threshold.
pub proof fn lemma_perceptrons_decide_by_step(net: NetworkView<PerceptronStrategy>)
    ensures
        net.all_decide_by(step_rule()),
{
    assert forall|k: int, i: int|
        0 <= k <= net.hidden.len() && 0 <= i < net.neurons(k).len() implies decides_by(
        &*(#[trigger] net.neurons(k)[i]).input.strategy,
        step_rule(),
    ) by {
        lemma_perceptron_decides_by_step(&*net.neurons(k)[i].input.strategy);
    }
}

} // verus!
