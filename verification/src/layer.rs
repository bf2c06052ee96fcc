//! Layers: ordered groups of nodes of one kind, wired as a whole to the
//! layer before them.

use crate::input::{BoxClone, CachedInput, ConstantInput, Input, WeightedInput};
use crate::neuron::{DeviateSource, Neuron, NeuronLike};
use crate::store::{Store, StoreView};
use vstd::prelude::*;
use vstd::std_specs::slice::into_iter_elts;

verus! {

/// An ordered group of nodes. Its length is fixed when it is made.
pub struct Layer<N> {
    items: Vec<N>,
}

impl<N> View for Layer<N> {
    type V = Seq<N>;

    closed spec fn view(&self) -> Seq<N> {
        self.items@
    }
}

/// Whether `after` is `before` with one more edge from each of `sources`, in
/// their order, behind the edges that `before` has.
pub open spec fn wired<N: NeuronLike, M: Input>(before: &N, after: &N, sources: Seq<M>) -> bool {
    &&& after.rest() == before.rest()
    &&& after.edges().len() == before.edges().len() + sources.len()
    &&& after.edges().take(before.edges().len() as int) == before.edges()
    &&& forall|k: int|
        before.edges().len() <= k < after.edges().len() ==> (#[trigger] after.edges()[k]).reads(
            &sources[k - before.edges().len()],
        )
}

/// Whether every node of `layer` has exactly one edge per node of `sources`,
/// in their order, and no other.
pub open spec fn fully_connected<N: NeuronLike, M: Input>(layer: Seq<N>, sources: Seq<M>) -> bool {
    forall|i: int|
        0 <= i < layer.len() ==> {
            &&& (#[trigger] layer[i]).edges().len() == sources.len()
            &&& forall|j: int|
                0 <= j < sources.len() ==> (#[trigger] layer[i].edges()[j]).reads(&sources[j])
        }
}

/// Number of edges that lead into the nodes of `layer`, all together.
pub open spec fn edge_count<N: NeuronLike>(layer: Seq<N>) -> nat
    decreases layer.len(),
{
    if layer.len() == 0 {
        0
    } else {
        edge_count(layer.drop_last()) + layer.last().edges().len()
    }
}

/// The wiring of two layers is complete and no more: a layer that is fully
/// connected to a layer of `a` nodes has, with `b` nodes of its own, `a * b`
/// edges.
pub proof fn lemma_fully_connected_edge_count<N: NeuronLike, M: Input>(
    layer: Seq<N>,
    sources: Seq<M>,
)
    requires
        fully_connected(layer, sources),
    ensures
        edge_count(layer) == sources.len() * layer.len(),
    decreases layer.len(),
{
    if layer.len() > 0 {
        let front = layer.drop_last();
        assert forall|i: int| 0 <= i < front.len() implies {
            &&& (#[trigger] front[i]).edges().len() == sources.len()
            &&& forall|j: int|
                0 <= j < sources.len() ==> (#[trigger] front[i].edges()[j]).reads(&sources[j])
        } by {
            assert(front[i] == layer[i]);
        }
        lemma_fully_connected_edge_count(front, sources);
        assert(layer.last() == layer[layer.len() - 1]);
        assert(sources.len() * front.len() + sources.len() == sources.len() * layer.len())
            by (nonlinear_arith)
            requires
                front.len() + 1 == layer.len(),
        ;
    } else {
        assert(sources.len() * layer.len() == 0) by (nonlinear_arith)
            requires
                layer.len() == 0,
        ;
    }
}

/// Nodes that had no edge and were wired to `sources` have one edge per
/// source and no other, and are otherwise what they were.
pub proof fn lemma_wired_from_nothing<N: NeuronLike, M: Input>(
    before: Seq<N>,
    after: Seq<N>,
    sources: Seq<M>,
)
    requires
        before.len() == after.len(),
        forall|i: int| 0 <= i < before.len() ==> (#[trigger] before[i]).edges().len() == 0,
        forall|i: int| 0 <= i < before.len() ==> wired(&before[i], &#[trigger] after[i], sources),
    ensures
        fully_connected(after, sources),
        forall|i: int| 0 <= i < before.len() ==> (#[trigger] after[i]).rest() == before[i].rest(),
{
    assert forall|i: int| 0 <= i < after.len() implies {
        &&& (#[trigger] after[i]).edges().len() == sources.len()
        &&& forall|j: int|
            0 <= j < sources.len() ==> (#[trigger] after[i].edges()[j]).reads(&sources[j])
    } by {
        assert(before[i].edges().len() == 0);
        assert(wired(&before[i], &after[i], sources));
    }
}

/// Wiring is complete and no more: a layer of `b` nodes without edges that
/// was connected to a layer of `a` nodes has `a * b` edges.
pub proof fn lemma_connected_layer_edge_count<N: NeuronLike, M: Input>(
    before: Seq<N>,
    after: Seq<N>,
    sources: Seq<M>,
)
    requires
        before.len() == after.len(),
        forall|i: int| 0 <= i < before.len() ==> (#[trigger] before[i]).edges().len() == 0,
        forall|i: int| 0 <= i < before.len() ==> wired(&before[i], &#[trigger] after[i], sources),
    ensures
        edge_count(after) == sources.len() * after.len(),
{
    lemma_wired_from_nothing(before, after, sources);
    lemma_fully_connected_edge_count(after, sources);
}

/// The caches of the nodes of a layer.
pub open spec fn slots_of<I>(nodes: Seq<CachedInput<I>>) -> Set<int> {
    Set::new(|slot: int| exists|i: int| 0 <= i < nodes.len() && (#[trigger] nodes[i]).slot == slot)
}

impl StoreView {
    /// This store with every cache of `slots` invalid.
    pub open spec fn without(self, slots: Set<int>) -> StoreView {
        StoreView {
            caches: Seq::new(
                self.caches.len(),
                |k: int|
                    if slots.contains(k) {
                        None
                    } else {
                        self.caches[k]
                    },
            ),
            ..self
        }
    }
}

impl<N> Layer<N> {
    /// The layer of these nodes.
    pub fn new(items: Vec<N>) -> (r: Self)
        ensures
            r@ == items@,
    {
        Layer { items }
    }

    /// Number of nodes.
    pub fn len(&self) -> (r: usize)
        ensures
            r == self@.len(),
    {
        self.items.len()
    }

    /// The nodes, first to last.
    pub fn iter(&self) -> (r: std::slice::Iter<'_, N>)
        ensures
            into_iter_elts(r) == self@,
    {
        self.items.as_slice().iter()
    }

    /// Node `i`, where the layer has one.
    pub fn get(&self, i: usize) -> (r: Option<&N>)
        ensures
            i < self@.len() ==> r == Some(&self@[i as int]),
            i >= self@.len() ==> r is None,
    {
        if i < self.items.len() {
            Some(&self.items[i])
        } else {
            None
        }
    }
}

impl<N: NeuronLike> Layer<N> {
    /// Connects every node of this layer to every node of `other`: each
    /// node gets one new edge per node of `other`, in the order of `other`,
    /// each with a weight drawn from `deviates`.
    pub fn connect<M: BoxClone, D: DeviateSource>(&mut self, other: &Layer<M>, deviates: &mut D)
        ensures
            final(self)@.len() == old(self)@.len(),
            forall|i: int|
                0 <= i < old(self)@.len() ==> wired(
                    &old(self)@[i],
                    &#[trigger] final(self)@[i],
                    other@,
                ),
    {
        let mut i: usize = 0;
        while i < self.items.len()
            invariant
                i <= self.items@.len(),
                self.items@.len() == old(self).items@.len(),
                forall|r: int|
                    0 <= r < i ==> wired(&old(self).items@[r], &#[trigger] self.items@[r], other@),
                forall|r: int|
                    i <= r < self.items@.len() ==> #[trigger] self.items@[r] == old(self).items@[r],
            decreases self.items@.len() - i,
        {
            let mut j: usize = 0;
            proof {
                let first = old(self).items@[i as int];
                assert(self.items@[i as int] == first);
                assert(first.edges().take(first.edges().len() as int) =~= first.edges());
            }
            while j < other.items.len()
                invariant
                    i < self.items@.len(),
                    j <= other.items@.len(),
                    self.items@.len() == old(self).items@.len(),
                    forall|r: int|
                        0 <= r < i ==> wired(
                            &old(self).items@[r],
                            &#[trigger] self.items@[r],
                            other@,
                        ),
                    forall|r: int|
                        i < r < self.items@.len() ==> #[trigger] self.items@[r] == old(
                            self,
                        ).items@[r],
                    wired(
                        &old(self).items@[i as int],
                        &self.items@[i as int],
                        other@.take(j as int),
                    ),
                decreases other.items@.len() - j,
            {
                let weight: i64 = deviates.next_deviate();
                let ghost before = self.items@;
                self.items[i].add_input(&other.items[j], weight);
                proof {
                    let was = before[i as int];
                    let now = self.items@[i as int];
                    let first = old(self).items@[i as int];
                    let base = first.edges().len() as int;
                    assert(now.edges().drop_last() == was.edges());
                    assert(now.edges().take(base) =~= was.edges().take(base));
                    assert forall|k: int| base <= k < now.edges().len() implies (
                    #[trigger] now.edges()[k]).reads(&other@.take(j + 1)[k - base]) by {
                        if k < now.edges().len() - 1 {
                            assert(now.edges()[k] == was.edges()[k]);
                            assert(other@.take(j + 1)[k - base] == other@.take(j as int)[k - base]);
                        } else {
                            assert(now.edges()[k] == now.edges().last());
                            assert(other@.take(j + 1)[k - base] == other@[j as int]);
                        }
                    }
                    assert forall|r: int| 0 <= r < i implies wired(
                        &old(self).items@[r],
                        &#[trigger] self.items@[r],
                        other@,
                    ) by {
                        assert(self.items@[r] == before[r]);
                    }
                }
                j = j + 1;
            }
            proof {
                assert(other@.take(j as int) == other@);
            }
            i = i + 1;
        }
    }
}

impl<I> Layer<CachedInput<I>> {
    /// Marks the cache of every node invalid.
    pub fn dirty(&self, store: &mut Store)
        ensures
            final(store)@ == old(store)@.without(slots_of(self@)),
    {
        let mut i: usize = 0;
        while i < self.items.len()
            invariant
                i <= self.items@.len(),
                store@ == old(store)@.without(slots_of(self.items@.take(i as int))),
            decreases self.items@.len() - i,
        {
            let ghost done = slots_of(self.items@.take(i as int));
            let ghost next = slots_of(self.items@.take(i + 1));
            let ghost slot = self.items@[i as int].slot as int;
            self.items[i].dirty(store);
            proof {
                assert forall|s: int| next.contains(s) == (done.contains(s) || s == slot) by {
                    if done.contains(s) {
                        let w = choose|w: int|
                            0 <= w < i && (#[trigger] self.items@.take(i as int)[w]).slot == s;
                        assert(self.items@.take(i + 1)[w].slot == s);
                    }
                    if s == slot {
                        assert(self.items@.take(i + 1)[i as int].slot == s);
                    }
                    if next.contains(s) {
                        let w = choose|w: int|
                            0 <= w < i + 1 && (#[trigger] self.items@.take(i + 1)[w]).slot == s;
                        if w < i {
                            assert(self.items@.take(i as int)[w].slot == s);
                        }
                    }
                }
                assert(store@.caches =~= old(store)@.without(next).caches);
            }
            i = i + 1;
        }
        proof {
            assert(self.items@.take(i as int) == self.items@);
        }
    }
}

impl Layer<ConstantInput> {
    /// A layer of `size` new constant sources, each with a cell of its own
    /// that holds 0.
    pub fn default_new(size: usize, store: &mut Store) -> (r: Self)
        ensures
            r@.len() == size,
            forall|j: int| 0 <= j < size ==> (#[trigger] r@[j]).cell == old(store)@.cells.len() + j,
            final(store)@ == (StoreView {
                cells: old(store)@.cells + Seq::new(size as nat, |j: int| 0u64),
                ..old(store)@
            }),
    {
        let mut items: Vec<ConstantInput> = Vec::new();
        let mut k: usize = 0;
        while k < size
            invariant
                k <= size,
                items@.len() == k,
                forall|j: int|
                    0 <= j < k ==> (#[trigger] items@[j]).cell == old(store)@.cells.len() + j,
                store@ == (StoreView {
                    cells: old(store)@.cells + Seq::new(k as nat, |j: int| 0u64),
                    ..old(store)@
                }),
            decreases size - k,
        {
            match ConstantInput::new(store, 0) {
                Ok(node) => {
                    items.push(node);
                },
                Err(_) => {},
            }
            k = k + 1;
        }
        Layer { items }
    }
}

impl<S: Clone> Layer<Neuron<S>> {
    /// A layer of `size` new neurons without inputs, each with a copy of
    /// `strategy` and a bias drawn from `deviates`.
    pub fn default_new<D: DeviateSource>(size: usize, strategy: &S, deviates: &mut D) -> (r: Self)
        ensures
            r@.len() == size,
            forall|i: int|
                0 <= i < size ==> (#[trigger] r@[i]).inputs@.len() == 0 && cloned(
                    *strategy,
                    *r@[i].strategy,
                ),
    {
        let mut items: Vec<Neuron<S>> = Vec::new();
        let mut k: usize = 0;
        while k < size
            invariant
                k <= size,
                items@.len() == k,
                forall|i: int|
                    0 <= i < k ==> (#[trigger] items@[i]).inputs@.len() == 0 && cloned(
                        *strategy,
                        *items@[i].strategy,
                    ),
            decreases size - k,
        {
            items.push(Neuron::new(strategy.clone(), deviates));
            k = k + 1;
        }
        Layer { items }
    }
}

impl<S: Clone> Layer<CachedInput<Neuron<S>>> {
    /// A layer of `size` new memoised neurons without inputs, each with a
    /// copy of `strategy`, a bias drawn from `deviates` and a cache of its
    /// own, invalid at first.
    pub fn default_new<D: DeviateSource>(
        size: usize,
        strategy: &S,
        store: &mut Store,
        deviates: &mut D,
    ) -> (r: Self)
        ensures
            r@.len() == size,
            forall|i: int|
                0 <= i < size ==> (#[trigger] r@[i]).input.inputs@.len() == 0 && cloned(
                    *strategy,
                    *r@[i].input.strategy,
                ) && r@[i].slot == old(store)@.caches.len() + i,
            final(store)@ == (StoreView {
                caches: old(store)@.caches + Seq::new(size as nat, |i: int| None::<u64>),
                ..old(store)@
            }),
    {
        let mut items: Vec<CachedInput<Neuron<S>>> = Vec::new();
        let mut k: usize = 0;
        while k < size
            invariant
                k <= size,
                items@.len() == k,
                forall|i: int|
                    0 <= i < k ==> (#[trigger] items@[i]).input.inputs@.len() == 0 && cloned(
                        *strategy,
                        *items@[i].input.strategy,
                    ) && items@[i].slot == old(store)@.caches.len() + i,
                store@ == (StoreView {
                    caches: old(store)@.caches + Seq::new(k as nat, |i: int| None::<u64>),
                    ..old(store)@
                }),
            decreases size - k,
        {
            let neuron = Neuron::new(strategy.clone(), deviates);
            items.push(CachedInput::new(neuron, store));
            k = k + 1;
        }
        Layer { items }
    }
}

} // verus!
