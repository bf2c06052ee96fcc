//! Signal sources: what a neuron can read.

use crate::fixed::{PreconditionViolation, CONVERSION_FACTOR};
use crate::store::{Store, StoreView};
use std::sync::Arc;
use vstd::pervasive::strictly_cloned;
use vstd::prelude::*;

verus! {

/// A node that yields a scalar of the unit interval on demand.
///
/// Reading a node may fill caches on the way, so a reading is stated as
/// the value read together with the store that the reading leaves.
pub trait Input {
    /// The value that a reading in store `st` yields, and the store after it.
    spec fn eval(&self, st: StoreView) -> (u64, StoreView);

    /// Reads the node. A reading may fill caches; it leaves the cells as
    /// they are.
    fn value(&self, store: &mut Store) -> (r: u64)
        ensures
            r <= CONVERSION_FACTOR,
            (r, final(store)@) == self.eval(old(store)@),
            final(store)@.cells == old(store)@.cells,
    ;

    /// A copy of a node reads as the node does.
    proof fn copy_reads_alike(&self, copy: &Self) where Self: Sized + Clone
        requires
            cloned(*self, *copy),
        ensures
            forall|st: StoreView| #[trigger] copy.eval(st) == self.eval(st),
    ;
}

/// What the nodes yield when they are read one after the other, first node
/// first, and the store that the last reading leaves.
pub open spec fn readings<N: Input>(nodes: Seq<N>, st: StoreView) -> (Seq<u64>, StoreView)
    decreases nodes.len(),
{
    if nodes.len() == 0 {
        (Seq::empty(), st)
    } else {
        let (before, st1) = readings(nodes.drop_last(), st);
        let (last, st2) = nodes.last().eval(st1);
        (before.push(last), st2)
    }
}

/// A source whose value the caller sets: a handle to a cell of the store.
#[derive(Clone, Copy)]
pub struct ConstantInput {
    /// Index of the cell in the store.
    pub cell: usize,
}

impl ConstantInput {
    /// A new cell that holds `value`, and the source that reads it. Rejects a
    /// value above 1.
    pub fn new(store: &mut Store, value: u64) -> (r: Result<Self, PreconditionViolation>)
        ensures
            value <= CONVERSION_FACTOR ==> r is Ok && r->Ok_0.cell == old(store)@.cells.len()
                && final(store)@ == (StoreView {
                cells: old(store)@.cells.push(value),
                ..old(store)@
            }),
            value > CONVERSION_FACTOR ==> r is Err && r->Err_0 == PreconditionViolation::OutOfRange
                && final(store)@ == old(store)@,
    {
        match store.add_cell(value) {
            Ok(cell) => Ok(ConstantInput { cell }),
            Err(e) => Err(e),
        }
    }

    /// Sets the value. Rejects a value above 1, then a handle that
    /// names no cell of `store`.
    pub fn replace_with(&self, store: &mut Store, value: u64) -> (r: Result<
        (),
        PreconditionViolation,
    >)
        ensures
            value > CONVERSION_FACTOR ==> r == Err::<(), _>(PreconditionViolation::OutOfRange),
            value <= CONVERSION_FACTOR && self.cell >= old(store)@.cells.len() ==> r == Err::<
                (),
                _,
            >(PreconditionViolation::UnknownCell),
            value <= CONVERSION_FACTOR && self.cell < old(store)@.cells.len() ==> r is Ok,
            r is Ok ==> final(store)@ == old(store)@.with_cell(self.cell, value),
            r is Err ==> final(store)@ == old(store)@,
    {
        store.set_cell(self.cell, value)
    }
}

impl Input for ConstantInput {
    open spec fn eval(&self, st: StoreView) -> (u64, StoreView) {
        (st.cell(self.cell), st)
    }

    fn value(&self, store: &mut Store) -> (r: u64) {
        store.cell(self.cell)
    }

    proof fn copy_reads_alike(&self, copy: &Self) {
        assert(strictly_cloned(*self, *copy) ==> *copy == *self);
    }
}

/// A source that is either 0 or 1: a handle to a cell of the store that is
/// read as 1 where it holds 1 and as 0 otherwise.
#[derive(Clone, Copy)]
pub struct BinaryInput {
    /// Index of the cell in the store.
    pub cell: usize,
}

impl BinaryInput {
    /// A new cell that holds `value`, and the source that reads it. Rejects a
    /// value other than 0 and 1.
    pub fn new(store: &mut Store, value: u64) -> (r: Result<Self, PreconditionViolation>)
        ensures
            value == 0 || value == CONVERSION_FACTOR ==> r is Ok && r->Ok_0.cell == old(
                store,
            )@.cells.len() && final(store)@ == (StoreView {
                cells: old(store)@.cells.push(value),
                ..old(store)@
            }),
            value != 0 && value != CONVERSION_FACTOR ==> r is Err && r->Err_0
                == PreconditionViolation::OutOfRange && final(store)@ == old(store)@,
    {
        if value != 0 && value != CONVERSION_FACTOR {
            return Err(PreconditionViolation::OutOfRange);
        }
        match store.add_cell(value) {
            Ok(cell) => Ok(BinaryInput { cell }),
            Err(e) => Err(e),
        }
    }

    /// Sets the value. Rejects a value other than 0 and 1, then a handle
    /// that names no cell of `store`.
    pub fn replace_with(&self, store: &mut Store, value: u64) -> (r: Result<
        (),
        PreconditionViolation,
    >)
        ensures
            value != 0 && value != CONVERSION_FACTOR ==> r == Err::<(), _>(
                PreconditionViolation::OutOfRange,
            ),
            (value == 0 || value == CONVERSION_FACTOR) && self.cell >= old(store)@.cells.len()
                ==> r == Err::<(), _>(PreconditionViolation::UnknownCell),
            (value == 0 || value == CONVERSION_FACTOR) && self.cell < old(store)@.cells.len()
                ==> r is Ok,
            r is Ok ==> final(store)@ == old(store)@.with_cell(self.cell, value),
            r is Err ==> final(store)@ == old(store)@,
    {
        if value != 0 && value != CONVERSION_FACTOR {
            return Err(PreconditionViolation::OutOfRange);
        }
        store.set_cell(self.cell, value)
    }
}

impl Input for BinaryInput {
    open spec fn eval(&self, st: StoreView) -> (u64, StoreView) {
        (
            if st.cell(self.cell) == CONVERSION_FACTOR {
                CONVERSION_FACTOR
            } else {
                0
            },
            st,
        )
    }

    fn value(&self, store: &mut Store) -> (r: u64) {
        if store.cell(self.cell) == CONVERSION_FACTOR {
            CONVERSION_FACTOR
        } else {
            0
        }
    }

    proof fn copy_reads_alike(&self, copy: &Self) {
        assert(strictly_cloned(*self, *copy) ==> *copy == *self);
    }
}

/// A copy of a source behind a pointer, so that it can stand where the kind
/// of source is not known.
pub struct BoxedInput {
    /// The copy.
    pub node: Box<dyn Input>,
}

/// Sources that can be copied into a box.
pub trait BoxClone: Input {
    /// A boxed copy of the node, which reads as the node does.
    fn box_clone(&self) -> (r: BoxedInput)
        ensures
            forall|st: StoreView| #[trigger] r.node.eval(st) == self.eval(st),
    ;
}

impl BoxClone for ConstantInput {
    fn box_clone(&self) -> (r: BoxedInput) {
        BoxedInput { node: Box::new(*self) }
    }
}

impl BoxClone for BinaryInput {
    fn box_clone(&self) -> (r: BoxedInput) {
        BoxedInput { node: Box::new(*self) }
    }
}

/// A source with the weight of the edge that leads from it to a neuron.
pub struct WeightedInput {
    /// The weight, in units of 10^-12.
    pub weight: i64,
    /// The source; shared by the copies of the edge.
    pub input: Arc<BoxedInput>,
}

impl Clone for WeightedInput {
    /// The same edge: the copy shares the source.
    fn clone(&self) -> (r: Self)
        ensures
            r == *self,
    {
        WeightedInput { weight: self.weight, input: self.input.clone() }
    }
}

impl WeightedInput {
    /// An edge from a copy of `input`, with weight `weight`.
    pub fn new<I: BoxClone>(input: &I, weight: i64) -> (r: Self)
        ensures
            r.weight == weight,
            r.reads(input),
    {
        WeightedInput { weight, input: Arc::new(input.box_clone()) }
    }

    /// Whether the source of this edge reads as `node` does: in every store,
    /// a reading of either yields the same value and leaves the same store.
    pub open spec fn reads<I: Input + ?Sized>(&self, node: &I) -> bool {
        forall|st: StoreView| #[trigger] self.input.node.eval(st) == node.eval(st)
    }

    /// What the edge carries in store `st`: the value of its source times
    /// its weight, in units of 10^-24; and the store after the reading.
    pub open spec fn eval(&self, st: StoreView) -> (int, StoreView) {
        (self.input.node.eval(st).0 * self.weight, self.input.node.eval(st).1)
    }

    /// Reads the source and weighs its value.
    pub fn value(&self, store: &mut Store) -> (r: i128)
        ensures
            (r as int, final(store)@) == self.eval(old(store)@),
            final(store)@.cells == old(store)@.cells,
    {
        let v: u64 = self.input.node.value(store);
        assert(i128::MIN <= v * self.weight <= i128::MAX) by (nonlinear_arith)
            requires
                0 <= v <= 1_000_000_000_000,
                -0x8000_0000_0000_0000 <= self.weight < 0x8000_0000_0000_0000,
        ;
        (v as i128) * (self.weight as i128)
    }
}

/// A source that remembers the value of another until it is told to forget
/// it.
pub struct CachedInput<I> {
    /// The source whose value is remembered.
    pub input: I,
    /// Index of the cache in the store.
    pub slot: usize,
}

impl<I> CachedInput<I> {
    /// Memoises `input` in a new cache, invalid at first.
    pub fn new(input: I, store: &mut Store) -> (r: Self)
        ensures
            r.input == input,
            r.slot == old(store)@.caches.len(),
            final(store)@ == (StoreView { caches: old(store)@.caches.push(None), ..old(store)@ }),
    {
        let slot: usize = store.add_cache();
        CachedInput { input, slot }
    }

    /// Marks the cache invalid: the next reading asks the source again.
    pub fn dirty(&self, store: &mut Store)
        ensures
            final(store)@ == old(store)@.with_cache(self.slot, None),
    {
        store.invalidate(self.slot);
    }
}

impl<I: Clone> Clone for CachedInput<I> {
    /// A copy of the source with the same cache.
    fn clone(&self) -> (r: Self)
        ensures
            cloned(self.input, r.input),
            r.slot == self.slot,
    {
        CachedInput { input: self.input.clone(), slot: self.slot }
    }
}

impl<I: Input + Clone + 'static> Input for CachedInput<I> {
    open spec fn eval(&self, st: StoreView) -> (u64, StoreView) {
        match st.cached(self.slot) {
            Some(v) => (v, st),
            None => {
                let (v, st1) = self.input.eval(st);
                (v, st1.with_cache(self.slot, Some(v)))
            },
        }
    }

    fn value(&self, store: &mut Store) -> (r: u64) {
        match store.cached(self.slot) {
            Some(v) => v,
            None => {
                let v: u64 = self.input.value(store);
                let _ = store.fill_cache(self.slot, v);
                v
            },
        }
    }

    proof fn copy_reads_alike(&self, copy: &Self) {
        assert(strictly_cloned(*self, *copy) ==> cloned(self.input, copy.input) && copy.slot
            == self.slot);
        self.input.copy_reads_alike(&copy.input);
    }
}

impl<I: Input + Clone + 'static> BoxClone for CachedInput<I> {
    fn box_clone(&self) -> (r: BoxedInput) {
        let copy = self.clone();
        proof {
            self.copy_reads_alike(&copy);
        }
        BoxedInput { node: Box::new(copy) }
    }
}

/// A constant source yields what was last written to its cell: after a
/// write of `value`, a reading gives `value` and changes nothing.
pub proof fn lemma_written_value_is_read(source: ConstantInput, st: StoreView, value: u64)
    requires
        source.cell < st.cells.len(),
    ensures
        source.eval(st.with_cell(source.cell, value)) == (value, st.with_cell(source.cell, value)),
{
}

/// An edge from a constant source carries the value of the source times the
/// weight of the edge, exactly, and its reading changes nothing.
pub proof fn lemma_weighted_constant(edge: WeightedInput, source: ConstantInput, st: StoreView)
    requires
        edge.reads(&source),
    ensures
        edge.eval(st) == (st.cell(source.cell) * edge.weight, st),
{
}

/// A memoised constant hands out what it read first until it is told to
/// forget. Read with an invalid cache, it yields the value of its source;
/// read again after the source was set to `x`, it still yields the first
/// value; read once more after `dirty`, it yields `x`.
pub proof fn lemma_cache_keeps_value_until_dirty(
    cached: CachedInput<ConstantInput>,
    st: StoreView,
    x: u64,
)
    requires
        cached.input.cell < st.cells.len(),
        cached.slot < st.caches.len(),
        st.cached(cached.slot) is None,
    ensures
        ({
            let (first, st1) = cached.eval(st);
            let st2 = st1.with_cell(cached.input.cell, x);
            let (second, st3) = cached.eval(st2);
            let st4 = st3.with_cache(cached.slot, None);
            let (third, st5) = cached.eval(st4);
            &&& first == st.cell(cached.input.cell)
            &&& second == first
            &&& third == x
        }),
{
}

} // verus!
