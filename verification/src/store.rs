//! The store: the cells that constant sources write and read, and the
//! caches that memoised nodes fill.
//!
//! Nodes refer to a cell or a cache by its index. A copy of a node holds the
//! same index, and so sees what every other copy sees.

use crate::fixed::{AtomicF64Between01, PreconditionViolation, CONVERSION_FACTOR};
use vstd::prelude::*;

verus! {

/// One cache: a scalar and the flag that says whether it may be used.
pub struct CacheSlot {
    cached_value: AtomicF64Between01,
    is_cached: bool,
}

/// The mutable state of a circuit.
pub struct Store {
    cells: Vec<AtomicF64Between01>,
    caches: Vec<CacheSlot>,
}

/// What a store holds: the value of each cell, and for each cache the value
/// that it would hand out, `None` where it is invalid.
#[verifier::ext_equal]
pub struct StoreView {
    /// The value of each cell.
    pub cells: Seq<u64>,
    /// What each cache would hand out.
    pub caches: Seq<Option<u64>>,
}

impl StoreView {
    /// A store without cells or caches.
    pub open spec fn empty() -> StoreView {
        StoreView { cells: Seq::empty(), caches: Seq::empty() }
    }

    /// The value of cell `id`; 0 where there is no such cell.
    pub open spec fn cell(self, id: usize) -> u64 {
        if id < self.cells.len() {
            self.cells[id as int]
        } else {
            0
        }
    }

    /// What cache `slot` would hand out; `None` where there is no such cache.
    pub open spec fn cached(self, slot: usize) -> Option<u64> {
        if slot < self.caches.len() {
            self.caches[slot as int]
        } else {
            None
        }
    }

    /// This store with `value` in cell `id`; unchanged where there is no such
    /// cell.
    pub open spec fn with_cell(self, id: usize, value: u64) -> StoreView {
        if id < self.cells.len() {
            StoreView { cells: self.cells.update(id as int, value), ..self }
        } else {
            self
        }
    }

    /// This store with cache `slot` set to `content`; unchanged where there is
    /// no such cache.
    pub open spec fn with_cache(self, slot: usize, content: Option<u64>) -> StoreView {
        if slot < self.caches.len() {
            StoreView { caches: self.caches.update(slot as int, content), ..self }
        } else {
            self
        }
    }
}

impl CacheSlot {
    /// What the cache would hand out.
    pub closed spec fn content(self) -> Option<u64> {
        if self.is_cached {
            Some(self.cached_value@)
        } else {
            None
        }
    }
}

impl View for Store {
    type V = StoreView;

    closed spec fn view(&self) -> StoreView {
        StoreView {
            cells: Seq::new(self.cells@.len(), |i: int| self.cells@[i]@),
            caches: Seq::new(self.caches@.len(), |i: int| self.caches@[i].content()),
        }
    }
}

impl Store {
    /// A store without cells or caches.
    pub fn new() -> (r: Store)
        ensures
            r@ == StoreView::empty(),
    {
        Store { cells: Vec::new(), caches: Vec::new() }
    }

    /// Number of cells.
    pub fn cell_count(&self) -> (r: usize)
        ensures
            r == self@.cells.len(),
    {
        self.cells.len()
    }

    /// Number of caches.
    pub fn cache_count(&self) -> (r: usize)
        ensures
            r == self@.caches.len(),
    {
        self.caches.len()
    }

    /// Adds a cell that holds `value` and hands back its index. Rejects a
    /// value above 1.
    pub fn add_cell(&mut self, value: u64) -> (r: Result<usize, PreconditionViolation>)
        ensures
            value <= CONVERSION_FACTOR ==> r is Ok && r->Ok_0 == old(self)@.cells.len()
                && final(self)@ == (StoreView {
                cells: old(self)@.cells.push(value),
                ..old(self)@
            }),
            value > CONVERSION_FACTOR ==> r == Err::<usize, _>(PreconditionViolation::OutOfRange)
                && final(self)@ == old(self)@,
    {
        match AtomicF64Between01::new(value) {
            Ok(cell) => {
                let id: usize = self.cells.len();
                self.cells.push(cell);
                Ok(id)
            },
            Err(e) => Err(e),
        }
    }

    /// Adds an invalid cache and hands back its index.
    pub fn add_cache(&mut self) -> (r: usize)
        ensures
            r == old(self)@.caches.len(),
            final(self)@ == (StoreView { caches: old(self)@.caches.push(None), ..old(self)@ }),
    {
        let slot: usize = self.caches.len();
        self.caches.push(
            CacheSlot { cached_value: AtomicF64Between01::default(), is_cached: false },
        );
        slot
    }

    /// The value of cell `id`; 0 where there is no such cell.
    pub fn cell(&self, id: usize) -> (r: u64)
        ensures
            r == self@.cell(id),
            r <= CONVERSION_FACTOR,
    {
        if id < self.cells.len() {
            self.cells[id].load()
        } else {
            0
        }
    }

    /// Writes `value` to cell `id`. Rejects a value above 1, then an index
    /// that names no cell.
    pub fn set_cell(&mut self, id: usize, value: u64) -> (r: Result<(), PreconditionViolation>)
        ensures
            value > CONVERSION_FACTOR ==> r == Err::<(), _>(PreconditionViolation::OutOfRange),
            value <= CONVERSION_FACTOR && id >= old(self)@.cells.len() ==> r == Err::<(), _>(
                PreconditionViolation::UnknownCell,
            ),
            value <= CONVERSION_FACTOR && id < old(self)@.cells.len() ==> r is Ok,
            r is Ok ==> final(self)@ == old(self)@.with_cell(id, value),
            r is Err ==> final(self)@ == old(self)@,
    {
        if value > CONVERSION_FACTOR {
            return Err(PreconditionViolation::OutOfRange);
        }
        if id >= self.cells.len() {
            return Err(PreconditionViolation::UnknownCell);
        }
        self.cells[id].store(value)
    }

    /// What cache `slot` would hand out; `None` where it is invalid or there
    /// is no such cache.
    pub fn cached(&self, slot: usize) -> (r: Option<u64>)
        ensures
            r == self@.cached(slot),
            r matches Some(v) ==> v <= CONVERSION_FACTOR,
    {
        if slot < self.caches.len() && self.caches[slot].is_cached {
            Some(self.caches[slot].cached_value.load())
        } else {
            None
        }
    }

    /// Fills cache `slot` with `value` and marks it valid. Rejects a value
    /// above 1, then an index that names no cache.
    pub fn fill_cache(&mut self, slot: usize, value: u64) -> (r: Result<(), PreconditionViolation>)
        ensures
            value > CONVERSION_FACTOR ==> r == Err::<(), _>(PreconditionViolation::OutOfRange),
            value <= CONVERSION_FACTOR && slot >= old(self)@.caches.len() ==> r == Err::<(), _>(
                PreconditionViolation::UnknownCell,
            ),
            value <= CONVERSION_FACTOR && slot < old(self)@.caches.len() ==> r is Ok,
            r is Ok ==> final(self)@ == old(self)@.with_cache(slot, Some(value)),
            r is Err ==> final(self)@ == old(self)@,
    {
        if value > CONVERSION_FACTOR {
            return Err(PreconditionViolation::OutOfRange);
        }
        if slot >= self.caches.len() {
            return Err(PreconditionViolation::UnknownCell);
        }
        let stored = self.caches[slot].cached_value.store(value);
        self.caches[slot].is_cached = true;
        stored
    }

    /// Marks cache `slot` invalid; the scalar in it stays. Nothing happens
    /// where there is no such cache.
    pub fn invalidate(&mut self, slot: usize)
        ensures
            final(self)@ == old(self)@.with_cache(slot, None),
    {
        if slot < self.caches.len() {
            self.caches[slot].is_cached = false;
        }
    }
}

} // verus!
