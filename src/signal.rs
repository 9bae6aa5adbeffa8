//! Cells, read-only cell handles and derived values.
//!
//! Every cell lives in a `Signals` store and is addressed by a handle. Reading
//! takes the store by shared reference and writing by mutable reference, so a
//! cell can never be written while a read of the store is in progress.
use vstd::prelude::*;

verus! {

/// The store that owns the value of every cell.
pub struct Signals<T> {
    values: Vec<T>,
}

impl<T> View for Signals<T> {
    type V = Seq<T>;

    closed spec fn view(&self) -> Seq<T> {
        self.values@
    }
}

impl<T> Signals<T> {
    /// An empty store.
    pub fn new() -> (r: Signals<T>)
        ensures
            r@ == Seq::<T>::empty(),
    {
        Signals { values: Vec::new() }
    }

    /// The number of cells in the store.
    pub fn len(&self) -> (r: usize)
        ensures
            r == self@.len(),
    {
        self.values.len()
    }
}

/// A handle to one cell of a store. Copies of a handle name the same cell, so
/// every holder sees every write.
pub struct Signal<T> {
    index: usize,
    marker: std::marker::PhantomData<T>,
}

impl<T> Clone for Signal<T> {
    fn clone(&self) -> (r: Signal<T>)
        ensures
            r.id() == self.id(),
    {
        Signal { index: self.index, marker: std::marker::PhantomData }
    }
}

impl<T> Signal<T> {
    /// The position of the cell in its store.
    pub closed spec fn id(&self) -> int {
        self.index as int
    }

    /// Adds a cell holding `initial` to the store.
    pub fn new(cells: &mut Signals<T>, initial: T) -> (r: Signal<T>)
        requires
            old(cells)@.len() < usize::MAX,
        ensures
            final(cells)@ == old(cells)@.push(initial),
            r.id() == old(cells)@.len(),
    {
        let index = cells.values.len();
        cells.values.push(initial);
        Signal { index, marker: std::marker::PhantomData }
    }

    /// Runs `f` on the current value and returns what it returns.
    pub fn map<O, F: Fn(&T) -> O>(&self, cells: &Signals<T>, f: F) -> (r: O)
        requires
            0 <= self.id() < cells@.len(),
            f.requires((&cells@[self.id()],)),
        ensures
            f.ensures((&cells@[self.id()],), r),
    {
        f(&cells.values[self.index])
    }

    /// Replaces the value by what `f` makes of it; no other cell changes.
    pub fn update<F: Fn(&T) -> T>(&self, cells: &mut Signals<T>, f: F)
        requires
            0 <= self.id() < old(cells)@.len(),
            f.requires((&old(cells)@[self.id()],)),
        ensures
            f.ensures((&old(cells)@[self.id()],), final(cells)@[self.id()]),
            final(cells)@ == old(cells)@.update(self.id(), final(cells)@[self.id()]),
    {
        let v = f(&cells.values[self.index]);
        cells.values.set(self.index, v);
    }

    /// Overwrites the value; no other cell changes.
    pub fn set(&self, cells: &mut Signals<T>, value: T)
        requires
            0 <= self.id() < old(cells)@.len(),
        ensures
            final(cells)@ == old(cells)@.update(self.id(), value),
    {
        cells.values.set(self.index, value);
    }
}

impl<T: Copy> Signal<T> {
    /// The current value.
    pub fn get(&self, cells: &Signals<T>) -> (r: T)
        requires
            0 <= self.id() < cells@.len(),
        ensures
            r == cells@[self.id()],
    {
        cells.values[self.index]
    }

    /// A derived value that reads this cell.
    pub fn to_derived(&self) -> (r: DerivedSignal<impl Fn(&Signals<T>) -> T>)
        ensures
            forall|cells: &Signals<T>| 0 <= self.id() < cells@.len() ==> r.can_get(cells),
            forall|cells: &Signals<T>, v: T|
                0 <= self.id() < cells@.len() && r.yields(cells, v) ==> v == cells@[self.id()],
    {
        let cell = self.clone();
        DerivedSignal::new(move |cells: &Signals<T>| -> (v: T)
            requires
                0 <= cell.id() < cells@.len(),
            ensures
                v == cells@[cell.id()],
            { cell.get(cells) })
    }
}

/// A handle that can read a cell but not write it.
pub struct SignalRead<T> {
    inner: Signal<T>,
}

impl<T> SignalRead<T> {
    /// The position of the cell in its store.
    pub closed spec fn id(&self) -> int {
        self.inner.id()
    }

    /// Adds a cell holding `initial` to the store, and hands out only a
    /// read-only handle to it.
    pub fn new(cells: &mut Signals<T>, initial: T) -> (r: SignalRead<T>)
        requires
            old(cells)@.len() < usize::MAX,
        ensures
            final(cells)@ == old(cells)@.push(initial),
            r.id() == old(cells)@.len(),
    {
        SignalRead { inner: Signal::new(cells, initial) }
    }

    /// Runs `f` on the current value and returns what it returns.
    pub fn map<O, F: Fn(&T) -> O>(&self, cells: &Signals<T>, f: F) -> (r: O)
        requires
            0 <= self.id() < cells@.len(),
            f.requires((&cells@[self.id()],)),
        ensures
            f.ensures((&cells@[self.id()],), r),
    {
        self.inner.map(cells, f)
    }
}

impl<T: Copy> SignalRead<T> {
    /// The current value.
    pub fn get(&self, cells: &Signals<T>) -> (r: T)
        requires
            0 <= self.id() < cells@.len(),
        ensures
            r == cells@[self.id()],
    {
        self.inner.get(cells)
    }

    /// A derived value that reads this cell.
    pub fn to_derived(&self) -> (r: DerivedSignal<impl Fn(&Signals<T>) -> T>)
        ensures
            forall|cells: &Signals<T>| 0 <= self.id() < cells@.len() ==> r.can_get(cells),
            forall|cells: &Signals<T>, v: T|
                0 <= self.id() < cells@.len() && r.yields(cells, v) ==> v == cells@[self.id()],
    {
        self.inner.to_derived()
    }
}

impl<T> Signal<T> {
    /// A read-only handle to the same cell.
    pub fn read_only(self) -> (r: SignalRead<T>)
        ensures
            r.id() == self.id(),
    {
        SignalRead { inner: self }
    }
}

impl<T> From<Signal<T>> for SignalRead<T> {
    fn from(value: Signal<T>) -> (r: SignalRead<T>) {
        value.read_only()
    }
}

impl<T> vstd::std_specs::convert::FromSpecImpl<Signal<T>> for SignalRead<T> {
    open spec fn obeys_from_spec() -> bool {
        true
    }

    closed spec fn from_spec(v: Signal<T>) -> SignalRead<T> {
        SignalRead { inner: v }
    }
}

/// A derived value: a computation over the cells of a store, run in full on
/// every read. Nothing is cached between reads.
pub struct DerivedSignal<F> {
    computation: F,
}

impl<F> DerivedSignal<F> {
    /// The computation may run on `cells`.
    pub closed spec fn can_get<C, T>(&self, cells: &Signals<C>) -> bool
        where F: Fn(&Signals<C>) -> T,
    {
        call_requires(self.computation, (cells,))
    }

    /// `r` is a possible result of the computation on `cells`.
    pub closed spec fn yields<C, T>(&self, cells: &Signals<C>, r: T) -> bool
        where F: Fn(&Signals<C>) -> T,
    {
        call_ensures(self.computation, (cells,), r)
    }

    pub fn new<C, T>(computation: F) -> (r: DerivedSignal<F>)
        where F: Fn(&Signals<C>) -> T,
        ensures
            forall|cells: &Signals<C>| r.can_get(cells) == computation.requires((cells,)),
            forall|cells: &Signals<C>, v: T| r.yields(cells, v) == computation.ensures((cells,), v),
    {
        DerivedSignal { computation }
    }

    /// Runs the computation on the store as it is now.
    pub fn get<C, T>(&self, cells: &Signals<C>) -> (r: T)
        where F: Fn(&Signals<C>) -> T,
        requires
            self.can_get(cells),
        ensures
            self.yields(cells, r),
    {
        (self.computation)(cells)
    }
}

/// A derived value that always yields `value`, on any store.
pub fn constant<C, T: Copy>(value: T) -> (r: DerivedSignal<impl Fn(&Signals<C>) -> T>)
    ensures
        forall|cells: &Signals<C>| r.can_get(cells),
        forall|cells: &Signals<C>, v: T| r.yields(cells, v) ==> v == value,
{
    DerivedSignal::new(move |_cells: &Signals<C>| -> (v: T)
        ensures
            v == value,
        { value })
}

} // verus!
