use std::cell::Cell;

use video_generator::signal::{constant, DerivedSignal, Signal, SignalRead, Signals};

#[test]
fn cell_read_after_write() {
    let mut cells: Signals<i32> = Signals::new();
    let c = Signal::new(&mut cells, 5);
    c.update(&mut cells, |v| *v + 1);
    assert_eq!(c.map(&cells, |v| *v), 6);
    assert_eq!(c.get(&cells), 6);
}

#[test]
fn derived_value_sees_update_without_invalidation() {
    let mut cells: Signals<i32> = Signals::new();
    let c = Signal::new(&mut cells, 5);
    let h = c.clone();
    let d = DerivedSignal::new(move |s: &Signals<i32>| h.get(s));
    assert_eq!(d.get(&cells), 5);
    c.update(&mut cells, |v| *v + 1);
    assert_eq!(d.get(&cells), 6);
}

#[test]
fn derived_value_recomputes_on_every_get() {
    let counter = Cell::new(0u32);
    let cells: Signals<u32> = Signals::new();
    let d = DerivedSignal::new(|_s: &Signals<u32>| {
        counter.set(counter.get() + 1);
        counter.get()
    });
    let first = d.get(&cells);
    let second = d.get(&cells);
    assert_eq!(first, 1);
    assert_eq!(second, 2);
    assert!(second > first);
}

#[test]
fn derived_value_of_derived_values() {
    let mut cells: Signals<i32> = Signals::new();
    let a = Signal::new(&mut cells, 2);
    let b = Signal::new(&mut cells, 3);
    let (ha, hb) = (a.clone(), b.clone());
    let sum = DerivedSignal::new(move |s: &Signals<i32>| ha.get(s) + hb.get(s));
    let doubled = DerivedSignal::new(move |s: &Signals<i32>| sum.get(s) * 2);
    assert_eq!(doubled.get(&cells), 10);
    b.set(&mut cells, 10);
    assert_eq!(doubled.get(&cells), 24);
    assert_eq!(a.get(&cells), 2);
}

#[test]
fn constant_derived_value_ignores_cells() {
    let mut cells: Signals<u32> = Signals::new();
    let c = Signal::new(&mut cells, 1);
    let k = constant(0xFF00FF00u32);
    assert_eq!(k.get(&cells), 0xFF00FF00);
    c.set(&mut cells, 7);
    assert_eq!(k.get(&cells), 0xFF00FF00);
}

#[test]
fn read_only_handle_shares_the_cell() {
    let mut cells: Signals<u32> = Signals::new();
    let c = Signal::new(&mut cells, 4);
    let r: SignalRead<u32> = SignalRead::from(c.clone());
    assert_eq!(r.get(&cells), 4);
    c.update(&mut cells, |v| *v * 10);
    assert_eq!(r.get(&cells), 40);
    assert_eq!(r.map(&cells, |v| *v + 2), 42);
}

#[test]
fn read_only_cell_keeps_its_initial_value() {
    let mut cells: Signals<u32> = Signals::new();
    let _first = Signal::new(&mut cells, 1);
    let r = SignalRead::new(&mut cells, 9);
    assert_eq!(cells.len(), 2);
    assert_eq!(r.get(&cells), 9);
}

#[test]
fn update_leaves_other_cells_alone() {
    let mut cells: Signals<u32> = Signals::new();
    let a = Signal::new(&mut cells, 1);
    let b = Signal::new(&mut cells, 2);
    a.update(&mut cells, |v| *v + 100);
    assert_eq!(a.get(&cells), 101);
    assert_eq!(b.get(&cells), 2);
}

#[test]
fn derived_value_of_a_cell_follows_writes() {
    let mut cells: Signals<u32> = Signals::new();
    let c = Signal::new(&mut cells, 5);
    let d = c.to_derived();
    let r = SignalRead::from(c.clone()).to_derived();
    assert_eq!(d.get(&cells), 5);
    c.update(&mut cells, |v| *v + 1);
    assert_eq!(d.get(&cells), 6);
    assert_eq!(r.get(&cells), 6);
}
