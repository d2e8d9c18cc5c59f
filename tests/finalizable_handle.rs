use std::cell::RefCell;
use std::rc::Rc;

use nativeshell_core::{finalize_handle, AttachOutcome, FinalizableHandle, HandleRegistry};

type Finalizer = Box<dyn FnOnce()>;

fn counter_finalizer(count: &Rc<RefCell<u32>>) -> Finalizer {
    let count = count.clone();
    Box::new(move || *count.borrow_mut() += 1)
}

fn run_all(finalizers: Vec<Finalizer>) -> usize {
    let n = finalizers.len();
    for f in finalizers {
        f();
    }
    n
}

#[test]
fn new_handle_is_unattached_and_live() {
    let mut registry: HandleRegistry<Finalizer> = HandleRegistry::new();
    let runs = Rc::new(RefCell::new(0));
    let h = FinalizableHandle::new(&mut registry, 1024, 7, counter_finalizer(&runs));
    assert_eq!(h.id(), 0);
    assert!(!h.is_attached(&registry));
    assert!(!h.is_finalized(&registry));
    let h2 = FinalizableHandle::new(&mut registry, 0, 7, counter_finalizer(&runs));
    assert_eq!(h2.id(), 1);
    assert_eq!(registry.len(), 2);
    assert_eq!(*runs.borrow(), 0);
}

#[test]
fn release_of_unattached_handle_discards_finalizer() {
    let mut registry: HandleRegistry<Finalizer> = HandleRegistry::new();
    let runs = Rc::new(RefCell::new(0));
    let h = FinalizableHandle::new(&mut registry, 10, 1, counter_finalizer(&runs));
    let id = h.id();
    let dropped = h.release(&mut registry);
    assert!(dropped.is_some());
    drop(dropped);
    assert_eq!(registry.len(), 0);
    assert!(!registry.is_attached_id(id));
    assert!(finalize_handle(&mut registry, id).is_none());
    assert_eq!(*runs.borrow(), 0);
}

#[test]
fn host_finalization_runs_finalizer_exactly_once() {
    let mut registry: HandleRegistry<Finalizer> = HandleRegistry::new();
    let runs = Rc::new(RefCell::new(0));
    let h = FinalizableHandle::new(&mut registry, 10, 3, counter_finalizer(&runs));
    let id = h.id();
    assert!(matches!(registry.attach(id, 3, 77), AttachOutcome::Attached));
    assert!(h.is_attached(&registry));
    assert_eq!(registry.on_host_finalized(id), Some(77));
    assert!(!h.is_attached(&registry));
    let f = finalize_handle(&mut registry, id).expect("finalizer present");
    f();
    assert_eq!(*runs.borrow(), 1);
    assert!(h.is_finalized(&registry));
    assert!(finalize_handle(&mut registry, id).is_none());
    assert_eq!(registry.on_host_finalized(id), None);
    assert_eq!(*runs.borrow(), 1);
}

#[test]
fn release_after_attach_keeps_row_until_host_reports() {
    let mut registry: HandleRegistry<Finalizer> = HandleRegistry::new();
    let runs = Rc::new(RefCell::new(0));
    let h = FinalizableHandle::new(&mut registry, 10, 3, counter_finalizer(&runs));
    let id = h.id();
    registry.attach(id, 3, 5);
    let cleared = h.release(&mut registry);
    assert!(cleared.is_some());
    drop(cleared);
    assert_eq!(registry.len(), 1);
    assert!(registry.is_attached_id(id));
    assert_eq!(registry.on_host_finalized(id), Some(5));
    assert!(finalize_handle(&mut registry, id).is_none());
    assert_eq!(registry.len(), 0);
    assert_eq!(*runs.borrow(), 0);
}

#[test]
fn attach_outcomes() {
    let mut registry: HandleRegistry<Finalizer> = HandleRegistry::new();
    let h = FinalizableHandle::new(&mut registry, 10, 3, Box::new(|| {}));
    let id = h.id();
    assert!(matches!(registry.attach(id + 1, 3, 1), AttachOutcome::NotFound));
    assert!(matches!(registry.attach(id, 4, 1), AttachOutcome::IsolateMismatch));
    assert!(!h.is_attached(&registry));
    assert!(matches!(registry.attach(id, 3, 9), AttachOutcome::Attached));
    assert!(matches!(registry.attach(id, 3, 1), AttachOutcome::AlreadyAttached(9)));
}

#[test]
fn update_size_reports_isolate_only_when_attached() {
    let mut registry: HandleRegistry<Finalizer> = HandleRegistry::new();
    let h = FinalizableHandle::new(&mut registry, 10, 3, Box::new(|| {}));
    let id = h.id();
    assert_eq!(h.update_size(&mut registry, 20), None);
    assert_eq!(registry.pending_size_update(id), None);
    registry.attach(id, 3, 11);
    assert_eq!(h.update_size(&mut registry, 30), Some(3));
    assert_eq!(registry.pending_size_update(id), Some((11, 30)));
}

#[test]
fn finalize_all_sweeps_only_unattached_rows_of_isolate() {
    let mut registry: HandleRegistry<Finalizer> = HandleRegistry::new();
    let runs_a = Rc::new(RefCell::new(0));
    let runs_b = Rc::new(RefCell::new(0));
    let a1 = FinalizableHandle::new(&mut registry, 1, 1, counter_finalizer(&runs_a));
    let a2 = FinalizableHandle::new(&mut registry, 1, 1, counter_finalizer(&runs_a));
    let a3 = FinalizableHandle::new(&mut registry, 1, 1, counter_finalizer(&runs_a));
    let b1 = FinalizableHandle::new(&mut registry, 1, 2, counter_finalizer(&runs_b));
    registry.attach(a2.id(), 1, 42);
    let swept = registry.finalize_all(1);
    assert_eq!(run_all(swept), 2);
    assert_eq!(*runs_a.borrow(), 2);
    assert_eq!(*runs_b.borrow(), 0);
    assert!(a1.is_finalized(&registry));
    assert!(!a2.is_finalized(&registry));
    assert!(a3.is_finalized(&registry));
    assert!(!b1.is_finalized(&registry));
    assert_eq!(registry.len(), 2);
    assert_eq!(run_all(registry.finalize_all(1)), 0);
}

#[test]
fn finalize_all_skips_released_finalizers() {
    let mut registry: HandleRegistry<Finalizer> = HandleRegistry::new();
    let runs = Rc::new(RefCell::new(0));
    let a = FinalizableHandle::new(&mut registry, 1, 1, counter_finalizer(&runs));
    let b = FinalizableHandle::new(&mut registry, 1, 1, counter_finalizer(&runs));
    drop(a.release(&mut registry));
    assert_eq!(run_all(registry.finalize_all(1)), 1);
    assert_eq!(*runs.borrow(), 1);
    assert!(b.is_finalized(&registry));
}
