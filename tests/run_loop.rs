use std::cell::RefCell;
use std::rc::Rc;

use nativeshell_core::{send_and_wait_mode, RunLoopState, SendMode, INVALID_HANDLE};

type Callback = Box<dyn FnOnce()>;

fn drain(state: &mut RunLoopState<Callback>, now: u64) -> usize {
    let pending = state.take_pending(now);
    let mut n = 0;
    for c in pending.callbacks {
        c();
        n += 1;
    }
    for t in pending.timers {
        (t.callback)();
        n += 1;
    }
    n
}

fn recorder(log: &Rc<RefCell<Vec<u64>>>, tag: u64) -> Callback {
    let log = log.clone();
    Box::new(move || log.borrow_mut().push(tag))
}

#[test]
fn scheduled_callback_fires_only_once_due() {
    let mut state: RunLoopState<Callback> = RunLoopState::new();
    let fired = Rc::new(RefCell::new(false));
    let f = fired.clone();
    state.schedule(0, 50, Box::new(move || *f.borrow_mut() = true));
    assert!(!*fired.borrow());
    assert_eq!(drain(&mut state, 49), 0);
    assert!(!*fired.borrow());
    assert_eq!(state.next_instant(49), Some(50));
    assert_eq!(drain(&mut state, 50), 1);
    assert!(*fired.borrow());
    assert!(!state.has_timers());
    assert_eq!(drain(&mut state, 1000), 0);
}

#[test]
fn timers_fire_in_delay_order_once_each() {
    let mut state: RunLoopState<Callback> = RunLoopState::new();
    let log = Rc::new(RefCell::new(Vec::new()));
    for delay in [30u64, 10, 50, 20, 40] {
        state.schedule(0, delay, recorder(&log, delay));
    }
    assert_eq!(drain(&mut state, 25), 2);
    assert_eq!(drain(&mut state, 100), 3);
    assert_eq!(drain(&mut state, 200), 0);
    assert_eq!(*log.borrow(), vec![10, 20, 30, 40, 50]);
}

#[test]
fn handles_are_fresh_and_valid() {
    let mut state: RunLoopState<Callback> = RunLoopState::new();
    let a = state.schedule(0, 5, Box::new(|| {}));
    let b = state.schedule(0, 5, Box::new(|| {}));
    assert_ne!(a, INVALID_HANDLE);
    assert_ne!(b, INVALID_HANDLE);
    assert!(b > a);
    assert!(state.unschedule(a).is_some());
    let c = state.schedule(0, 5, Box::new(|| {}));
    assert!(c > b);
}

#[test]
fn unscheduled_timer_never_fires() {
    let mut state: RunLoopState<Callback> = RunLoopState::new();
    let log = Rc::new(RefCell::new(Vec::new()));
    let h = state.schedule(0, 10, recorder(&log, 1));
    state.schedule(0, 10, recorder(&log, 2));
    assert!(state.unschedule(h).is_some());
    assert_eq!(drain(&mut state, 10), 1);
    assert_eq!(*log.borrow(), vec![2]);
}

#[test]
fn unschedule_after_firing_is_a_no_op() {
    let mut state: RunLoopState<Callback> = RunLoopState::new();
    let log = Rc::new(RefCell::new(Vec::new()));
    let h = state.schedule(0, 0, recorder(&log, 7));
    let other = state.schedule(0, 100, recorder(&log, 8));
    assert_eq!(drain(&mut state, 0), 1);
    assert!(state.unschedule(h).is_none());
    assert!(state.unschedule(h).is_none());
    assert!(state.has_timers());
    assert!(state.unschedule(other).is_some());
    assert!(!state.has_timers());
    assert_eq!(*log.borrow(), vec![7]);
}

#[test]
fn callbacks_run_before_timers_in_arrival_order() {
    let mut state: RunLoopState<Callback> = RunLoopState::new();
    let log = Rc::new(RefCell::new(Vec::new()));
    state.schedule(0, 0, recorder(&log, 100));
    state.send(recorder(&log, 1));
    state.send(recorder(&log, 2));
    state.send(recorder(&log, 3));
    assert!(state.has_callbacks());
    assert_eq!(state.next_instant(5), Some(5));
    assert_eq!(drain(&mut state, 0), 4);
    assert!(!state.has_callbacks());
    assert_eq!(*log.borrow(), vec![1, 2, 3, 100]);
}

#[test]
fn work_queued_during_a_drain_waits_for_the_next_one() {
    let state = Rc::new(RefCell::new(RunLoopState::<Callback>::new()));
    let log = Rc::new(RefCell::new(Vec::new()));
    let s = state.clone();
    let l = log.clone();
    state.borrow_mut().send(Box::new(move || {
        l.borrow_mut().push(1);
        s.borrow_mut().send(recorder(&l, 2));
    }));
    let pending = state.borrow_mut().take_pending(0);
    for c in pending.callbacks {
        c();
    }
    assert_eq!(*log.borrow(), vec![1]);
    let pending = state.borrow_mut().take_pending(0);
    for c in pending.callbacks {
        c();
    }
    assert_eq!(*log.borrow(), vec![1, 2]);
}

#[test]
fn next_instant_is_earliest_timer_or_none() {
    let mut state: RunLoopState<Callback> = RunLoopState::new();
    assert_eq!(state.next_instant(3), None);
    state.schedule(10, 30, Box::new(|| {}));
    state.schedule(10, 15, Box::new(|| {}));
    state.schedule(10, 60, Box::new(|| {}));
    assert_eq!(state.next_instant(10), Some(25));
}

#[test]
fn deadline_saturates_at_end_of_clock() {
    let mut state: RunLoopState<Callback> = RunLoopState::new();
    state.schedule(u64::MAX - 1, 10, Box::new(|| {}));
    assert_eq!(state.next_instant(0), Some(u64::MAX));
    assert_eq!(drain(&mut state, u64::MAX - 1), 0);
    assert_eq!(drain(&mut state, u64::MAX), 1);
}

#[test]
fn send_and_wait_runs_in_place_on_owner_thread() {
    assert_eq!(send_and_wait_mode(3, 3), SendMode::RunInPlace);
    assert_eq!(send_and_wait_mode(4, 3), SendMode::EnqueueAndWait);
    assert_eq!(send_and_wait_mode(0, 1), SendMode::EnqueueAndWait);
}

#[test]
fn callbacks_from_one_sender_keep_fifo_order() {
    let mut state: RunLoopState<Callback> = RunLoopState::new();
    let log = Rc::new(RefCell::new(Vec::new()));
    for i in 0..10u64 {
        state.send(recorder(&log, i));
    }
    assert_eq!(drain(&mut state, 0), 10);
    assert_eq!(*log.borrow(), (0..10).collect::<Vec<u64>>());
}
