use std::cell::RefCell;
use std::rc::Rc;

use nativeshell_core::{RunLoopState, TaskSlot};

#[test]
fn value_is_taken_once_and_waker_recorded_first_wins() {
    let mut slot: TaskSlot<u32, &'static str> = TaskSlot::new();
    assert!(slot.needs_poll());
    assert_eq!(slot.poll_join("first"), None);
    assert_eq!(slot.poll_join("second"), None);
    assert_eq!(slot.take_waker_if_ready(), None);
    slot.complete(5);
    assert!(!slot.needs_poll());
    assert_eq!(slot.take_waker_if_ready(), Some("first"));
    assert_eq!(slot.take_waker_if_ready(), None);
    assert_eq!(slot.poll_join("third"), Some(5));
    assert_eq!(slot.poll_join("fourth"), None);
    assert!(!slot.needs_poll());
}

#[test]
fn completed_before_first_poll() {
    let mut slot: TaskSlot<&'static str, u8> = TaskSlot::new();
    slot.complete("done");
    assert_eq!(slot.take_waker_if_ready(), None);
    assert_eq!(slot.poll_join(1), Some("done"));
}

#[test]
fn task_waiting_on_a_timer_completes_only_once_it_fires() {
    let slot: Rc<RefCell<TaskSlot<&'static str, &'static str>>> = Rc::new(RefCell::new(TaskSlot::new()));
    let mut state: RunLoopState<Box<dyn FnOnce()>> = RunLoopState::new();
    let s = slot.clone();
    state.schedule(0, 50, Box::new(move || s.borrow_mut().complete("stopped")));
    assert_eq!(slot.borrow_mut().poll_join("joiner"), None);
    for now in [0u64, 10, 49] {
        for t in state.take_pending(now).timers {
            (t.callback)();
        }
        assert!(slot.borrow().needs_poll());
    }
    for t in state.take_pending(50).timers {
        (t.callback)();
    }
    assert!(!slot.borrow().needs_poll());
    assert_eq!(slot.borrow_mut().take_waker_if_ready(), Some("joiner"));
    assert_eq!(slot.borrow_mut().poll_join("joiner"), Some("stopped"));
}
