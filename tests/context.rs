use std::cell::RefCell;
use std::rc::Rc;

use nativeshell_core::AttachmentRegistry;

struct DropLogger {
    name: &'static str,
    log: Rc<RefCell<Vec<&'static str>>>,
}

impl Drop for DropLogger {
    fn drop(&mut self) {
        self.log.borrow_mut().push(self.name);
    }
}

#[test]
fn attachments_are_destroyed_in_reverse_insertion_order() {
    let log = Rc::new(RefCell::new(Vec::new()));
    let mut registry = AttachmentRegistry::new();
    for (tag, name) in [(30u64, "first"), (10, "second"), (20, "third")] {
        assert!(!registry.contains(tag));
        registry.insert(tag, DropLogger { name, log: log.clone() });
    }
    assert_eq!(registry.len(), 3);
    while let Some(attachment) = registry.take_last() {
        drop(attachment);
    }
    assert_eq!(*log.borrow(), vec!["third", "second", "first"]);
}

#[test]
fn take_last_yields_last_inserted_first() {
    let mut registry = AttachmentRegistry::new();
    registry.insert(1, "a");
    registry.insert(2, "b");
    registry.insert(3, "c");
    let mut order = Vec::new();
    while let Some(v) = registry.take_last() {
        order.push(v);
    }
    assert_eq!(order, vec!["c", "b", "a"]);
    assert_eq!(registry.len(), 0);
    assert!(registry.take_last().is_none());
}

#[test]
fn attachment_lookup_by_tag() {
    let mut registry = AttachmentRegistry::new();
    assert_eq!(registry.get(5), None);
    registry.insert(5, 500u32);
    registry.insert(6, 600u32);
    assert_eq!(registry.get(5), Some(&500));
    assert_eq!(registry.get(6), Some(&600));
    assert!(registry.contains(6));
    assert!(!registry.contains(7));
}
