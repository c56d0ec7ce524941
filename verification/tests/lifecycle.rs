use std::cell::Cell;
use std::rc::Rc;

use jvec::ByteAllocator;
use jvec::JVec;

/// An element whose drop is observable: it bumps a shared counter.
struct Counted {
    counter: Rc<Cell<u32>>,
}

impl Drop for Counted {
    fn drop(&mut self) {
        self.counter.set(self.counter.get() + 1);
    }
}

#[test]
fn destruction_drops_each_element_once() {
    let counter = Rc::new(Cell::new(0u32));
    let mut a = ByteAllocator::new();
    let mut v = JVec::new();
    for _ in 0..7 {
        let pushed = v.push(&mut a, Counted { counter: Rc::clone(&counter) });
        assert!(pushed.is_ok());
    }
    assert_eq!(counter.get(), 0);
    let elems = v.destroy(&mut a);
    assert_eq!(a.outstanding_bytes(), 0);
    assert_eq!(counter.get(), 0);
    drop(elems);
    assert_eq!(counter.get(), 7);
}

#[test]
fn destruction_returns_elements_in_order() {
    let mut a = ByteAllocator::new();
    let mut v = JVec::new();
    for i in 0..6u16 {
        assert!(v.push(&mut a, i * 10).is_ok());
    }
    let elems = v.destroy(&mut a);
    assert_eq!(elems, vec![0, 10, 20, 30, 40, 50]);
    assert_eq!(a.outstanding_bytes(), 0);
}
