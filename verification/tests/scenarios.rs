use jvec::ByteAllocator;
use jvec::JVec;
use jvec::JVecError;

#[test]
fn empty_container() {
    let mut a = ByteAllocator::new();
    let v = JVec::<u8>::new();
    assert_eq!(v.len(), 0);
    assert_eq!(v.capacity(), 0);
    assert!(v.get(0).is_none());
    let elems = v.destroy(&mut a);
    assert_eq!(elems.len(), 0);
    assert_eq!(a.outstanding_bytes(), 0);
}

#[test]
fn single_append_of_byte() {
    let mut a = ByteAllocator::new();
    let mut v = JVec::new();
    assert!(v.push(&mut a, 1u8).is_ok());
    assert_eq!(v.len(), 1);
    assert_eq!(v.capacity(), 4);
    assert_eq!(v.get(0), Some(&1));
    assert_eq!(v.get(1), None);
    assert_eq!(v.get(2), None);
    assert_eq!(v.get(usize::MAX), None);
    v.destroy(&mut a);
    assert_eq!(a.outstanding_bytes(), 0);
}

#[test]
fn five_byte_appends() {
    let mut a = ByteAllocator::new();
    let mut v = JVec::new();
    for b in 1..=5u8 {
        assert!(v.push(&mut a, b).is_ok());
    }
    assert_eq!(v.len(), 5);
    assert_eq!(v.capacity(), 8);
    for i in 0..5usize {
        assert_eq!(v.get(i), Some(&(i as u8 + 1)));
    }
    assert_eq!(v.get(5), None);
    assert_eq!(v.get(4), Some(&5));
    v.destroy(&mut a);
    assert_eq!(a.outstanding_bytes(), 0);
}

#[test]
fn hundred_appends_and_release() {
    let mut a = ByteAllocator::new();
    let mut v = JVec::new();
    for i in 0..100u32 {
        assert!(v.push(&mut a, i).is_ok());
    }
    assert_eq!(v.len(), 100);
    assert_eq!(v.capacity(), 128);
    for i in 0..100usize {
        assert_eq!(v.get(i), Some(&(i as u32)));
    }
    assert_eq!(v.get(100), None);
    assert_eq!(a.outstanding_bytes(), 128 * std::mem::size_of::<u32>());
    v.destroy(&mut a);
    assert_eq!(a.outstanding_bytes(), 0);
}

/// The capacity after n appends is the smallest value of the form
/// 4 * 2^k that is at least n, so it changes exactly when an append
/// finds the buffer full: at lengths 0, 4, 8, 16, 32, 64, ...
fn smallest_buffer_capacity_at_least(n: usize) -> usize {
    if n == 0 {
        return 0;
    }
    let mut c = 4usize;
    while c < n {
        c *= 2;
    }
    c
}

#[test]
fn growth_points_and_preserved_contents() {
    let mut a = ByteAllocator::new();
    let mut v = JVec::new();
    for i in 0..100u64 {
        let before = v.capacity();
        assert!(v.push(&mut a, i).is_ok());
        let grew = before != v.capacity();
        assert_eq!(grew, i as usize == before);
        assert_eq!(v.len(), i as usize + 1);
        assert_eq!(v.capacity(), smallest_buffer_capacity_at_least(i as usize + 1));
        assert!(v.capacity() >= v.len());
        for j in 0..=i as usize {
            assert_eq!(v.get(j), Some(&(j as u64)));
        }
    }
    v.destroy(&mut a);
    assert_eq!(a.outstanding_bytes(), 0);
}

#[test]
fn stub_refuses_first_call() {
    let mut a = ByteAllocator::new();
    a.fail_after_calls(0);
    let mut v = JVec::new();
    match v.push(&mut a, 7u8) {
        Err((e, rejected)) => {
            assert_eq!(e, JVecError::AllocationFailure);
            assert_eq!(rejected, 7);
        },
        Ok(()) => panic!("append must fail when the allocator refuses"),
    }
    assert_eq!(v.len(), 0);
    assert_eq!(v.capacity(), 0);
    assert!(v.get(0).is_none());
    assert_eq!(a.outstanding_bytes(), 0);
    a.clear_failure();
    assert!(v.push(&mut a, 7u8).is_ok());
    assert_eq!(v.len(), 1);
    assert_eq!(v.capacity(), 4);
    assert_eq!(v.get(0), Some(&7));
    v.destroy(&mut a);
    assert_eq!(a.outstanding_bytes(), 0);
}

#[test]
fn stub_refuses_growth_call() {
    let mut a = ByteAllocator::new();
    // The first allocation call (the initial buffer) proceeds; the
    // second (the growth at length 4) is refused.
    a.fail_after_calls(1);
    let mut v = JVec::new();
    for b in 1..=4u8 {
        assert!(v.push(&mut a, b).is_ok());
    }
    match v.push(&mut a, 5u8) {
        Err((e, rejected)) => {
            assert_eq!(e, JVecError::AllocationFailure);
            assert_eq!(rejected, 5);
        },
        Ok(()) => panic!("growth must fail when the allocator refuses"),
    }
    assert_eq!(v.len(), 4);
    assert_eq!(v.capacity(), 4);
    for i in 0..4usize {
        assert_eq!(v.get(i), Some(&(i as u8 + 1)));
    }
    assert_eq!(a.outstanding_bytes(), 4);
    a.clear_failure();
    assert!(v.push(&mut a, 5u8).is_ok());
    assert_eq!(v.len(), 5);
    assert_eq!(v.capacity(), 8);
    assert_eq!(v.get(4), Some(&5));
    v.destroy(&mut a);
    assert_eq!(a.outstanding_bytes(), 0);
}

#[test]
fn append_fails_when_no_bytes_left() {
    let mut a = ByteAllocator::new();
    // Book almost every byte the platform size type can count, so that
    // the container's initial allocation cannot be satisfied.
    let big = a.allocate(usize::MAX - 3, 1).expect("bookkeeping allocation");
    let mut v = JVec::new();
    match v.push(&mut a, 1u32) {
        Err((e, rejected)) => {
            assert_eq!(e, JVecError::AllocationFailure);
            assert_eq!(rejected, 1);
        },
        Ok(()) => panic!("append must fail when no bytes are left"),
    }
    assert_eq!(v.len(), 0);
    assert_eq!(v.capacity(), 0);
    a.free(big, usize::MAX - 3, 1);
    assert_eq!(a.outstanding_bytes(), 0);
    assert!(v.push(&mut a, 1u32).is_ok());
    assert_eq!(v.get(0), Some(&1));
    v.destroy(&mut a);
    assert_eq!(a.outstanding_bytes(), 0);
}

#[test]
fn zero_sized_elements() {
    let mut a = ByteAllocator::new();
    let mut v = JVec::new();
    for _ in 0..5 {
        assert!(v.push(&mut a, ()).is_ok());
    }
    assert_eq!(v.len(), 5);
    assert_eq!(v.capacity(), 8);
    assert_eq!(v.get(4), Some(&()));
    assert_eq!(v.get(5), None);
    // A zero-sized element costs no bytes, but the buffer is on the books.
    assert_eq!(a.outstanding_bytes(), 0);
    v.destroy(&mut a);
    assert_eq!(a.outstanding_bytes(), 0);
}

#[test]
fn allocator_books_balance() {
    let mut a = ByteAllocator::new();
    let r1 = a.allocate(16, 8).expect("first allocation");
    let r2 = a.allocate(32, 4).expect("second allocation");
    assert_eq!(a.outstanding_bytes(), 48);
    a.free(r1, 16, 8);
    assert_eq!(a.outstanding_bytes(), 32);
    let r3 = a.reallocate(r2, 32, 4, 64).expect("reallocation");
    assert_eq!(a.outstanding_bytes(), 64);
    a.free(r3, 64, 4);
    assert_eq!(a.outstanding_bytes(), 0);
}
