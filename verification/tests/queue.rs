use authority_fabric::queue::{BoundedQueue, PopError, Popped};
use std::time::{Duration, Instant};

#[test]
fn enforces_message_bound() {
    let mut q = BoundedQueue::new(2, 1 << 20);
    assert!(q.try_push(1, 0).is_ok());
    assert!(q.try_push(2, 0).is_ok());
    let err = q.try_push(3, 0).unwrap_err();
    assert_eq!(err.0, 3);
    assert_eq!(err.1.msgs, 2);
}

#[test]
fn enforces_byte_bound_and_unwinds_cleanly() {
    let mut q = BoundedQueue::<u32>::new(100, 8);
    assert!(q.try_push(1, 4).is_ok());
    assert!(q.try_push(2, 4).is_ok());
    let (item, bl) = q.try_push(3, 4).unwrap_err();
    assert_eq!(item, 3);
    assert_eq!(bl.bytes, 8);
    // pops restore accounting exactly
    assert_eq!(q.pop_deadline(0, 0), Ok(Popped::Item(1)));
    assert!(q.try_push(3, 4).is_ok());
}

#[test]
fn pop_times_out_when_empty() {
    let mut q = BoundedQueue::<u32>::new(1, 1024);
    let t0 = Instant::now();
    let out = loop {
        let now = t0.elapsed().as_millis() as u64;
        match q.pop_deadline(now, 60) {
            Ok(Popped::Wait(_)) => continue,
            Ok(Popped::Item(v)) => break Ok(v),
            Err(e) => break Err(e),
        }
    };
    assert_eq!(out, Err(PopError::Timeout));
    assert!(t0.elapsed() >= Duration::from_millis(55));
}

#[test]
fn push_after_close_fails() {
    let mut q = BoundedQueue::<u32>::new(1, 1024);
    q.close();
    assert!(q.try_push(1, 0).is_err());
}

#[test]
fn closing_ends_a_wait() {
    let mut q = BoundedQueue::<u32>::new(1, 1024);
    assert!(matches!(q.pop_deadline(0, 10_000), Ok(Popped::Wait(_))));
    q.close();
    assert_eq!(q.pop_deadline(50, 10_000), Err(PopError::Closed));
}
