use rustos_core::queue::StaticQueue;

fn queue(n: usize) -> StaticQueue<u32> {
    StaticQueue::new(n, vec![0u32; n])
}

#[test]
fn new_queue_is_empty() {
    let q = queue(3);
    assert!(q.is_empty());
    assert!(!q.is_full());
}

#[test]
fn dequeue_on_empty_fails() {
    let mut q = queue(2);
    assert_eq!(q.dequeue(), Err(()));
}

#[test]
fn enqueue_fails_after_capacity_values() {
    let mut q = queue(3);
    assert!(q.enqueue(&1));
    assert!(q.enqueue(&2));
    assert!(!q.is_full());
    assert!(q.enqueue(&3));
    assert!(q.is_full());
    assert!(!q.enqueue(&4));
    assert_eq!(q.dequeue(), Ok(1));
    assert!(q.enqueue(&4));
    assert!(!q.enqueue(&5));
}

#[test]
fn interleaving_keeps_fifo_order() {
    let mut q = queue(4);
    let mut out = Vec::new();
    assert!(q.enqueue(&10));
    assert!(q.enqueue(&20));
    out.push(q.dequeue().unwrap());
    assert!(q.enqueue(&30));
    out.push(q.dequeue().unwrap());
    out.push(q.dequeue().unwrap());
    assert!(q.is_empty());
    assert!(q.enqueue(&40));
    out.push(q.dequeue().unwrap());
    assert_eq!(out, vec![10, 20, 30, 40]);
}

#[test]
fn wraps_around_many_times() {
    let mut q = queue(3);
    for i in 0..20u32 {
        assert!(q.enqueue(&i));
        assert!(q.enqueue(&(i + 100)));
        assert_eq!(q.dequeue(), Ok(i));
        assert_eq!(q.dequeue(), Ok(i + 100));
        assert!(q.is_empty());
    }
}

#[test]
fn single_slot_queue() {
    let mut q = queue(1);
    assert!(q.enqueue(&7));
    assert!(q.is_full());
    assert!(!q.enqueue(&8));
    assert_eq!(q.dequeue(), Ok(7));
    assert_eq!(q.dequeue(), Err(()));
}
