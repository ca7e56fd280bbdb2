//! Direct tests of the driver's building blocks: the frame queue and the
//! channel registry.

use rtl8139::{FrameQueue, Registry};

#[test]
fn frame_queue_is_fifo() {
    let mut q = FrameQueue::new();
    assert_eq!(q.len(), 0);
    assert_eq!(q.pop(), None);
    q.push(vec![1, 2, 3]);
    q.push(vec![4]);
    q.push(vec![]);
    assert_eq!(q.len(), 3);
    assert_eq!(q.pop(), Some(vec![1, 2, 3]));
    assert_eq!(q.pop(), Some(vec![4]));
    assert_eq!(q.pop(), Some(vec![]));
    assert_eq!(q.pop(), None);
    assert_eq!(q.len(), 0);
}

#[test]
fn registry_issues_fresh_handles() {
    let mut r = Registry::new();
    let a = r.attach();
    let b = r.attach();
    let c = r.attach();
    assert_eq!(r.len(), 3);
    assert!(a != b && b != c && a != c);
    // Handles are never reused, even after a detach.
    r.detach(b);
    assert_eq!(r.len(), 2);
    let d = r.attach();
    assert!(d != a && d != b && d != c);
}

#[test]
fn registry_detach_removes_exactly_one() {
    let mut r = Registry::new();
    let a = r.attach();
    let b = r.attach();
    r.detach(a);
    assert_eq!(r.len(), 1);
    // Detaching an absent handle changes nothing.
    r.detach(a);
    assert_eq!(r.len(), 1);
    r.detach(b);
    assert_eq!(r.len(), 0);
}

#[test]
fn registry_queues_per_handle() {
    let mut r = Registry::new();
    let a = r.attach();
    let b = r.attach();
    r.push_outbound(a, vec![1, 1]);
    r.push_outbound(b, vec![2, 2]);
    r.push_outbound(a, vec![3, 3]);
    assert_eq!(r.outbound_len(a), 2);
    assert_eq!(r.outbound_len(b), 1);
    assert_eq!(r.pop_inbound(a), None);
    let frames = vec![vec![9u8; 5]];
    r.deliver_to_all(&frames);
    assert_eq!(r.pop_inbound(a), Some(vec![9u8; 5]));
    assert_eq!(r.pop_inbound(b), Some(vec![9u8; 5]));
    assert_eq!(r.pop_inbound(a), None);
}
