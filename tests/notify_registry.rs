use sui_core::notify::NotifyRegistry;
use sui_core::position::{BlockRef, TransactionPosition};

fn position(round: u64, index: u32) -> TransactionPosition {
    TransactionPosition::new(BlockRef::new(round, 1, [3u8; 32]), index)
}

#[test]
fn notify_wakes_all_waiters_of_key_once() {
    let mut registry = NotifyRegistry::new();
    let a = position(1, 0);
    let b = position(1, 1);
    let w1 = registry.register(a);
    let w2 = registry.register(b);
    let w3 = registry.register(a);
    assert_ne!(w1, w3);
    let mut woken = registry.notify(&a);
    woken.sort();
    let mut expected = vec![w1, w3];
    expected.sort();
    assert_eq!(woken, expected);
    assert!(registry.notify(&a).is_empty());
    assert_eq!(registry.notify(&b), vec![w2]);
}

#[test]
fn later_registration_is_not_woken_by_earlier_notify() {
    let mut registry = NotifyRegistry::new();
    let a = position(2, 0);
    assert!(registry.notify(&a).is_empty());
    let w = registry.register(a);
    assert_eq!(registry.notify(&a), vec![w]);
}

#[test]
fn deregistered_waiter_is_forgotten() {
    let mut registry = NotifyRegistry::new();
    let a = position(2, 0);
    let w1 = registry.register(a);
    let w2 = registry.register(a);
    registry.deregister(w1);
    registry.deregister(w1);
    assert_eq!(registry.notify(&a), vec![w2]);
    assert!(registry.has_capacity());
}
