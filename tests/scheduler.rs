use sui_core::scheduler::{
    ExecutableTransaction, InputKey, ObjectRef, ReadinessEvent, TransactionManagerV2,
};

fn cert(tag: u8, epoch: u64, receiving: Vec<ObjectRef>) -> ExecutableTransaction {
    ExecutableTransaction { digest: [tag; 32], epoch, receiving_objects: receiving }
}

fn object(tag: u8, version: u64) -> ObjectRef {
    ObjectRef { id: [tag; 32], version }
}

fn owned_input(tag: u8, version: u64) -> InputKey {
    InputKey::VersionedObject { id: [tag; 32], start_version: None, version }
}

#[test]
fn ready_inputs_yield_one_pending_certificate() {
    let manager = TransactionManagerV2::new();
    let scheduled = manager.enqueue(vec![cert(1, 3, vec![])], 3);
    assert_eq!(scheduled.len(), 1);
    let mut handed_off = Vec::new();
    for c in scheduled {
        let wait = manager
            .schedule_transaction(c.certificate, c.expected_effects_digest, Some(vec![owned_input(9, 4)]), 100)
            .unwrap();
        assert_eq!(wait.input_and_receiving_keys, vec![owned_input(9, 4)]);
        assert_eq!(wait.digests, vec![[1u8; 32]]);
        if let Some(p) = wait.resolve(ReadinessEvent::InputsAvailable { now: 130 }) {
            handed_off.push(p);
        }
    }
    assert_eq!(handed_off.len(), 1);
    let p = &handed_off[0];
    assert_eq!(p.certificate.digest, [1u8; 32]);
    assert_eq!(p.expected_effects_digest, None);
    assert!(p.waiting_input_objects.is_empty());
    assert_eq!(p.stats.enqueue_time, 100);
    assert_eq!(p.stats.ready_time, Some(130));
    assert!(p.stats.ready_time.unwrap() >= p.stats.enqueue_time);
}

#[test]
fn already_executed_yields_nothing() {
    let manager = TransactionManagerV2::new();
    let wait = manager
        .schedule_transaction(cert(2, 0, vec![]), None, Some(vec![owned_input(5, 1)]), 7)
        .unwrap();
    assert!(wait.resolve(ReadinessEvent::AlreadyExecuted).is_none());
}

#[test]
fn failed_input_resolution_schedules_nothing() {
    let manager = TransactionManagerV2::new();
    assert!(manager.schedule_transaction(cert(2, 0, vec![]), None, None, 7).is_none());
}

#[test]
fn stale_epoch_certificates_are_dropped() {
    let manager = TransactionManagerV2::new();
    let scheduled = manager.enqueue(
        vec![cert(1, 4, vec![]), cert(2, 5, vec![]), cert(3, 5, vec![]), cert(4, 6, vec![])],
        5,
    );
    let digests: Vec<[u8; 32]> = scheduled.iter().map(|c| c.certificate.digest).collect();
    assert_eq!(digests, vec![[2u8; 32], [3u8; 32]]);
    assert!(manager.enqueue(vec![], 5).is_empty());
    assert!(manager.enqueue_certificates(vec![cert(1, 4, vec![])], 5).is_empty());
    assert_eq!(manager.enqueue_certificates(vec![cert(1, 5, vec![])], 5).len(), 1);
}

#[test]
fn expected_effects_are_carried_through() {
    let manager = TransactionManagerV2::new();
    let scheduled = manager.enqueue_with_expected_effects_digest(
        vec![(cert(1, 2, vec![]), [7u8; 32]), (cert(2, 1, vec![]), [8u8; 32])],
        2,
    );
    assert_eq!(scheduled.len(), 1);
    assert_eq!(scheduled[0].expected_effects_digest, Some([7u8; 32]));
    let c = scheduled.into_iter().next().unwrap();
    let wait = manager
        .schedule_transaction(c.certificate, c.expected_effects_digest, Some(vec![]), 0)
        .unwrap();
    let p = wait.resolve(ReadinessEvent::InputsAvailable { now: 0 }).unwrap();
    assert_eq!(p.expected_effects_digest, Some([7u8; 32]));
}

#[test]
fn receiving_objects_follow_inputs_once_each() {
    let manager = TransactionManagerV2::new();
    let receiving = vec![object(3, 2), object(4, 1), object(3, 2), object(3, 5)];
    let package = InputKey::Package { id: [6u8; 32] };
    let wait = manager
        .schedule_transaction(cert(1, 0, receiving), None, Some(vec![package, owned_input(9, 9)]), 0)
        .unwrap();
    assert_eq!(wait.receiving_keys.len(), 3);
    for key in [owned_input(3, 2), owned_input(4, 1), owned_input(3, 5)] {
        assert!(wait.receiving_keys.contains(&key));
    }
    assert_eq!(wait.input_and_receiving_keys.len(), 5);
    assert_eq!(wait.input_and_receiving_keys[0], package);
    assert_eq!(wait.input_and_receiving_keys[1], owned_input(9, 9));
    assert_eq!(&wait.input_and_receiving_keys[2..], &wait.receiving_keys[..]);
}

#[test]
fn admission_control_admits() {
    let manager = TransactionManagerV2::new();
    assert!(manager.check_execution_overload(&cert(1, 0, vec![])).is_ok());
}
