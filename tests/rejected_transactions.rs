use sui_core::position::{BlockRef, TransactionPosition, ROUND_EXPIRATION};
use sui_core::rejected::{MysticetiRejectedTransactions, RejectionOutcome, WaitEvent};

fn create_test_position(round: u64, transaction_index: u32) -> TransactionPosition {
    TransactionPosition::new(BlockRef::new(round, 0, [0u8; 32]), transaction_index)
}

/// Runs a wait on `pos` to its end: the expiration check fires every 50 ms
/// until `timeout_ms` has elapsed, unless a notification for one of
/// `notified` arrives first.
fn run_wait(
    tracker: &mut MysticetiRejectedTransactions,
    pos: TransactionPosition,
    timeout_ms: u64,
    notified: &[u64],
) -> RejectionOutcome {
    let start = tracker.wait_for_rejection(pos);
    if let Some(outcome) = start.outcome {
        tracker.finish_wait(start.waiter);
        return outcome;
    }
    if notified.contains(&start.waiter) {
        let outcome = tracker.wait_event_outcome(&pos, WaitEvent::Notified).unwrap();
        tracker.finish_wait(start.waiter);
        return outcome;
    }
    let mut elapsed: u64 = 0;
    loop {
        if elapsed >= timeout_ms {
            let outcome = tracker.wait_event_outcome(&pos, WaitEvent::TimerElapsed).unwrap();
            tracker.finish_wait(start.waiter);
            return outcome;
        }
        if let Some(outcome) = tracker.wait_event_outcome(&pos, WaitEvent::ExpirationTick) {
            tracker.finish_wait(start.waiter);
            return outcome;
        }
        elapsed += 50;
    }
}

#[test]
fn test_reject_transaction() {
    let mut rejected_txs = MysticetiRejectedTransactions::new();
    let pos = create_test_position(1, 0);

    rejected_txs.reject_transaction(pos);

    assert!(rejected_txs.is_rejected(&pos));
    assert!(rejected_txs.is_indexed(1, &pos));
}

#[test]
fn test_wait_for_rejection() {
    let mut rejected_txs = MysticetiRejectedTransactions::new();
    let pos = create_test_position(1, 0);

    // Test immediate rejection
    rejected_txs.reject_transaction(pos);
    let result = run_wait(&mut rejected_txs, pos, 1000, &[]);
    assert_eq!(result.reason(), "Rejected");

    // The position stays rejected until its round expires, so a second wait
    // with a short timeout still resolves at once as rejected.
    let result = run_wait(&mut rejected_txs, pos, 100, &[]);
    assert_eq!(result.reason(), "Rejected");
}

#[test]
fn test_wait_times_out_without_rejection() {
    let mut rejected_txs = MysticetiRejectedTransactions::new();
    let pos = create_test_position(1, 0);
    let result = run_wait(&mut rejected_txs, pos, 100, &[]);
    assert_eq!(result, RejectionOutcome::TimedOut);
    assert_eq!(result.reason(), "TimedOut");
}

#[test]
fn test_round_expiration() {
    let mut rejected_txs = MysticetiRejectedTransactions::new();
    let pos = create_test_position(1, 0);

    rejected_txs.reject_transaction(pos);

    // Update to a round that would cause expiration
    rejected_txs.update_last_committed_round(ROUND_EXPIRATION + 2);

    let result = run_wait(&mut rejected_txs, pos, 5000, &[]);
    assert_eq!(result.reason(), "Expired");

    // Try to reject a transaction from an expired round
    let woken = rejected_txs.reject_transaction(pos);
    assert!(woken.is_empty());

    assert!(rejected_txs.round_index_is_empty());
    assert!(rejected_txs.has_no_rejections());
}

#[test]
fn test_update_last_committed_round() {
    let mut rejected_txs = MysticetiRejectedTransactions::new();

    // Add transactions for multiple rounds
    for round in 1..=5 {
        let pos = create_test_position(round, 0);
        rejected_txs.reject_transaction(pos);
    }

    // Update to round that would expire rounds 1 and 2
    let expiration_round = ROUND_EXPIRATION + 3;
    rejected_txs.update_last_committed_round(expiration_round);

    assert_eq!(rejected_txs.last_committed_round(), Some(expiration_round));

    // Rounds 1 and 2 should be removed
    assert!(!rejected_txs.has_round(1));
    assert!(!rejected_txs.has_round(2));

    // Rounds 3, 4, and 5 should still exist
    assert!(rejected_txs.has_round(3));
    assert!(rejected_txs.has_round(4));
    assert!(rejected_txs.has_round(5));

    assert!(!rejected_txs.is_rejected(&create_test_position(2, 0)));
    assert!(rejected_txs.is_rejected(&create_test_position(3, 0)));
}

#[test]
fn notification_wakes_registered_waiter() {
    let mut tracker = MysticetiRejectedTransactions::new();
    let pos = create_test_position(7, 2);
    let other = create_test_position(7, 3);
    let start = tracker.wait_for_rejection(pos);
    assert_eq!(start.outcome, None);
    let start_other = tracker.wait_for_rejection(other);
    let woken = tracker.reject_transaction(pos);
    assert_eq!(woken, vec![start.waiter]);
    assert!(!woken.contains(&start_other.waiter));
    assert_eq!(
        tracker.wait_event_outcome(&pos, WaitEvent::Notified),
        Some(RejectionOutcome::Rejected)
    );
    // A second rejection finds nobody left to wake.
    assert!(tracker.reject_transaction(pos).is_empty());
    // The other waiter is still registered and is woken by its own rejection.
    assert_eq!(tracker.reject_transaction(other), vec![start_other.waiter]);
}

#[test]
fn finished_wait_is_not_woken() {
    let mut tracker = MysticetiRejectedTransactions::new();
    let pos = create_test_position(3, 0);
    let start = tracker.wait_for_rejection(pos);
    tracker.finish_wait(start.waiter);
    assert!(tracker.reject_transaction(pos).is_empty());
}

#[test]
fn rejection_inside_window_is_kept() {
    let mut tracker = MysticetiRejectedTransactions::new();
    tracker.update_last_committed_round(ROUND_EXPIRATION + 10);
    // round + window == last committed round: still inside the window.
    let edge = create_test_position(10, 0);
    tracker.reject_transaction(edge);
    assert!(tracker.is_rejected(&edge));
    assert_eq!(run_wait(&mut tracker, edge, 0, &[]), RejectionOutcome::Rejected);
    // One round older is outside it and ignored.
    let stale = create_test_position(9, 0);
    tracker.reject_transaction(stale);
    assert!(!tracker.is_rejected(&stale));
    assert!(!tracker.has_round(9));
}

#[test]
fn expired_position_wait_ends_expired_on_first_check() {
    let mut tracker = MysticetiRejectedTransactions::new();
    let pos = create_test_position(1, 0);
    tracker.update_last_committed_round(ROUND_EXPIRATION + 2);
    let start = tracker.wait_for_rejection(pos);
    assert_eq!(start.outcome, None);
    assert_eq!(
        tracker.wait_event_outcome(&pos, WaitEvent::ExpirationTick),
        Some(RejectionOutcome::Expired)
    );
}

#[test]
fn pending_wait_is_not_expired_inside_window() {
    let mut tracker = MysticetiRejectedTransactions::new();
    let pos = create_test_position(5, 0);
    assert_eq!(tracker.wait_event_outcome(&pos, WaitEvent::ExpirationTick), None);
    tracker.update_last_committed_round(ROUND_EXPIRATION + 5);
    assert_eq!(tracker.wait_event_outcome(&pos, WaitEvent::ExpirationTick), None);
    tracker.update_last_committed_round(ROUND_EXPIRATION + 6);
    assert_eq!(
        tracker.wait_event_outcome(&pos, WaitEvent::ExpirationTick),
        Some(RejectionOutcome::Expired)
    );
}

#[test]
fn rejecting_twice_matches_rejecting_once() {
    let mut once = MysticetiRejectedTransactions::new();
    let mut twice = MysticetiRejectedTransactions::new();
    let pos = create_test_position(4, 1);
    once.reject_transaction(pos);
    twice.reject_transaction(pos);
    twice.reject_transaction(pos);
    for round in 0..8u64 {
        assert_eq!(once.has_round(round), twice.has_round(round));
        let p = create_test_position(round, 1);
        assert_eq!(once.is_rejected(&p), twice.is_rejected(&p));
        assert_eq!(once.is_indexed(round, &p), twice.is_indexed(round, &p));
    }
    twice.update_last_committed_round(ROUND_EXPIRATION + 5);
    assert!(twice.has_no_rejections());
    assert!(twice.round_index_is_empty());
}

#[test]
fn gc_keeps_rounds_within_window() {
    let mut tracker = MysticetiRejectedTransactions::new();
    for round in [9u64, 3, 7, 1, 5] {
        tracker.reject_transaction(create_test_position(round, 0));
        tracker.reject_transaction(create_test_position(round, 1));
    }
    tracker.update_last_committed_round(ROUND_EXPIRATION + 6);
    for round in [1u64, 3, 5] {
        assert!(!tracker.has_round(round));
        assert!(!tracker.is_rejected(&create_test_position(round, 1)));
    }
    for round in [7u64, 9] {
        assert!(tracker.has_round(round));
        assert!(tracker.is_indexed(round, &create_test_position(round, 0)));
        assert!(tracker.is_rejected(&create_test_position(round, 1)));
    }
}

#[test]
fn positions_differ_by_digest() {
    let mut tracker = MysticetiRejectedTransactions::new();
    let a = create_test_position(2, 0);
    let mut digest = [0u8; 32];
    digest[31] = 1;
    let b = TransactionPosition::new(BlockRef::new(2, 0, digest), 0);
    tracker.reject_transaction(a);
    assert!(!tracker.is_rejected(&b));
    assert!(!tracker.is_indexed(2, &b));
}

#[test]
fn outcome_reasons() {
    assert_eq!(RejectionOutcome::Rejected.reason(), "Rejected");
    assert_eq!(RejectionOutcome::Expired.reason(), "Expired");
    assert_eq!(RejectionOutcome::TimedOut.reason(), "TimedOut");
}
