use std::collections::HashMap;

use bucket_control::actuator::{actuate, Action, ActuatorStep, FinalControlElement};
use bucket_control::buckets::n_buckets::NBuckets;
use bucket_control::buckets::{BucketType, Buckets, MAX_QUANTITY};
use bucket_control::error::ControlError;
use bucket_control::policy::Policy;
use bucket_control::sensor::Sensor;

fn quantities(pairs: &[(u64, u64)]) -> HashMap<u64, u64> {
    pairs.iter().copied().collect()
}

fn total(b: &NBuckets) -> u64 {
    b.buckets().values().sum()
}

#[test]
fn spread_moves_half_the_gap_and_applies() {
    let mut b = NBuckets::new(quantities(&[(1, 45), (2, 72), (3, 38)]));
    let action = Policy::Spread.analyze(&b);
    assert_eq!(action, Action::Transfer { source: 2, destination: 3, amount: 17 });
    assert_eq!(actuate(&mut b, Some(action), false), ActuatorStep::Applied(action));
    assert_eq!(
        b.data(),
        vec![("B1".to_string(), 45), ("B2".to_string(), 55), ("B3".to_string(), 55)]
    );
}

#[test]
fn spread_on_equal_buckets_does_nothing() {
    let b = NBuckets::new(quantities(&[(1, 50), (2, 50)]));
    assert_eq!(Policy::Spread.analyze(&b), Action::NoAction);
}

#[test]
fn spread_on_no_buckets_does_nothing() {
    let b = NBuckets::new(HashMap::new());
    assert_eq!(Policy::Spread.analyze(&b), Action::NoAction);
}

#[test]
fn spread_gap_rounds_down() {
    let b = NBuckets::new(quantities(&[(4, 10), (9, 15)]));
    assert_eq!(
        Policy::Spread.analyze(&b),
        Action::Transfer { source: 9, destination: 4, amount: 2 }
    );
}

#[test]
fn noop_policy_never_acts() {
    let b = NBuckets::new(quantities(&[(1, 0), (2, 100)]));
    assert_eq!(Policy::NoOp.analyze(&b), Action::NoAction);
}

#[test]
fn tie_break_is_deterministic() {
    let b = NBuckets::new(quantities(&[(7, 50), (3, 50)]));
    for _ in 0..10 {
        assert_eq!(b.get_smallest_bucket(), Some((3, 50)));
        assert_eq!(b.get_largest_bucket(), Some((3, 50)));
    }
}

#[test]
fn extrema_pick_lowest_id_among_equals() {
    let b = NBuckets::new(quantities(&[(5, 10), (2, 90), (8, 10), (4, 90)]));
    assert_eq!(b.get_smallest_bucket(), Some((5, 10)));
    assert_eq!(b.get_largest_bucket(), Some((2, 90)));
}

#[test]
fn extrema_of_empty_store() {
    let b = NBuckets::new(HashMap::new());
    assert_eq!(b.get_smallest_bucket(), None);
    assert_eq!(b.get_largest_bucket(), None);
}

#[test]
fn quantity_lookup() {
    let b = NBuckets::new(quantities(&[(1, 45)]));
    assert_eq!(b.get_bucket_quantity(1), Ok(45));
    assert_eq!(b.get_bucket_quantity(2), Err(ControlError::UnknownBucket { bucket: 2 }));
}

#[test]
fn insufficient_source_changes_nothing() {
    let mut b = NBuckets::new(quantities(&[(1, 10), (2, 20)]));
    assert_eq!(
        b.transfer(1, 2, 11),
        Err(ControlError::InsufficientSource { amount: 11, available: 10 })
    );
    assert_eq!(b.get_bucket_quantity(1), Ok(10));
    assert_eq!(b.get_bucket_quantity(2), Ok(20));
}

#[test]
fn overflow_changes_nothing() {
    let mut b = NBuckets::new(quantities(&[(1, 30), (2, 80)]));
    assert_eq!(
        b.transfer(1, 2, 21),
        Err(ControlError::Overflow { amount: 21, destination_quantity: 80 })
    );
    assert_eq!(b.get_bucket_quantity(1), Ok(30));
    assert_eq!(b.get_bucket_quantity(2), Ok(80));
    assert_eq!(b.transfer(1, 2, 20), Ok(()));
    assert_eq!(b.get_bucket_quantity(2), Ok(MAX_QUANTITY));
}

#[test]
fn unknown_buckets_are_refused() {
    let mut b = NBuckets::new(quantities(&[(1, 30)]));
    assert_eq!(b.transfer(9, 1, 1), Err(ControlError::UnknownBucket { bucket: 9 }));
    assert_eq!(b.transfer(1, 8, 1), Err(ControlError::UnknownBucket { bucket: 8 }));
    assert_eq!(b.get_bucket_quantity(1), Ok(30));
}

#[test]
fn transfer_conserves_total() {
    let mut b = NBuckets::new(quantities(&[(1, 45), (2, 72), (3, 38)]));
    let before = total(&b);
    assert_eq!(b.transfer(2, 1, 30), Ok(()));
    assert_eq!(b.get_bucket_quantity(1), Ok(75));
    assert_eq!(b.get_bucket_quantity(2), Ok(42));
    assert_eq!(total(&b), before);
}

#[test]
fn transfer_onto_itself_changes_nothing() {
    let mut b = NBuckets::new(quantities(&[(1, 40)]));
    assert_eq!(b.transfer(1, 1, 25), Ok(()));
    assert_eq!(b.get_bucket_quantity(1), Ok(40));
}

#[test]
fn add_bucket_is_unsupported() {
    let mut b = NBuckets::new(quantities(&[(1, 40)]));
    assert_eq!(b.add_bucket(), Err(ControlError::Unsupported));
    assert_eq!(b.buckets().len(), 1);
}

#[test]
fn no_action_repeated_changes_nothing() {
    let mut b = NBuckets::new(quantities(&[(1, 45), (2, 72)]));
    for _ in 0..5 {
        assert_eq!(actuate(&mut b, Some(Action::NoAction), false), ActuatorStep::Skipped);
    }
    assert_eq!(b.buckets(), &quantities(&[(1, 45), (2, 72)]));
}

#[test]
fn invalid_transfer_is_rejected_not_retried() {
    let mut b = NBuckets::new(quantities(&[(1, 5), (2, 20)]));
    let action = Action::Transfer { source: 1, destination: 2, amount: 6 };
    assert_eq!(
        actuate(&mut b, Some(action), false),
        ActuatorStep::Rejected(action, ControlError::InsufficientSource { amount: 6, available: 5 })
    );
    assert_eq!(b.buckets(), &quantities(&[(1, 5), (2, 20)]));
}

#[test]
fn cancellation_stops_before_processing() {
    let mut b = NBuckets::new(quantities(&[(1, 45), (2, 72)]));
    let action = Action::Transfer { source: 2, destination: 1, amount: 13 };
    assert_eq!(actuate(&mut b, Some(action), true), ActuatorStep::Terminated);
    assert_eq!(actuate(&mut b, None, true), ActuatorStep::Terminated);
    assert_eq!(b.buckets(), &quantities(&[(1, 45), (2, 72)]));
}

#[test]
fn channel_closed_before_shutdown_is_an_error() {
    let mut b = NBuckets::new(quantities(&[(1, 45)]));
    assert_eq!(actuate(&mut b, None, false), ActuatorStep::Failed(ControlError::ChannelClosed));
}

#[test]
fn fill_stays_within_capacity_and_never_lowers_total() {
    let mut b = NBuckets::new(quantities(&[(1, 0), (2, 99), (3, 100)]));
    let mut last_total = total(&b);
    for _ in 0..300 {
        let before = b.buckets().clone();
        let (id, increase, q) = b.fill().expect("buckets exist");
        assert!(increase <= 1);
        assert_eq!(b.get_bucket_quantity(id), Ok(q));
        assert_eq!(before[&id] + increase, q);
        for (k, v) in b.buckets() {
            assert!(*v <= MAX_QUANTITY);
            assert!(*v == before[k] || *v == before[k] + 1);
        }
        let now = total(&b);
        assert!(now >= last_total);
        last_total = now;
    }
    assert_eq!(b.get_bucket_quantity(3), Ok(100));
    assert_eq!(b.get_bucket_quantity(2), Ok(100));
}

#[test]
fn fill_increments_are_drawn_at_random() {
    let mut b = NBuckets::new(quantities(&[(1, 0)]));
    let (mut stayed, mut rose) = (0, 0);
    for _ in 0..60 {
        match b.fill() {
            Some((1, 0, _)) => stayed += 1,
            Some((1, 1, _)) => rose += 1,
            other => panic!("unexpected record {:?}", other),
        }
    }
    assert!(stayed > 0 && rose > 0);
    assert_eq!(b.get_bucket_quantity(1), Ok(rose));
}

#[test]
fn fill_of_no_buckets_reports_nothing() {
    let mut b = NBuckets::new(HashMap::new());
    assert_eq!(b.fill(), None);
}

#[test]
fn data_is_labelled_in_numeric_order() {
    let b = Buckets::new(quantities(&[(10, 1), (2, 3), (33, 0)]));
    assert_eq!(
        b.data(),
        vec![("B2".to_string(), 3), ("B10".to_string(), 1), ("B33".to_string(), 0)]
    );
}

#[test]
fn buckets_facade_forwards() {
    let mut b = Buckets::with_type(BucketType::NBuckets, quantities(&[(1, 45), (2, 72), (3, 38)]));
    let action = Policy::Spread.analyze(&b);
    assert_eq!(actuate(&mut b, Some(action), false), ActuatorStep::Applied(action));
    assert_eq!(b.get_bucket_quantity(3), Ok(55));
    let (_, increase, _) = b.tick().expect("buckets exist");
    assert!(increase <= 1);
    for (_, q) in b.data() {
        assert!(q <= MAX_QUANTITY);
    }
}

#[test]
fn full_channel_holds_back_instead_of_dropping() {
    let (tx, mut rx) = tokio::sync::mpsc::channel::<Action>(1);
    let first = Action::Transfer { source: 2, destination: 3, amount: 17 };
    let second = Action::NoAction;
    assert!(tx.try_send(first).is_ok());
    match tx.try_send(second) {
        Err(tokio::sync::mpsc::error::TrySendError::Full(back)) => assert_eq!(back, second),
        other => panic!("expected a full channel, got {:?}", other),
    }
    assert_eq!(rx.try_recv().ok(), Some(first));
    assert!(tx.try_send(second).is_ok());
    assert_eq!(rx.try_recv().ok(), Some(second));
}

#[test]
fn raise_saturates_at_capacity() {
    let mut b = NBuckets::new(quantities(&[(1, 40), (2, 98), (3, 100), (4, 99)]));
    assert_eq!(b.raise_bucket(1, 5), Ok(45));
    assert_eq!(b.raise_bucket(2, 5), Ok(MAX_QUANTITY));
    assert_eq!(b.raise_bucket(3, 1), Ok(MAX_QUANTITY));
    assert_eq!(b.raise_bucket(4, 1), Ok(MAX_QUANTITY));
    assert_eq!(b.raise_bucket(1, 0), Ok(45));
    assert_eq!(b.raise_bucket(9, 1), Err(ControlError::UnknownBucket { bucket: 9 }));
    assert_eq!(b.get_bucket(1), Ok(45));
    assert_eq!(b.get_bucket(2), Ok(100));
}
