use sentinel::SlotTracker;

#[test]
fn new_tracker_has_full_capacity() {
    let t = SlotTracker::new(4);
    assert_eq!(t.available(), 4);
}

#[test]
fn claim_reduces_available() {
    let mut t = SlotTracker::new(2);
    assert!(t.try_claim());
    assert_eq!(t.available(), 1);
}

#[test]
fn claim_at_capacity_fails() {
    let mut t = SlotTracker::new(1);
    assert!(t.try_claim());
    assert!(!t.try_claim());
    assert_eq!(t.available(), 0);
}

#[test]
fn release_restores_capacity() {
    let mut t = SlotTracker::new(1);
    assert!(t.try_claim());
    t.release();
    assert_eq!(t.available(), 1);
    assert!(t.try_claim());
}

#[test]
fn zero_slots_never_claims() {
    let mut t = SlotTracker::new(0);
    assert_eq!(t.available(), 0);
    assert!(!t.try_claim());
}

#[test]
fn ten_claims_against_capacity_three() {
    let mut tracker = SlotTracker::new(3);
    let mut successes = 0;
    for _ in 0..10 {
        if tracker.try_claim() {
            successes += 1;
        }
    }
    assert_eq!(successes, 3);
    assert_eq!(tracker.available(), 0);
}

#[test]
fn release_after_each_claim_keeps_capacity() {
    let mut t = SlotTracker::new(2);
    for _ in 0..5 {
        assert!(t.try_claim());
        assert_eq!(t.available(), 1);
        t.release();
        assert_eq!(t.available(), 2);
    }
}
