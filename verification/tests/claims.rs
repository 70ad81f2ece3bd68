use sentinel::claim::{claim_task, TaskRecord};
use sentinel::SentinelError;

#[test]
fn claim_succeeds_sets_fields() {
    let mut record = TaskRecord::pending();
    let result = claim_task(&mut record, "job:1:task:a", "host-01", 3, 9999, 1_700_000_000_000);
    assert!(result.is_ok());
    assert_eq!(record.state, "claimed");
    assert_eq!(record.worker.as_deref(), Some("host-01:3"));
    assert_eq!(record.timeout_at.as_deref(), Some("9999"));
    assert!(record.updated_at.is_some());
}

#[test]
fn claim_fails_on_cas_conflict() {
    let mut record = TaskRecord::pending();
    record.state = "claimed".to_string();
    let result = claim_task(&mut record, "job:1:task:a", "host-01", 3, 9999, 0);
    let err = result.unwrap_err();
    assert!(matches!(err, SentinelError::ClaimFailed { .. }));
    assert!(err.message().contains("already claimed"));
    assert!(record.worker.is_none());
    assert!(record.updated_at.is_none());
    assert!(record.timeout_at.is_none());
}

#[test]
fn claim_worker_format() {
    let mut record = TaskRecord::pending();
    claim_task(&mut record, "k", "node-x", 42, 0, 7).unwrap();
    assert_eq!(record.worker.as_deref(), Some("node-x:42"));
}

#[test]
fn claim_updated_at_is_decimal_of_clock() {
    let mut record = TaskRecord::pending();
    claim_task(&mut record, "k", "h", 1, 5, 123456).unwrap();
    assert_eq!(record.updated_at.as_deref(), Some("123456"));
    assert_eq!(record.timeout_at.as_deref(), Some("5"));
}

#[test]
fn second_claim_attempt_loses_race() {
    let mut record = TaskRecord::pending();
    assert!(claim_task(&mut record, "k", "host-a", 1, 9, 1).is_ok());
    let err = claim_task(&mut record, "k", "host-b", 2, 9, 2).unwrap_err();
    assert!(matches!(err, SentinelError::ClaimFailed { .. }));
    assert_eq!(record.worker.as_deref(), Some("host-a:1"));
}

#[test]
fn claim_error_names_the_task() {
    let mut record = TaskRecord::pending();
    record.state = "claimed".to_string();
    let err = claim_task(&mut record, "job:7:task:z", "h", 1, 1, 1).unwrap_err();
    assert!(err.message().contains("job:7:task:z"));
}
