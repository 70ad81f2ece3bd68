//! Distributed exclusive task claiming.
//!
//! A task record lives in a shared state store addressed by a string key; its
//! `state` field moves from `pending` to `claimed` by a single atomic
//! compare-and-swap, so at most one host ever wins a given task. The winner
//! then stamps ownership metadata (worker identity, wall-clock time, and a
//! deadline) in a second, non-atomic write — an accepted narrow inconsistency
//! window recovered by an external stale-claim reaper.
//!
//! `TaskRecord` is the crate's model of one such record: the fields the claim
//! protocol reads and writes, as plain values. The surrounding process
//! performs the store I/O and hands the record state in and out.

use vstd::prelude::*;

use crate::decimal::{spec_u64_digits, u64_to_string};
use crate::error::SentinelError;
use crate::text::str_eq;

verus! {

/// The fields of one task record that the claim protocol touches.
#[derive(Debug)]
pub struct TaskRecord {
    /// Claim state: `pending` until some host wins the CAS, then `claimed`.
    pub state: String,
    /// `{host_id}:{vm_cid}` of the claiming host, set after a won CAS.
    pub worker: Option<String>,
    /// Wall-clock milliseconds of the last ownership stamp.
    pub updated_at: Option<String>,
    /// Deadline for the claimed task, stamped by the claiming host.
    pub timeout_at: Option<String>,
}

impl TaskRecord {
    /// A fresh record, ready to be claimed.
    pub fn pending() -> (r: TaskRecord)
        ensures
            r.state@ == "pending"@,
            r.worker is None,
            r.updated_at is None,
            r.timeout_at is None,
    {
        TaskRecord {
            state: String::from_str("pending"),
            worker: None,
            updated_at: None,
            timeout_at: None,
        }
    }

    /// Compare-and-swap on the `state` field: replaces it with `new_state`
    /// exactly when it currently equals `expected`, and reports whether the
    /// swap happened. No other field is touched either way.
    pub fn cas_state(&mut self, expected: &str, new_state: String) -> (swapped: bool)
        ensures
            swapped <==> old(self).state@ == expected@,
            swapped ==> final(self).state@ == new_state@,
            !swapped ==> final(self).state == old(self).state,
            final(self).worker == old(self).worker,
            final(self).updated_at == old(self).updated_at,
            final(self).timeout_at == old(self).timeout_at,
    {
        if str_eq(self.state.as_str(), expected) {
            self.state = new_state;
            true
        } else {
            false
        }
    }
}

/// The worker identity stamped into a claimed record: `{host_id}:{vm_cid}`.
pub open spec fn spec_worker_tag(host_id: Seq<char>, vm_cid: nat) -> Seq<char> {
    host_id + ":"@ + spec_u64_digits(vm_cid)
}

/// Attempt the CAS claim of a task record and, on success, stamp the
/// ownership metadata.
///
/// The claim itself is the single `pending -> claimed` swap; the metadata
/// write is a separate, idempotent step. A lost race yields a claim-conflict
/// error and leaves the record untouched — the caller moves on without
/// retrying, since another worker owns the task.
pub fn claim_task(
    record: &mut TaskRecord,
    state_key: &str,
    host_id: &str,
    vm_cid: u32,
    timeout_at: u64,
    now_ms: u64,
) -> (r: Result<(), SentinelError>)
    ensures
        r is Ok <==> old(record).state@ == "pending"@,
        r is Ok ==> {
            &&& final(record).state@ == "claimed"@
            &&& final(record).worker matches Some(w) && w@ == spec_worker_tag(
                host_id@,
                vm_cid as nat,
            )
            &&& final(record).updated_at matches Some(u) && u@ == spec_u64_digits(now_ms as nat)
            &&& final(record).timeout_at matches Some(t) && t@ == spec_u64_digits(
                timeout_at as nat,
            )
        },
        r matches Err(e) ==> {
            &&& *final(record) == *old(record)
            &&& e matches SentinelError::ClaimFailed { task_id, reason } && task_id@ == state_key@
                && reason@ == "CAS failed — task already claimed"@
        },
{
    let claimed = record.cas_state("pending", String::from_str("claimed"));
    if !claimed {
        return Err(
            SentinelError::ClaimFailed {
                task_id: String::from_str(state_key),
                reason: String::from_str("CAS failed — task already claimed"),
            },
        );
    }
    let worker = String::from_str(host_id).concat(":").concat(u64_to_string(vm_cid as u64).as_str());
    record.worker = Some(worker);
    record.updated_at = Some(u64_to_string(now_ms));
    record.timeout_at = Some(u64_to_string(timeout_at));
    Ok(())
}

/// One CAS attempt against the `state` field: succeeds exactly on `pending`.
pub open spec fn attempt_succeeds(state: Seq<char>) -> bool {
    state == "pending"@
}

/// The `state` field after one CAS attempt.
pub open spec fn state_after_attempt(state: Seq<char>) -> Seq<char> {
    if attempt_succeeds(state) {
        "claimed"@
    } else {
        state
    }
}

/// The `state` field after `n` sequential CAS attempts. The store's CAS is
/// linearizable per key, so any set of concurrent attempts takes effect in
/// some such sequential order.
pub open spec fn state_after_attempts(state: Seq<char>, n: nat) -> Seq<char>
    decreases n,
{
    if n == 0 {
        state
    } else {
        state_after_attempt(state_after_attempts(state, (n - 1) as nat))
    }
}

/// How many of `n` sequential CAS attempts succeed.
pub open spec fn successes_after_attempts(state: Seq<char>, n: nat) -> nat
    decreases n,
{
    if n == 0 {
        0
    } else {
        successes_after_attempts(state, (n - 1) as nat) + if attempt_succeeds(
            state_after_attempts(state, (n - 1) as nat),
        ) {
            1nat
        } else {
            0nat
        }
    }
}

proof fn lemma_claimed_stays(n: nat)
    ensures
        n >= 1 ==> state_after_attempts("pending"@, n) == "claimed"@,
    decreases n,
{
    reveal_strlit("pending");
    reveal_strlit("claimed");
    assert("pending"@[0] == 'p' && "claimed"@[0] == 'c');
    assert("pending"@ != "claimed"@);
    if n == 1 {
        assert(state_after_attempts("pending"@, 0) == "pending"@);
        assert(state_after_attempts("pending"@, 1) == state_after_attempt("pending"@));
    } else if n > 1 {
        lemma_claimed_stays((n - 1) as nat);
        assert(state_after_attempts("pending"@, n) == state_after_attempt(
            state_after_attempts("pending"@, (n - 1) as nat),
        ));
    }
}

/// Claim exclusivity: for one task key, across any number of claim attempts
/// against a store whose CAS is atomic, exactly one attempt observes
/// success — the first to reach the record while it is still `pending`.
pub proof fn lemma_claim_exclusivity(n: nat)
    requires
        n >= 1,
    ensures
        successes_after_attempts("pending"@, n) == 1,
    decreases n,
{
    reveal_strlit("pending");
    reveal_strlit("claimed");
    assert("pending"@[0] == 'p' && "claimed"@[0] == 'c');
    assert("pending"@ != "claimed"@);
    if n == 1 {
        assert(state_after_attempts("pending"@, 0) == "pending"@);
        assert(attempt_succeeds(state_after_attempts("pending"@, 0)));
        assert(successes_after_attempts("pending"@, 0) == 0);
        assert(successes_after_attempts("pending"@, 1) == 1);
    } else {
        lemma_claim_exclusivity((n - 1) as nat);
        lemma_claimed_stays((n - 1) as nat);
        assert(!attempt_succeeds(state_after_attempts("pending"@, (n - 1) as nat)));
        assert(successes_after_attempts("pending"@, n) == successes_after_attempts(
            "pending"@,
            (n - 1) as nat,
        ));
    }
}

/// A record that is not `pending` yields no successful claim, however many
/// attempts are made.
pub proof fn lemma_no_claim_when_not_pending(state: Seq<char>, n: nat)
    requires
        state != "pending"@,
    ensures
        successes_after_attempts(state, n) == 0,
        state_after_attempts(state, n) == state,
    decreases n,
{
    if n > 0 {
        lemma_no_claim_when_not_pending(state, (n - 1) as nat);
    }
}

} // verus!
