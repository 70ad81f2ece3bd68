//! Slot accounting for admission control, and the host-level composition root.
//!
//! A `SlotTracker` bounds how many microVMs one host runs at a time. A claim
//! only succeeds while the used count is below the configured capacity, and a
//! release gives exactly one slot back, so the used count never exceeds the
//! capacity and the available count never goes negative.

use vstd::prelude::*;

use crate::config::{valid_host_id, SentinelConfig};
use crate::error::SentinelError;

verus! {

/// Tracks VM slot usage: a fixed capacity and a count of slots in use.
#[derive(Debug)]
pub struct SlotTracker {
    total: u32,
    used: u32,
}

impl SlotTracker {
    /// Capacity the tracker was constructed with.
    pub closed spec fn spec_total(&self) -> nat {
        self.total as nat
    }

    /// Number of slots currently claimed.
    pub closed spec fn spec_used(&self) -> nat {
        self.used as nat
    }

    /// Slots still free, floored at zero under accounting skew.
    pub open spec fn spec_available(&self) -> nat {
        if self.spec_used() <= self.spec_total() {
            (self.spec_total() - self.spec_used()) as nat
        } else {
            0
        }
    }

    /// The used count never exceeds the capacity.
    pub open spec fn wf(&self) -> bool {
        self.spec_used() <= self.spec_total()
    }

    pub fn new(total: u32) -> (t: SlotTracker)
        ensures
            t.wf(),
            t.spec_total() == total,
            t.spec_used() == 0,
    {
        SlotTracker { total, used: 0 }
    }

    pub fn available(&self) -> (r: u32)
        ensures
            r as nat == self.spec_available(),
    {
        if self.used <= self.total {
            self.total - self.used
        } else {
            0
        }
    }

    /// Try to claim a slot: succeeds exactly when a slot is free, and then
    /// takes exactly one.
    pub fn try_claim(&mut self) -> (claimed: bool)
        ensures
            final(self).spec_total() == old(self).spec_total(),
            claimed <==> old(self).spec_used() < old(self).spec_total(),
            claimed ==> final(self).spec_used() == old(self).spec_used() + 1,
            !claimed ==> final(self).spec_used() == old(self).spec_used(),
            old(self).wf() ==> final(self).wf(),
    {
        if self.used < self.total {
            self.used = self.used + 1;
            true
        } else {
            false
        }
    }

    /// Release a previously claimed slot. The caller pairs each release with
    /// exactly one earlier successful claim.
    pub fn release(&mut self)
        requires
            old(self).spec_used() >= 1,
        ensures
            final(self).spec_total() == old(self).spec_total(),
            final(self).spec_used() == old(self).spec_used() - 1,
            old(self).wf() ==> final(self).wf(),
    {
        self.used = self.used - 1;
    }
}

/// Used count after `n` claim attempts against capacity `total`, starting
/// from an empty tracker. Each successful attempt takes one slot, so this is
/// also the number of attempts that succeeded.
pub open spec fn used_after_claims(total: nat, n: nat) -> nat
    decreases n,
{
    if n == 0 {
        0
    } else {
        let u = used_after_claims(total, (n - 1) as nat);
        if u < total {
            u + 1
        } else {
            u
        }
    }
}

/// Slot bound: across any number of claim attempts against capacity `total`,
/// the number of successes never exceeds `total`, so the available count
/// never goes negative.
pub proof fn lemma_slot_bound(total: nat, n: nat)
    ensures
        used_after_claims(total, n) <= total,
    decreases n,
{
    if n > 0 {
        lemma_slot_bound(total, (n - 1) as nat);
    }
}

/// Slot conservation: a successful claim, paired with exactly one release,
/// restores the available count to its pre-claim value. The `requires`
/// clauses restate the contracts of `try_claim` (in the successful case) and
/// `release`.
pub proof fn lemma_slot_conservation(
    before: SlotTracker,
    claimed: SlotTracker,
    released: SlotTracker,
)
    requires
        before.spec_used() < before.spec_total(),
        claimed.spec_total() == before.spec_total(),
        claimed.spec_used() == before.spec_used() + 1,
        released.spec_total() == claimed.spec_total(),
        released.spec_used() == claimed.spec_used() - 1,
    ensures
        released.spec_available() == before.spec_available(),
{
}

/// The host-level composition root: validated configuration plus the one
/// shared slot tracker. The collaborators it drives — message bus, state
/// store, VM supervision — live with the surrounding process.
#[derive(Debug)]
pub struct Sentinel {
    pub config: SentinelConfig,
    pub slots: SlotTracker,
}

impl Sentinel {
    /// Validate the configuration, then size the slot tracker from it.
    pub fn new(config: SentinelConfig) -> (r: Result<Sentinel, SentinelError>)
        ensures
            r matches Ok(s) ==> ({
                &&& s.config == config
                &&& valid_host_id(s.config.host_id@)
                &&& s.slots.wf()
                &&& s.slots.spec_total() == config.slots as nat
                &&& s.slots.spec_used() == 0
            }),
            !valid_host_id(config.host_id@) ==> r is Err,
            !(1 <= config.host_id@.len() <= 128) ==> (r matches Err(e)
                && e matches SentinelError::Config(m) && m@
                == "host_id: must be 1-128 characters, got "@
                + crate::decimal::spec_u64_digits(config.host_id@.len())),
            (1 <= config.host_id@.len() <= 128 && !valid_host_id(config.host_id@)) ==> (
            r matches Err(e) && e matches SentinelError::Config(m) && m@
                == "host_id: must contain only alphanumeric, hyphen, underscore, or dot"@),
            r matches Err(e) ==> e is Config,
    {
        let v = config.validate();
        if let Err(e) = v {
            return Err(e);
        }
        let slots = SlotTracker::new(config.slots);
        Ok(Sentinel { config, slots })
    }
}

/// What the orchestrator does with one incoming task notification after
/// the claim attempt.
#[derive(Debug, PartialEq, Eq, Structural)]
pub enum AdmissionOutcome {
    /// The claim was lost: another host owns the task; drop the
    /// notification without side effects.
    Dropped,
    /// The claim was won and a slot was taken: provision a VM.
    Admitted,
    /// The claim was won but no slot is free: the task stays claimed but
    /// unexecuted, a capacity-exhaustion condition reported upward rather
    /// than silently re-queued, since the claim cannot be cheaply un-done.
    CapacityExhausted,
}

impl Sentinel {
    /// The admission decision for one task notification: a lost claim
    /// changes nothing; a won claim takes exactly one slot when one is
    /// free, and otherwise leaves the tracker untouched and reports
    /// exhaustion.
    pub fn admit_claimed(&mut self, claim_won: bool) -> (r: AdmissionOutcome)
        ensures
            final(self).config == old(self).config,
            final(self).slots.spec_total() == old(self).slots.spec_total(),
            old(self).slots.wf() ==> final(self).slots.wf(),
            !claim_won ==> r is Dropped && final(self).slots.spec_used() == old(
                self,
            ).slots.spec_used(),
            claim_won && old(self).slots.spec_used() < old(self).slots.spec_total() ==> (
            r is Admitted && final(self).slots.spec_used() == old(self).slots.spec_used() + 1),
            claim_won && old(self).slots.spec_used() >= old(self).slots.spec_total() ==> (
            r is CapacityExhausted && final(self).slots.spec_used() == old(
                self,
            ).slots.spec_used()),
    {
        if !claim_won {
            return AdmissionOutcome::Dropped;
        }
        if self.slots.try_claim() {
            AdmissionOutcome::Admitted
        } else {
            AdmissionOutcome::CapacityExhausted
        }
    }

    /// Release the slot of a finished task, whatever its exit path. The
    /// caller pairs this with exactly one earlier admission.
    pub fn finish_task(&mut self)
        requires
            old(self).slots.spec_used() >= 1,
        ensures
            final(self).config == old(self).config,
            final(self).slots.spec_total() == old(self).slots.spec_total(),
            final(self).slots.spec_used() == old(self).slots.spec_used() - 1,
            old(self).slots.wf() ==> final(self).slots.wf(),
    {
        self.slots.release();
    }
}

} // verus!
