//! Per-VM lifecycle state machine.
//!
//! Stages run idle, provisioning, running, collecting, teardown, and back to
//! idle; failure and timeout branch out of any stage and funnel into
//! teardown. The machine itself is deliberately permissive — any state may be
//! set to any other — because failure can legitimately originate from any
//! stage; transition legality is the orchestrator's policy, kept in one
//! place, not the data type's.

use vstd::prelude::*;

verus! {

/// One stage of a VM's life.
#[derive(Debug, Clone)]
pub enum VmState {
    Idle,
    Provisioning,
    Running,
    Collecting,
    Teardown,
    Failed(String),
    Timeout,
}

impl PartialEq for VmState {
    fn eq(&self, other: &VmState) -> (r: bool) {
        match (self, other) {
            (VmState::Idle, VmState::Idle) => true,
            (VmState::Provisioning, VmState::Provisioning) => true,
            (VmState::Running, VmState::Running) => true,
            (VmState::Collecting, VmState::Collecting) => true,
            (VmState::Teardown, VmState::Teardown) => true,
            (VmState::Failed(a), VmState::Failed(b)) => a.eq(b),
            (VmState::Timeout, VmState::Timeout) => true,
            _ => false,
        }
    }
}

impl vstd::std_specs::cmp::PartialEqSpecImpl for VmState {
    open spec fn obeys_eq_spec() -> bool {
        true
    }

    open spec fn eq_spec(&self, other: &VmState) -> bool {
        match (self, other) {
            (VmState::Idle, VmState::Idle) => true,
            (VmState::Provisioning, VmState::Provisioning) => true,
            (VmState::Running, VmState::Running) => true,
            (VmState::Collecting, VmState::Collecting) => true,
            (VmState::Teardown, VmState::Teardown) => true,
            (VmState::Failed(a), VmState::Failed(b)) => a@ == b@,
            (VmState::Timeout, VmState::Timeout) => true,
            _ => false,
        }
    }
}

/// A VM's current stage and the task it serves, one instance per
/// currently-or-recently-active VM.
#[derive(Debug)]
pub struct VmLifecycle {
    pub state: VmState,
    pub task_id: Option<String>,
}

/// What one caller-driven transition does: the state is replaced, the task
/// correlation is untouched.
pub open spec fn spec_transition(m: VmLifecycle, next: VmState) -> VmLifecycle {
    VmLifecycle { state: next, task_id: m.task_id }
}

impl VmLifecycle {
    pub fn new() -> (m: VmLifecycle)
        ensures
            m.state is Idle,
            m.task_id is None,
    {
        VmLifecycle { state: VmState::Idle, task_id: None }
    }

    /// Move the VM to `next`. The machine performs no legality check: the
    /// orchestrator decides when a transition is allowed.
    pub fn transition(&mut self, next: VmState)
        ensures
            *final(self) == spec_transition(*old(self), next),
    {
        self.state = next;
    }
}

impl Default for VmLifecycle {
    fn default() -> (m: VmLifecycle)
        ensures
            m.state is Idle,
            m.task_id is None,
    {
        VmLifecycle::new()
    }
}

/// Lifecycle reachability, happy path: from `Idle`, driving the machine
/// through provisioning, running, collecting and teardown returns it to
/// `Idle`, with the task correlation carried unchanged the whole way.
pub proof fn lemma_lifecycle_happy_path(m: VmLifecycle)
    requires
        m.state is Idle,
    ensures
        ({
            let end = spec_transition(
                spec_transition(
                    spec_transition(
                        spec_transition(
                            spec_transition(m, VmState::Provisioning),
                            VmState::Running,
                        ),
                        VmState::Collecting,
                    ),
                    VmState::Teardown,
                ),
                VmState::Idle,
            );
            end.state is Idle && end.task_id == m.task_id
        }),
{
}

/// Lifecycle reachability, escape paths: from `Provisioning` a failure, and
/// from `Running` a timeout, each reach `Teardown` in one further step —
/// without passing through `Collecting`.
pub proof fn lemma_lifecycle_escape_paths(m: VmLifecycle, reason: String)
    ensures
        ({
            let failed = spec_transition(m, VmState::Failed(reason));
            let after_fail = spec_transition(failed, VmState::Teardown);
            &&& !(failed.state is Collecting)
            &&& after_fail.state is Teardown
        }),
        ({
            let timed_out = spec_transition(m, VmState::Timeout);
            let after_timeout = spec_transition(timed_out, VmState::Teardown);
            &&& !(timed_out.state is Collecting)
            &&& after_timeout.state is Teardown
        }),
{
}

} // verus!
