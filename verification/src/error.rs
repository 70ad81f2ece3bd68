//! Error taxonomy of the host-side agent.
//!
//! A claim conflict is an expected race outcome and is handled locally; store
//! and VM faults propagate; a protocol violation is scoped to one connection;
//! a configuration error is fatal at startup only. No error here is a panic.

use vstd::prelude::*;

verus! {

/// Errors surfaced by the agent core.
#[derive(Debug, Clone)]
pub enum SentinelError {
    /// Message-bus failure, transient.
    Transport(String),
    /// I/O-level fault talking to the state store, transient.
    StateStore(String),
    /// Provisioning, execution or teardown failure inside a VM lifecycle.
    Vm(String),
    /// Oversized or malformed wire message on the guest channel.
    Vsock(String),
    /// Startup-time configuration validation failure.
    Config(String),
    /// The claim CAS found the task already taken by some other host.
    ClaimFailed { task_id: String, reason: String },
    /// A task exceeded its configured deadline.
    Timeout(String),
}

/// The human-readable rendering of each error variant.
pub open spec fn spec_message(e: &SentinelError) -> Seq<char> {
    match e {
        SentinelError::Transport(s) => "transport error: "@ + s@,
        SentinelError::StateStore(s) => "state store error: "@ + s@,
        SentinelError::Vm(s) => "vm error: "@ + s@,
        SentinelError::Vsock(s) => "vsock error: "@ + s@,
        SentinelError::Config(s) => "config error: "@ + s@,
        SentinelError::ClaimFailed { task_id, reason } => "claim failed for task "@ + task_id@
            + ": "@ + reason@,
        SentinelError::Timeout(s) => "timeout: task "@ + s@ + " exceeded deadline"@,
    }
}

impl SentinelError {
    /// External-facing message for bus publications and operator output.
    pub fn message(&self) -> (r: String)
        ensures
            r@ == spec_message(self),
    {
        match self {
            SentinelError::Transport(s) => String::from_str("transport error: ").concat(
                s.as_str(),
            ),
            SentinelError::StateStore(s) => String::from_str("state store error: ").concat(
                s.as_str(),
            ),
            SentinelError::Vm(s) => String::from_str("vm error: ").concat(s.as_str()),
            SentinelError::Vsock(s) => String::from_str("vsock error: ").concat(s.as_str()),
            SentinelError::Config(s) => String::from_str("config error: ").concat(s.as_str()),
            SentinelError::ClaimFailed { task_id, reason } => String::from_str(
                "claim failed for task ",
            ).concat(task_id.as_str()).concat(": ").concat(reason.as_str()),
            SentinelError::Timeout(s) => String::from_str("timeout: task ").concat(
                s.as_str(),
            ).concat(" exceeded deadline"),
        }
    }
}

} // verus!
