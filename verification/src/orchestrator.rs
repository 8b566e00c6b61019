//! The signing request state machine.
//!
//! One request moves from `Idle` through the policy check to either
//! `PolicyChecked` and then `Signed`, or to the terminal `Rejected`.
//! The surrounding host performs the outside work between steps —
//! fetching the stored wallet and the fresh policy configuration,
//! decoding the wire-encoded transaction, and invoking the signing
//! capability — and may call the signing capability only after the
//! check has approved, and at most once.

use vstd::prelude::*;

use crate::policy::failures_of;
use crate::policy::standard_policies;
use crate::policy::PolicyConfig;
use crate::policy::PolicyFailure;
use crate::policy::PolicySet;
use crate::transaction::CandidateTransaction;

verus! {

/// Where one signing request stands.
#[derive(Clone, Copy, Debug, PartialEq, Eq, Structural)]
pub enum SigningState {
    /// The request has been received; no decision has been made.
    Idle,
    /// Every policy has approved; the signing capability may be
    /// invoked once.
    PolicyChecked,
    /// The signing capability has been invoked. Terminal.
    Signed,
    /// At least one policy rejected; no signing call is permitted.
    /// Terminal.
    Rejected,
}

/// The gatekeeper for one signing request.
pub struct SigningOrchestrator {
    pub state: SigningState,
}

impl SigningOrchestrator {
    /// A fresh request starts idle.
    pub fn new() -> (r: SigningOrchestrator)
        ensures
            r.state == SigningState::Idle,
    {
        SigningOrchestrator { state: SigningState::Idle }
    }

    /// Evaluates the standard policy set, bound to the freshly loaded
    /// configuration, against the decoded transaction. On unanimous
    /// approval the request becomes signable; on any rejection it is
    /// terminally rejected with every failing policy's reason.
    pub fn check_policies(&mut self, policy_config: &PolicyConfig, tx: &CandidateTransaction) -> (r:
        Result<(), Vec<PolicyFailure>>)
        requires
            old(self).state == SigningState::Idle,
        ensures
            match r {
                Ok(()) => final(self).state == SigningState::PolicyChecked && failures_of(
                    standard_policies(*policy_config),
                    tx@,
                ).len() == 0,
                Err(es) => final(self).state == SigningState::Rejected && es@ == failures_of(
                    standard_policies(*policy_config),
                    tx@,
                ) && es@.len() > 0,
            },
    {
        let policies = PolicySet::new(policy_config);
        match policies.check_policies(tx) {
            Ok(()) => {
                self.state = SigningState::PolicyChecked;
                Ok(())
            },
            Err(es) => {
                self.state = SigningState::Rejected;
                Err(es)
            },
        }
    }

    /// Records the one permitted invocation of the signing capability.
    /// Only a policy-checked request may be signed, and only once.
    pub fn mark_signed(&mut self)
        requires
            old(self).state == SigningState::PolicyChecked,
        ensures
            final(self).state == SigningState::Signed,
    {
        self.state = SigningState::Signed;
    }
}

} // verus!
