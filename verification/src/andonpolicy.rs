//! The andon-cord policy: a manually settable global halt switch.
//!
//! While the switch is set, no transaction is signed, whatever it
//! contains. It is wired to an out-of-band administrative control that
//! can stop all spends until someone resets it.

use vstd::prelude::*;

use crate::policy::policy_failure;
use crate::policy::Policy;
use crate::policy::PolicyConfig;
use crate::policy::PolicyFailure;
use crate::transaction::CandidateTransaction;
use crate::transaction::TxOutput;

verus! {

/// The halt switch, read fresh from the configuration for every
/// signing request so that a halt takes effect immediately.
pub struct AndonPolicy {
    pub all_tx_halted: bool,
}

impl AndonPolicy {
    /// Binds the policy to the configured halt state.
    pub fn new(policy_config: &PolicyConfig) -> (r: AndonPolicy)
        ensures
            r.all_tx_halted == policy_config.all_tx_halted,
    {
        AndonPolicy { all_tx_halted: policy_config.all_tx_halted }
    }

    /// Pulls the cord: every later evaluation rejects.
    pub fn halt_all(&mut self)
        ensures
            final(self).all_tx_halted,
    {
        self.all_tx_halted = true;
    }

    /// Releases the cord: evaluation reverts to approving.
    pub fn reset(&mut self)
        ensures
            !final(self).all_tx_halted,
    {
        self.all_tx_halted = false;
    }

    /// Rejects every transaction while halted, regardless of its
    /// content; approves every transaction otherwise.
    pub fn check_transaction(&self, _tx: &CandidateTransaction) -> (r: Result<(), PolicyFailure>)
        ensures
            r is Ok <==> !self.all_tx_halted,
            r is Err ==> r->Err_0 == PolicyFailure::AllHalted,
    {
        if self.all_tx_halted {
            Err(PolicyFailure::AllHalted)
        } else {
            Ok(())
        }
    }
}

/// Only the halt flag decides the andon outcome: while the cord is
/// pulled, every evaluation rejects, whatever the transaction holds;
/// while it is released, every evaluation approves. Pulling and then
/// releasing the cord therefore restores the earlier outcomes exactly.
pub proof fn lemma_andon_governs(outs: Seq<TxOutput>)
    ensures
        policy_failure(Policy::Andon(AndonPolicy { all_tx_halted: true }), outs) == Some(
            PolicyFailure::AllHalted,
        ),
        policy_failure(Policy::Andon(AndonPolicy { all_tx_halted: false }), outs)
            == None::<PolicyFailure>,
{
}

} // verus!
