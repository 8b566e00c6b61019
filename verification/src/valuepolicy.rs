//! The per-transaction spend-limit policy.

use vstd::prelude::*;

use crate::policy::PolicyConfig;
use crate::policy::PolicyFailure;
use crate::transaction::external_sum;
use crate::transaction::CandidateTransaction;

verus! {

/// Rejects any transaction whose outputs would move more value out of
/// custodial control than the configured limit allows. Outputs owned
/// by the wallet itself (change) never count toward the total.
pub struct ValuePolicy {
    pub max_spend_per_tx: u64,
}

impl ValuePolicy {
    /// Binds the policy to the configured per-transaction spend limit.
    pub fn new(policy_config: &PolicyConfig) -> (r: ValuePolicy)
        ensures
            r.max_spend_per_tx == policy_config.max_spend_per_tx,
    {
        ValuePolicy { max_spend_per_tx: policy_config.max_spend_per_tx }
    }

    /// Approves exactly when the summed value of the outputs leaving
    /// the wallet is at most the limit (the boundary is inclusive);
    /// rejects with the offending total otherwise.
    #[verifier::loop_isolation(false)]
    pub fn check_transaction(&self, tx: &CandidateTransaction) -> (r: Result<(), PolicyFailure>)
        ensures
            r is Ok <==> external_sum(tx@) <= self.max_spend_per_tx as int,
            r is Err ==> r->Err_0 == (PolicyFailure::SpendLimitExceeded {
                total: external_sum(tx@) as u128,
            }),
    {
        let n = tx.outputs.len();
        let mut total: u128 = 0;
        proof {
            assert(tx@.take(0) =~= Seq::empty());
        }
        let mut i: usize = 0;
        while i < n
            invariant
                0 <= i <= n,
                n == tx@.len(),
                total as int == external_sum(tx@.take(i as int)),
                total as int <= (i as int) * (u64::MAX as int),
            decreases n - i,
        {
            proof {
                assert(tx@.take(i + 1 as int).drop_last() =~= tx@.take(i as int));
                assert(tx@.take(i + 1 as int).last() == tx@[i as int]);
                assert((i as int) * (u64::MAX as int) + (u64::MAX as int) == (i + 1 as int) * (
                u64::MAX as int));
                assert((i + 1 as int) * (u64::MAX as int) <= (n as int) * (u64::MAX as int)) by (
                nonlinear_arith)
                    requires
                        i + 1 <= n,
                ;
            }
            let out = tx.outputs[i];
            if !out.mine {
                total = total + out.value as u128;
            }
            i = i + 1;
        }
        proof {
            assert(tx@.take(n as int) =~= tx@);
        }
        if total > self.max_spend_per_tx as u128 {
            Err(PolicyFailure::SpendLimitExceeded { total })
        } else {
            Ok(())
        }
    }
}

} // verus!
