//! The authorization policy set and its fail-closed configuration.
//!
//! A signing request is allowed only when every policy approves. The
//! engine runs all policies, never short-circuiting, and collects each
//! rejection reason in policy order, so a denial surfaces every
//! violated constraint at once.

use vstd::prelude::*;

use crate::andonpolicy::AndonPolicy;
use crate::text::dec_seq;
use crate::text::push_dec;
use crate::transaction::external_sum;
use crate::transaction::CandidateTransaction;
use crate::transaction::TxOutput;
use crate::valuepolicy::ValuePolicy;

verus! {

/// Authorization parameters for one wallet identity, loaded fresh for
/// every signing request.
pub struct PolicyConfig {
    /// The stable wallet name the configuration is keyed by.
    pub wallet_name: String,
    /// The largest aggregate value one transaction may move out of
    /// custodial control.
    pub max_spend_per_tx: u64,
    /// The andon switch: while set, no transaction is signed.
    pub all_tx_halted: bool,
}

impl PolicyConfig {
    /// Builds a configuration from possibly absent stored fields,
    /// failing closed: an absent spend limit allows no external spend,
    /// and an absent halt flag halts.
    pub fn from_stored(
        wallet_name: String,
        max_spend_per_tx: Option<u64>,
        all_tx_halted: Option<bool>,
    ) -> (r: PolicyConfig)
        ensures
            r.wallet_name@ == wallet_name@,
            r.max_spend_per_tx == match max_spend_per_tx {
                Some(m) => m,
                None => 0u64,
            },
            r.all_tx_halted == match all_tx_halted {
                Some(h) => h,
                None => true,
            },
    {
        PolicyConfig {
            wallet_name,
            max_spend_per_tx: match max_spend_per_tx {
                Some(m) => m,
                None => 0,
            },
            all_tx_halted: match all_tx_halted {
                Some(h) => h,
                None => true,
            },
        }
    }
}

/// One policy's structured rejection reason.
#[derive(Clone, Copy, Debug, PartialEq, Eq, Structural)]
pub enum PolicyFailure {
    /// The value leaving custodial control exceeds the configured
    /// limit; carries the offending total.
    SpendLimitExceeded { total: u128 },
    /// The andon switch is set.
    AllHalted,
}

impl PolicyFailure {
    /// The human-readable reason line for this failure.
    pub open spec fn spec_message(self) -> Seq<char> {
        match self {
            PolicyFailure::SpendLimitExceeded { total } => "Transaction spend total of "@ + dec_seq(
                total as int,
            ) + " exceeds policy limit."@,
            PolicyFailure::AllHalted => "All transactions have been halted"@,
        }
    }

    /// Renders the reason line.
    pub fn message(&self) -> (r: String)
        ensures
            r@ == self.spec_message(),
    {
        match self {
            PolicyFailure::SpendLimitExceeded { total } => {
                let mut s = String::from_str("Transaction spend total of ");
                push_dec(&mut s, *total);
                s.append(" exceeds policy limit.");
                s
            },
            PolicyFailure::AllHalted => String::from_str("All transactions have been halted"),
        }
    }
}

/// One authorization check over a candidate transaction: the tagged
/// union of the concrete policies the engine knows.
pub enum Policy {
    /// The per-transaction spend limit.
    Value(ValuePolicy),
    /// The manual halt switch.
    Andon(AndonPolicy),
}

/// What one policy decides about a transaction: its rejection reason,
/// or nothing when it approves.
pub open spec fn policy_failure(p: Policy, outs: Seq<TxOutput>) -> Option<PolicyFailure> {
    match p {
        Policy::Value(vp) => if external_sum(outs) > vp.max_spend_per_tx as int {
            Some(PolicyFailure::SpendLimitExceeded { total: external_sum(outs) as u128 })
        } else {
            None
        },
        Policy::Andon(ap) => if ap.all_tx_halted {
            Some(PolicyFailure::AllHalted)
        } else {
            None
        },
    }
}

/// Every rejection reason the given policies produce, in policy order.
pub open spec fn failures_of(ps: Seq<Policy>, outs: Seq<TxOutput>) -> Seq<PolicyFailure>
    decreases ps.len(),
{
    if ps.len() == 0 {
        Seq::empty()
    } else {
        failures_of(ps.drop_last(), outs) + match policy_failure(ps.last(), outs) {
            Some(f) => seq![f],
            None => Seq::empty(),
        }
    }
}

/// The standard policies for one wallet, bound to its configuration:
/// the spend-limit policy, then the andon policy.
pub open spec fn standard_policies(config: PolicyConfig) -> Seq<Policy> {
    seq![
        Policy::Value(ValuePolicy { max_spend_per_tx: config.max_spend_per_tx }),
        Policy::Andon(AndonPolicy { all_tx_halted: config.all_tx_halted }),
    ]
}

/// The ordered set of policies evaluated for one signing request.
pub struct PolicySet {
    pub policies: Vec<Policy>,
}

fn check_one(p: &Policy, tx: &CandidateTransaction) -> (r: Result<(), PolicyFailure>)
    ensures
        match policy_failure(*p, tx@) {
            Some(f) => r == Err::<(), PolicyFailure>(f),
            None => r is Ok,
        },
{
    match p {
        Policy::Value(vp) => vp.check_transaction(tx),
        Policy::Andon(ap) => ap.check_transaction(tx),
    }
}

impl PolicySet {
    /// The standard policy set for one wallet: the spend-limit policy,
    /// then the andon policy, both bound to the active configuration.
    pub fn new(policy_config: &PolicyConfig) -> (r: PolicySet)
        ensures
            r.policies@ == standard_policies(*policy_config),
    {
        let mut v: Vec<Policy> = Vec::new();
        v.push(Policy::Value(ValuePolicy::new(policy_config)));
        v.push(Policy::Andon(AndonPolicy::new(policy_config)));
        proof {
            assert(v@ =~= seq![
                Policy::Value(ValuePolicy { max_spend_per_tx: policy_config.max_spend_per_tx }),
                Policy::Andon(AndonPolicy { all_tx_halted: policy_config.all_tx_halted }),
            ]);
        }
        PolicySet { policies: v }
    }

    /// Evaluates every policy against the transaction, with no
    /// short-circuit, and collects each rejection reason in policy
    /// order. Approves exactly when no policy rejects.
    #[verifier::loop_isolation(false)]
    pub fn check_policies(&self, tx: &CandidateTransaction) -> (r: Result<(), Vec<PolicyFailure>>)
        ensures
            match r {
                Ok(()) => failures_of(self.policies@, tx@).len() == 0,
                Err(es) => es@ == failures_of(self.policies@, tx@) && es@.len() > 0,
            },
    {
        let mut errors: Vec<PolicyFailure> = Vec::new();
        let n = self.policies.len();
        proof {
            assert(errors@ =~= failures_of(self.policies@.take(0), tx@));
        }
        let mut i: usize = 0;
        while i < n
            invariant
                0 <= i <= n,
                n == self.policies@.len(),
                errors@ == failures_of(self.policies@.take(i as int), tx@),
            decreases n - i,
        {
            let ghost pre = errors@;
            match check_one(&self.policies[i], tx) {
                Ok(()) => {
                    proof {
                        assert(self.policies@.take(i + 1 as int).drop_last() =~= self.policies@.take(
                            i as int,
                        ));
                        assert(self.policies@.take(i + 1 as int).last() == self.policies@[i as int]);
                        assert(errors@ =~= failures_of(self.policies@.take(i + 1 as int), tx@));
                    }
                },
                Err(f) => {
                    errors.push(f);
                    proof {
                        assert(self.policies@.take(i + 1 as int).drop_last() =~= self.policies@.take(
                            i as int,
                        ));
                        assert(self.policies@.take(i + 1 as int).last() == self.policies@[i as int]);
                        assert(errors@ =~= pre + seq![f]);
                        assert(errors@ =~= failures_of(self.policies@.take(i + 1 as int), tx@));
                    }
                },
            }
            i = i + 1;
        }
        proof {
            assert(self.policies@.take(n as int) =~= self.policies@);
        }
        if errors.len() == 0 {
            Ok(())
        } else {
            Err(errors)
        }
    }
}

/// One verdict carries every failing policy's reason: against a
/// transaction that exceeds the spend limit while the andon switch is
/// set, the standard policy set reports both failures, in order.
pub proof fn lemma_collects_all_failures(limit: u64, outs: Seq<TxOutput>)
    requires
        external_sum(outs) > limit as int,
    ensures
        failures_of(
            seq![
                Policy::Value(ValuePolicy { max_spend_per_tx: limit }),
                Policy::Andon(AndonPolicy { all_tx_halted: true }),
            ],
            outs,
        ) == seq![
            PolicyFailure::SpendLimitExceeded { total: external_sum(outs) as u128 },
            PolicyFailure::AllHalted,
        ],
{
    let ps = seq![
        Policy::Value(ValuePolicy { max_spend_per_tx: limit }),
        Policy::Andon(AndonPolicy { all_tx_halted: true }),
    ];
    let value_only = seq![Policy::Value(ValuePolicy { max_spend_per_tx: limit })];
    assert(ps.drop_last() =~= value_only);
    assert(value_only.drop_last() =~= Seq::<Policy>::empty());
    assert(failures_of(Seq::<Policy>::empty(), outs) =~= Seq::<PolicyFailure>::empty());
    assert(value_only.last() == Policy::Value(ValuePolicy { max_spend_per_tx: limit }));
    assert(failures_of(value_only, outs) =~= seq![
        PolicyFailure::SpendLimitExceeded { total: external_sum(outs) as u128 },
    ]);
    assert(ps.last() == Policy::Andon(AndonPolicy { all_tx_halted: true }));
    assert(failures_of(ps, outs) =~= seq![
        PolicyFailure::SpendLimitExceeded { total: external_sum(outs) as u128 },
        PolicyFailure::AllHalted,
    ]);
}

} // verus!
