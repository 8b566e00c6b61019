//! The decoded candidate transaction a policy decision is made about.
//!
//! A proposed spend is reduced to the facts the policies read: each
//! output's value in the smallest transaction-value unit, and whether
//! the wallet capability recognizes the output's destination script as
//! the wallet's own. Ownership is resolved by the wallet layer before
//! the engine runs; the engine never re-derives it.

use vstd::prelude::*;

verus! {

/// One output of a proposed transaction.
#[derive(Clone, Copy, Debug, PartialEq, Eq, Structural)]
pub struct TxOutput {
    /// The output's value.
    pub value: u64,
    /// Whether the destination script is controlled by the wallet
    /// itself (change), as the wallet capability reports it.
    pub mine: bool,
}

/// A decoded proposed spend: its outputs, in transaction order.
pub struct CandidateTransaction {
    pub outputs: Vec<TxOutput>,
}

impl View for CandidateTransaction {
    type V = Seq<TxOutput>;

    open spec fn view(&self) -> Seq<TxOutput> {
        self.outputs@
    }
}

/// The summed value of every output that is not the wallet's own: the
/// total value leaving custodial control.
pub open spec fn external_sum(outs: Seq<TxOutput>) -> int
    decreases outs.len(),
{
    if outs.len() == 0 {
        0
    } else {
        external_sum(outs.drop_last()) + if !outs.last().mine {
            outs.last().value as int
        } else {
            0int
        }
    }
}

} // verus!
