use signing_bot::andonpolicy::AndonPolicy;
use signing_bot::orchestrator::SigningOrchestrator;
use signing_bot::orchestrator::SigningState;
use signing_bot::policy::PolicyConfig;
use signing_bot::policy::PolicyFailure;
use signing_bot::policy::PolicySet;
use signing_bot::transaction::CandidateTransaction;
use signing_bot::transaction::TxOutput;
use signing_bot::text::u128_to_string;
use signing_bot::valuepolicy::ValuePolicy;

fn payment_tx(external_value: u64) -> CandidateTransaction {
    CandidateTransaction {
        outputs: vec![
            TxOutput { value: external_value, mine: false },
            TxOutput { value: 31_337, mine: true },
        ],
    }
}

#[test]
fn andon_policy_stops_spends() {
    let psbt = payment_tx(20_000);
    let config = PolicyConfig {
        wallet_name: "".to_string(),
        max_spend_per_tx: 0,
        all_tx_halted: false,
    };
    let mut policy = AndonPolicy::new(&config);
    assert!(policy.check_transaction(&psbt).is_ok());

    policy.halt_all();
    assert!(policy.check_transaction(&psbt).is_err());

    policy.reset();
    assert!(policy.check_transaction(&psbt).is_ok());
}

#[test]
fn value_policy_allows_conformant_tx() {
    let psbt = payment_tx(20_000);
    let policy = ValuePolicy { max_spend_per_tx: 50_000 };
    assert!(policy.check_transaction(&psbt).is_ok());
}

#[test]
fn value_policy_doesnt_allow_nonconformant_tx() {
    let psbt = payment_tx(20_000);
    let policy = ValuePolicy { max_spend_per_tx: 10_000 };
    assert!(policy.check_transaction(&psbt).is_err());
}

#[test]
fn value_policy_boundary_is_inclusive() {
    let policy = ValuePolicy { max_spend_per_tx: 20_000 };
    assert!(policy.check_transaction(&payment_tx(20_000)).is_ok());
    let err = policy.check_transaction(&payment_tx(20_001)).unwrap_err();
    assert_eq!(err, PolicyFailure::SpendLimitExceeded { total: 20_001 });
    assert_eq!(
        err.message(),
        "Transaction spend total of 20001 exceeds policy limit."
    );
}

#[test]
fn value_policy_ignores_own_change_outputs() {
    let tx = CandidateTransaction {
        outputs: vec![
            TxOutput { value: 5_000, mine: false },
            TxOutput { value: u64::MAX, mine: true },
            TxOutput { value: 6_000, mine: false },
        ],
    };
    let policy = ValuePolicy { max_spend_per_tx: 11_000 };
    assert!(policy.check_transaction(&tx).is_ok());
    let policy = ValuePolicy { max_spend_per_tx: 10_999 };
    let err = policy.check_transaction(&tx).unwrap_err();
    assert_eq!(err, PolicyFailure::SpendLimitExceeded { total: 11_000 });
}

#[test]
fn value_policy_sums_without_overflow() {
    let tx = CandidateTransaction {
        outputs: vec![
            TxOutput { value: u64::MAX, mine: false },
            TxOutput { value: u64::MAX, mine: false },
        ],
    };
    let policy = ValuePolicy { max_spend_per_tx: u64::MAX };
    let err = policy.check_transaction(&tx).unwrap_err();
    assert_eq!(
        err,
        PolicyFailure::SpendLimitExceeded { total: 2 * (u64::MAX as u128) }
    );
}

#[test]
fn andon_failure_message_names_the_halt() {
    let err = PolicyFailure::AllHalted;
    assert_eq!(err.message(), "All transactions have been halted");
}

#[test]
fn policy_set_collects_all_failures_in_one_verdict() {
    let config = PolicyConfig {
        wallet_name: "w".to_string(),
        max_spend_per_tx: 10_000,
        all_tx_halted: true,
    };
    let policies = PolicySet::new(&config);
    let reasons = policies.check_policies(&payment_tx(20_000)).unwrap_err();
    assert_eq!(reasons.len(), 2);
    assert_eq!(reasons[0], PolicyFailure::SpendLimitExceeded { total: 20_000 });
    assert_eq!(reasons[1], PolicyFailure::AllHalted);
}

#[test]
fn policy_set_approves_when_every_policy_passes() {
    let config = PolicyConfig {
        wallet_name: "w".to_string(),
        max_spend_per_tx: 20_000,
        all_tx_halted: false,
    };
    let policies = PolicySet::new(&config);
    assert!(policies.check_policies(&payment_tx(20_000)).is_ok());
}

#[test]
fn halted_wallet_rejects_zero_spend_request() {
    let config = PolicyConfig {
        wallet_name: "w".to_string(),
        max_spend_per_tx: 500_000,
        all_tx_halted: true,
    };
    let tx = CandidateTransaction { outputs: vec![] };
    let mut orchestrator = SigningOrchestrator::new();
    let reasons = orchestrator.check_policies(&config, &tx).unwrap_err();
    assert_eq!(reasons, vec![PolicyFailure::AllHalted]);
    assert_eq!(orchestrator.state, SigningState::Rejected);
}

#[test]
fn approved_request_is_signed_exactly_once() {
    let config = PolicyConfig {
        wallet_name: "w".to_string(),
        max_spend_per_tx: 500_000,
        all_tx_halted: false,
    };
    let mut orchestrator = SigningOrchestrator::new();
    assert!(orchestrator.check_policies(&config, &payment_tx(400_000)).is_ok());
    assert_eq!(orchestrator.state, SigningState::PolicyChecked);
    orchestrator.mark_signed();
    assert_eq!(orchestrator.state, SigningState::Signed);
}

#[test]
fn stored_config_fails_closed_on_absent_fields() {
    let config = PolicyConfig::from_stored("w".to_string(), None, None);
    assert_eq!(config.max_spend_per_tx, 0);
    assert!(config.all_tx_halted);
    let config = PolicyConfig::from_stored("w".to_string(), Some(7), Some(false));
    assert_eq!(config.max_spend_per_tx, 7);
    assert!(!config.all_tx_halted);
}

#[test]
fn decimal_rendering_matches_formatting() {
    assert_eq!(u128_to_string(0), "0");
    assert_eq!(u128_to_string(9), "9");
    assert_eq!(u128_to_string(10), "10");
    assert_eq!(u128_to_string(20_001), "20001");
    assert_eq!(u128_to_string(u128::MAX), format!("{}", u128::MAX));
}
