use job_escrow::escrow::EscrowContract;
use job_escrow::escrow::EscrowError;
use job_escrow::escrow::EscrowStatus;
use job_escrow::ledger::ValueLedger;

// Principals and assets used across the scenarios.
const HOLDING: u64 = 1;
const ADMIN: u64 = 2;
const PAYER_E: u64 = 10;
const PAYEE_F: u64 = 11;
const STRANGER: u64 = 12;
const XLM: u64 = 7;

fn setup() -> (EscrowContract, ValueLedger) {
    let mut contract = EscrowContract::new(HOLDING);
    contract.initialize(ADMIN);
    let mut ledger = ValueLedger::new();
    ledger.mint(XLM, PAYER_E, 10_000);
    (contract, ledger)
}

#[test]
fn create_reflects_locked_record() {
    let (mut contract, mut ledger) = setup();
    let r = contract.create_escrow(
        &mut ledger,
        PAYER_E,
        "J1".to_string(),
        PAYER_E,
        1000,
        XLM,
        None,
        100,
    );
    assert_eq!(r, Ok(()));
    let rec = contract.get_escrow("J1".to_string()).expect("record must exist");
    assert_eq!(rec.status, EscrowStatus::Locked);
    assert_eq!(rec.amount, 1000);
    assert_eq!(rec.freelancer, None);
    assert_eq!(rec.employer, PAYER_E);
    assert_eq!(rec.token, XLM);
    assert_eq!(rec.created_at, 100);
    assert_eq!(rec.deadline, None);
    assert_eq!(rec.job_id, "J1".to_string());
    assert_eq!(ledger.balance_of(XLM, PAYER_E), 9_000);
    assert_eq!(ledger.balance_of(XLM, HOLDING), 1000);
}

#[test]
fn duplicate_job_id_always_rejected() {
    let (mut contract, mut ledger) = setup();
    let r = contract.create_escrow(
        &mut ledger,
        PAYER_E,
        "J1".to_string(),
        PAYER_E,
        1000,
        XLM,
        None,
        100,
    );
    assert_eq!(r, Ok(()));
    // A second creation fails regardless of payload.
    let r2 = contract.create_escrow(
        &mut ledger,
        STRANGER,
        "J1".to_string(),
        STRANGER,
        5,
        XLM,
        Some(999),
        101,
    );
    assert_eq!(r2, Err(EscrowError::EscrowAlreadyExists));
    let r3 = contract.create_escrow(
        &mut ledger,
        PAYER_E,
        "J1".to_string(),
        PAYER_E,
        5,
        XLM,
        Some(999),
        101,
    );
    assert_eq!(r3, Err(EscrowError::EscrowAlreadyExists));
    // Still rejected after the record reaches a terminal state.
    assert_eq!(contract.assign_freelancer(PAYER_E, "J1".to_string(), PAYEE_F), Ok(()));
    assert_eq!(contract.release_escrow(&mut ledger, PAYER_E, "J1".to_string()), Ok(()));
    let r4 = contract.create_escrow(
        &mut ledger,
        PAYER_E,
        "J1".to_string(),
        PAYER_E,
        5,
        XLM,
        None,
        102,
    );
    assert_eq!(r4, Err(EscrowError::EscrowAlreadyExists));
}

#[test]
fn create_rejects_nonpositive_amount() {
    let (mut contract, mut ledger) = setup();
    let r = contract.create_escrow(&mut ledger, PAYER_E, "J1".to_string(), PAYER_E, 0, XLM, None, 1);
    assert_eq!(r, Err(EscrowError::InvalidAmount));
    let r2 =
        contract.create_escrow(&mut ledger, PAYER_E, "J1".to_string(), PAYER_E, -7, XLM, None, 1);
    assert_eq!(r2, Err(EscrowError::InvalidAmount));
    assert!(contract.get_escrow("J1".to_string()).is_none());
}

#[test]
fn create_rejects_insufficient_balance() {
    let (mut contract, mut ledger) = setup();
    let r = contract.create_escrow(
        &mut ledger,
        PAYER_E,
        "J1".to_string(),
        PAYER_E,
        20_000,
        XLM,
        None,
        1,
    );
    assert_eq!(r, Err(EscrowError::InsufficientBalance));
    assert!(contract.get_escrow("J1".to_string()).is_none());
    assert_eq!(ledger.balance_of(XLM, PAYER_E), 10_000);
    assert_eq!(ledger.balance_of(XLM, HOLDING), 0);
}

#[test]
fn create_requires_payer_authorization() {
    let (mut contract, mut ledger) = setup();
    let r = contract.create_escrow(
        &mut ledger,
        STRANGER,
        "J1".to_string(),
        PAYER_E,
        1000,
        XLM,
        None,
        1,
    );
    assert_eq!(r, Err(EscrowError::Unauthorized));
    assert!(contract.get_escrow("J1".to_string()).is_none());
}

#[test]
fn assign_freelancer_visible_in_record() {
    let (mut contract, mut ledger) = setup();
    let r = contract.create_escrow(
        &mut ledger,
        PAYER_E,
        "J1".to_string(),
        PAYER_E,
        1000,
        XLM,
        None,
        100,
    );
    assert_eq!(r, Ok(()));
    assert_eq!(contract.assign_freelancer(PAYER_E, "J1".to_string(), PAYEE_F), Ok(()));
    let rec = contract.get_escrow("J1".to_string()).expect("record must exist");
    assert_eq!(rec.freelancer, Some(PAYEE_F));
    assert_eq!(rec.status, EscrowStatus::Locked);
}

#[test]
fn assign_freelancer_rejections() {
    let (mut contract, mut ledger) = setup();
    assert_eq!(
        contract.assign_freelancer(PAYER_E, "J9".to_string(), PAYEE_F),
        Err(EscrowError::EscrowNotFound)
    );
    let r = contract.create_escrow(
        &mut ledger,
        PAYER_E,
        "J1".to_string(),
        PAYER_E,
        1000,
        XLM,
        None,
        100,
    );
    assert_eq!(r, Ok(()));
    assert_eq!(
        contract.assign_freelancer(STRANGER, "J1".to_string(), PAYEE_F),
        Err(EscrowError::Unauthorized)
    );
    assert_eq!(contract.assign_freelancer(PAYER_E, "J1".to_string(), PAYEE_F), Ok(()));
    // Assigning twice is rejected, not a no-op.
    assert_eq!(
        contract.assign_freelancer(PAYER_E, "J1".to_string(), STRANGER),
        Err(EscrowError::InvalidStatus)
    );
    let rec = contract.get_escrow("J1".to_string()).expect("record must exist");
    assert_eq!(rec.freelancer, Some(PAYEE_F));
}

#[test]
fn release_pays_freelancer_in_full() {
    let (mut contract, mut ledger) = setup();
    let r = contract.create_escrow(
        &mut ledger,
        PAYER_E,
        "J1".to_string(),
        PAYER_E,
        1000,
        XLM,
        None,
        100,
    );
    assert_eq!(r, Ok(()));
    assert_eq!(contract.assign_freelancer(PAYER_E, "J1".to_string(), PAYEE_F), Ok(()));
    // A third principal may not release.
    assert_eq!(
        contract.release_escrow(&mut ledger, STRANGER, "J1".to_string()),
        Err(EscrowError::Unauthorized)
    );
    assert_eq!(contract.release_escrow(&mut ledger, PAYER_E, "J1".to_string()), Ok(()));
    assert_eq!(ledger.balance_of(XLM, PAYEE_F), 1000);
    assert_eq!(ledger.balance_of(XLM, HOLDING), 0);
    assert_eq!(ledger.balance_of(XLM, PAYER_E), 9_000);
    let rec = contract.get_escrow("J1".to_string()).expect("record must exist");
    assert_eq!(rec.status, EscrowStatus::Released);
}

#[test]
fn release_requires_assigned_freelancer() {
    let (mut contract, mut ledger) = setup();
    let r = contract.create_escrow(
        &mut ledger,
        PAYER_E,
        "J1".to_string(),
        PAYER_E,
        1000,
        XLM,
        None,
        100,
    );
    assert_eq!(r, Ok(()));
    assert_eq!(
        contract.release_escrow(&mut ledger, PAYER_E, "J1".to_string()),
        Err(EscrowError::FreelancerNotAssigned)
    );
}

#[test]
fn cancel_follows_deadline_rule() {
    let (mut contract, mut ledger) = setup();
    let r = contract.create_escrow(
        &mut ledger,
        PAYER_E,
        "J2".to_string(),
        PAYER_E,
        500,
        XLM,
        Some(200),
        100,
    );
    assert_eq!(r, Ok(()));
    assert_eq!(contract.assign_freelancer(PAYER_E, "J2".to_string(), PAYEE_F), Ok(()));
    // Before the deadline: rejected.
    assert_eq!(
        contract.cancel_escrow(&mut ledger, PAYER_E, "J2".to_string(), 150),
        Err(EscrowError::CannotCancel)
    );
    assert_eq!(
        contract.cancel_escrow(&mut ledger, PAYER_E, "J2".to_string(), 199),
        Err(EscrowError::CannotCancel)
    );
    // At or past the deadline: refunded in full.
    assert_eq!(contract.cancel_escrow(&mut ledger, PAYER_E, "J2".to_string(), 200), Ok(()));
    assert_eq!(ledger.balance_of(XLM, PAYER_E), 10_000);
    assert_eq!(ledger.balance_of(XLM, HOLDING), 0);
    let rec = contract.get_escrow("J2".to_string()).expect("record must exist");
    assert_eq!(rec.status, EscrowStatus::Cancelled);
}

#[test]
fn cancel_with_freelancer_but_no_deadline_always_fails() {
    let (mut contract, mut ledger) = setup();
    let r = contract.create_escrow(
        &mut ledger,
        PAYER_E,
        "J1".to_string(),
        PAYER_E,
        500,
        XLM,
        None,
        100,
    );
    assert_eq!(r, Ok(()));
    assert_eq!(contract.assign_freelancer(PAYER_E, "J1".to_string(), PAYEE_F), Ok(()));
    assert_eq!(
        contract.cancel_escrow(&mut ledger, PAYER_E, "J1".to_string(), u64::MAX),
        Err(EscrowError::CannotCancel)
    );
}

#[test]
fn cancel_unassigned_is_free() {
    let (mut contract, mut ledger) = setup();
    let r = contract.create_escrow(
        &mut ledger,
        PAYER_E,
        "J1".to_string(),
        PAYER_E,
        500,
        XLM,
        Some(200),
        100,
    );
    assert_eq!(r, Ok(()));
    // No freelancer assigned: cancellation needs no deadline to have passed.
    assert_eq!(contract.cancel_escrow(&mut ledger, PAYER_E, "J1".to_string(), 101), Ok(()));
    assert_eq!(ledger.balance_of(XLM, PAYER_E), 10_000);
}

#[test]
fn terminal_records_refuse_all_mutation() {
    let (mut contract, mut ledger) = setup();
    let r = contract.create_escrow(
        &mut ledger,
        PAYER_E,
        "J1".to_string(),
        PAYER_E,
        1000,
        XLM,
        None,
        100,
    );
    assert_eq!(r, Ok(()));
    assert_eq!(contract.assign_freelancer(PAYER_E, "J1".to_string(), PAYEE_F), Ok(()));
    assert_eq!(contract.release_escrow(&mut ledger, PAYER_E, "J1".to_string()), Ok(()));
    // Released is terminal: every mutating call now fails with InvalidStatus.
    assert_eq!(
        contract.assign_freelancer(PAYER_E, "J1".to_string(), STRANGER),
        Err(EscrowError::InvalidStatus)
    );
    assert_eq!(
        contract.release_escrow(&mut ledger, PAYER_E, "J1".to_string()),
        Err(EscrowError::InvalidStatus)
    );
    assert_eq!(
        contract.cancel_escrow(&mut ledger, PAYER_E, "J1".to_string(), u64::MAX),
        Err(EscrowError::InvalidStatus)
    );
    assert_eq!(
        contract.initiate_dispute(PAYER_E, "J1".to_string()),
        Err(EscrowError::InvalidStatus)
    );
    assert_eq!(ledger.balance_of(XLM, PAYEE_F), 1000);
    let rec = contract.get_escrow("J1".to_string()).expect("record must exist");
    assert_eq!(rec.status, EscrowStatus::Released);
}

#[test]
fn participation_indices_keep_order() {
    let (mut contract, mut ledger) = setup();
    for (job, amount) in [("J1", 100i128), ("J2", 200), ("J3", 300)] {
        let r = contract.create_escrow(
            &mut ledger,
            PAYER_E,
            job.to_string(),
            PAYER_E,
            amount,
            XLM,
            None,
            1,
        );
        assert_eq!(r, Ok(()));
    }
    assert_eq!(
        contract.get_employer_escrows(PAYER_E),
        vec!["J1".to_string(), "J2".to_string(), "J3".to_string()]
    );
    assert_eq!(contract.get_employer_escrows(STRANGER), Vec::<String>::new());
    assert_eq!(contract.assign_freelancer(PAYER_E, "J2".to_string(), PAYEE_F), Ok(()));
    assert_eq!(contract.assign_freelancer(PAYER_E, "J1".to_string(), PAYEE_F), Ok(()));
    // Assignment order, not creation order.
    assert_eq!(
        contract.get_freelancer_escrows(PAYEE_F),
        vec!["J2".to_string(), "J1".to_string()]
    );
    assert_eq!(contract.get_freelancer_escrows(STRANGER), Vec::<String>::new());
    // Indices are append-only: cancellation removes nothing.
    assert_eq!(contract.cancel_escrow(&mut ledger, PAYER_E, "J3".to_string(), 2), Ok(()));
    assert_eq!(
        contract.get_employer_escrows(PAYER_E),
        vec!["J1".to_string(), "J2".to_string(), "J3".to_string()]
    );
}

#[test]
fn queries_return_absent_not_errors() {
    let contract = EscrowContract::new(HOLDING);
    assert!(contract.get_escrow("missing".to_string()).is_none());
    assert!(contract.get_employer_escrows(PAYER_E).is_empty());
    assert!(contract.get_freelancer_escrows(PAYEE_F).is_empty());
}
