use job_escrow::escrow::DisputeResolution;
use job_escrow::escrow::EscrowContract;
use job_escrow::escrow::EscrowError;
use job_escrow::escrow::EscrowStatus;
use job_escrow::ledger::ValueLedger;

const HOLDING: u64 = 1;
const ADMIN: u64 = 2;
const PAYER_E: u64 = 10;
const PAYEE_F: u64 = 11;
const STRANGER: u64 = 12;
const XLM: u64 = 7;

/// A contract and ledger holding one disputed escrow of `amount`.
fn disputed(amount: i128) -> (EscrowContract, ValueLedger) {
    let mut contract = EscrowContract::new(HOLDING);
    contract.initialize(ADMIN);
    let mut ledger = ValueLedger::new();
    ledger.mint(XLM, PAYER_E, 10_000);
    let r = contract.create_escrow(
        &mut ledger,
        PAYER_E,
        "JD".to_string(),
        PAYER_E,
        amount,
        XLM,
        None,
        100,
    );
    assert_eq!(r, Ok(()));
    assert_eq!(contract.assign_freelancer(PAYER_E, "JD".to_string(), PAYEE_F), Ok(()));
    assert_eq!(contract.initiate_dispute(PAYEE_F, "JD".to_string()), Ok(()));
    (contract, ledger)
}

#[test]
fn dispute_requires_assigned_freelancer() {
    let mut contract = EscrowContract::new(HOLDING);
    contract.initialize(ADMIN);
    let mut ledger = ValueLedger::new();
    ledger.mint(XLM, PAYER_E, 1000);
    let r = contract.create_escrow(
        &mut ledger,
        PAYER_E,
        "J2".to_string(),
        PAYER_E,
        500,
        XLM,
        None,
        100,
    );
    assert_eq!(r, Ok(()));
    assert_eq!(
        contract.initiate_dispute(PAYER_E, "J2".to_string()),
        Err(EscrowError::FreelancerNotAssigned)
    );
}

#[test]
fn dispute_open_to_both_parties_only() {
    let mut contract = EscrowContract::new(HOLDING);
    contract.initialize(ADMIN);
    let mut ledger = ValueLedger::new();
    ledger.mint(XLM, PAYER_E, 1000);
    let r = contract.create_escrow(
        &mut ledger,
        PAYER_E,
        "J1".to_string(),
        PAYER_E,
        500,
        XLM,
        None,
        100,
    );
    assert_eq!(r, Ok(()));
    assert_eq!(contract.assign_freelancer(PAYER_E, "J1".to_string(), PAYEE_F), Ok(()));
    assert_eq!(
        contract.initiate_dispute(STRANGER, "J1".to_string()),
        Err(EscrowError::Unauthorized)
    );
    assert_eq!(
        contract.initiate_dispute(ADMIN, "J1".to_string()),
        Err(EscrowError::Unauthorized)
    );
    assert_eq!(contract.initiate_dispute(PAYER_E, "J1".to_string()), Ok(()));
    let rec = contract.get_escrow("J1".to_string()).expect("record must exist");
    assert_eq!(rec.status, EscrowStatus::Disputed);
    // No value moves on initiation.
    assert_eq!(ledger.balance_of(XLM, HOLDING), 500);
    assert_eq!(
        contract.initiate_dispute(PAYEE_F, "J1".to_string()),
        Err(EscrowError::InvalidStatus)
    );
}

#[test]
fn resolve_requires_administrator() {
    let (mut contract, mut ledger) = disputed(1000);
    assert_eq!(
        contract.resolve_dispute(&mut ledger, PAYER_E, "JD".to_string(), DisputeResolution::FavorEmployer),
        Err(EscrowError::Unauthorized)
    );
    assert_eq!(
        contract.resolve_dispute(&mut ledger, PAYEE_F, "JD".to_string(), DisputeResolution::Split(500)),
        Err(EscrowError::Unauthorized)
    );
    let rec = contract.get_escrow("JD".to_string()).expect("record must exist");
    assert_eq!(rec.status, EscrowStatus::Disputed);
}

#[test]
fn resolve_rejects_unknown_or_undisputed() {
    let (mut contract, mut ledger) = disputed(1000);
    assert_eq!(
        contract.resolve_dispute(&mut ledger, ADMIN, "JX".to_string(), DisputeResolution::FavorEmployer),
        Err(EscrowError::EscrowNotFound)
    );
    let r = contract.create_escrow(
        &mut ledger,
        PAYER_E,
        "J5".to_string(),
        PAYER_E,
        100,
        XLM,
        None,
        1,
    );
    assert_eq!(r, Ok(()));
    assert_eq!(
        contract.resolve_dispute(&mut ledger, ADMIN, "J5".to_string(), DisputeResolution::FavorEmployer),
        Err(EscrowError::InvalidStatus)
    );
}

#[test]
fn split_pays_both_sides_exactly() {
    let (mut contract, mut ledger) = disputed(1000);
    let r = contract.resolve_dispute(
        &mut ledger,
        ADMIN,
        "JD".to_string(),
        DisputeResolution::Split(600),
    );
    assert_eq!(r, Ok(()));
    assert_eq!(ledger.balance_of(XLM, PAYER_E), 9_600);
    assert_eq!(ledger.balance_of(XLM, PAYEE_F), 400);
    assert_eq!(ledger.balance_of(XLM, HOLDING), 0);
    let rec = contract.get_escrow("JD".to_string()).expect("record must exist");
    assert_eq!(rec.status, EscrowStatus::Released);
}

#[test]
fn split_rejects_out_of_bounds_share() {
    let (mut contract, mut ledger) = disputed(1000);
    let r = contract.resolve_dispute(
        &mut ledger,
        ADMIN,
        "JD".to_string(),
        DisputeResolution::Split(1200),
    );
    assert_eq!(r, Err(EscrowError::InvalidAmount));
    let r2 = contract.resolve_dispute(
        &mut ledger,
        ADMIN,
        "JD".to_string(),
        DisputeResolution::Split(-1),
    );
    assert_eq!(r2, Err(EscrowError::InvalidAmount));
    // Record and balances unchanged by the rejections.
    let rec = contract.get_escrow("JD".to_string()).expect("record must exist");
    assert_eq!(rec.status, EscrowStatus::Disputed);
    assert_eq!(ledger.balance_of(XLM, HOLDING), 1000);
    assert_eq!(ledger.balance_of(XLM, PAYER_E), 9_000);
    assert_eq!(ledger.balance_of(XLM, PAYEE_F), 0);
}

#[test]
fn split_boundary_shares_allowed() {
    let (mut contract, mut ledger) = disputed(1000);
    // The whole amount to the freelancer: share zero is in bounds.
    let r = contract.resolve_dispute(
        &mut ledger,
        ADMIN,
        "JD".to_string(),
        DisputeResolution::Split(0),
    );
    assert_eq!(r, Ok(()));
    assert_eq!(ledger.balance_of(XLM, PAYER_E), 9_000);
    assert_eq!(ledger.balance_of(XLM, PAYEE_F), 1000);

    let (mut contract2, mut ledger2) = disputed(1000);
    // The whole amount back to the employer, yet the status is Released.
    let r2 = contract2.resolve_dispute(
        &mut ledger2,
        ADMIN,
        "JD".to_string(),
        DisputeResolution::Split(1000),
    );
    assert_eq!(r2, Ok(()));
    assert_eq!(ledger2.balance_of(XLM, PAYER_E), 10_000);
    assert_eq!(ledger2.balance_of(XLM, PAYEE_F), 0);
    let rec = contract2.get_escrow("JD".to_string()).expect("record must exist");
    assert_eq!(rec.status, EscrowStatus::Released);
}

#[test]
fn favor_employer_refunds_and_cancels() {
    let (mut contract, mut ledger) = disputed(1000);
    let r = contract.resolve_dispute(
        &mut ledger,
        ADMIN,
        "JD".to_string(),
        DisputeResolution::FavorEmployer,
    );
    assert_eq!(r, Ok(()));
    assert_eq!(ledger.balance_of(XLM, PAYER_E), 10_000);
    assert_eq!(ledger.balance_of(XLM, PAYEE_F), 0);
    assert_eq!(ledger.balance_of(XLM, HOLDING), 0);
    let rec = contract.get_escrow("JD".to_string()).expect("record must exist");
    assert_eq!(rec.status, EscrowStatus::Cancelled);
    // Terminal now: even the administrator cannot resolve again.
    assert_eq!(
        contract.resolve_dispute(&mut ledger, ADMIN, "JD".to_string(), DisputeResolution::FavorFreelancer),
        Err(EscrowError::InvalidStatus)
    );
}

#[test]
fn favor_freelancer_pays_and_releases() {
    let (mut contract, mut ledger) = disputed(1000);
    let r = contract.resolve_dispute(
        &mut ledger,
        ADMIN,
        "JD".to_string(),
        DisputeResolution::FavorFreelancer,
    );
    assert_eq!(r, Ok(()));
    assert_eq!(ledger.balance_of(XLM, PAYER_E), 9_000);
    assert_eq!(ledger.balance_of(XLM, PAYEE_F), 1000);
    assert_eq!(ledger.balance_of(XLM, HOLDING), 0);
    let rec = contract.get_escrow("JD".to_string()).expect("record must exist");
    assert_eq!(rec.status, EscrowStatus::Released);
}

#[test]
fn value_is_conserved_across_a_full_lifecycle() {
    let (mut contract, mut ledger) = disputed(1000);
    let total_before = ledger.balance_of(XLM, PAYER_E)
        + ledger.balance_of(XLM, PAYEE_F)
        + ledger.balance_of(XLM, HOLDING)
        + ledger.balance_of(XLM, ADMIN);
    let r = contract.resolve_dispute(
        &mut ledger,
        ADMIN,
        "JD".to_string(),
        DisputeResolution::Split(137),
    );
    assert_eq!(r, Ok(()));
    let total_after = ledger.balance_of(XLM, PAYER_E)
        + ledger.balance_of(XLM, PAYEE_F)
        + ledger.balance_of(XLM, HOLDING)
        + ledger.balance_of(XLM, ADMIN);
    assert_eq!(total_before, total_after);
    assert_eq!(total_after, 10_000);
    assert_eq!(ledger.balance_of(XLM, PAYER_E), 9_137);
    assert_eq!(ledger.balance_of(XLM, PAYEE_F), 863);
}
