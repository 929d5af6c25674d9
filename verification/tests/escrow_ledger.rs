use sorosusu::escrow::Account;
use sorosusu::{Escrow, EscrowError, Identity, INACTIVITY_WINDOW};

const DAY: u64 = 86_400;

fn user(n: u128) -> Identity {
    Identity::account(2, n)
}

fn ledger(now: u64) -> Escrow {
    let mut escrow = Escrow::new();
    escrow.initialize(true, Identity::account(0, 1), now).unwrap();
    escrow
}

#[test]
fn the_window_is_seven_days() {
    assert_eq!(INACTIVITY_WINDOW, 7 * DAY);
    assert_eq!(INACTIVITY_WINDOW, 604_800);
}

#[test]
fn a_new_ledger_holds_nothing() {
    let escrow = Escrow::new();
    assert_eq!(escrow.admin(), None);
    assert_eq!(escrow.get_last_active_timestamp(), 0);
    assert_eq!(escrow.get_user_balance(user(1)), 0);
}

#[test]
fn initializing_records_the_administrator_and_the_time() {
    let mut escrow = Escrow::new();
    let admin = Identity::account(0, 1);
    assert_eq!(escrow.initialize(false, admin, 50), Err(EscrowError::Unauthorized));
    assert_eq!(escrow.admin(), None);
    assert_eq!(escrow.get_last_active_timestamp(), 0);
    assert_eq!(escrow.initialize(true, admin, 50), Ok(()));
    assert_eq!(escrow.admin(), Some(admin));
    assert_eq!(escrow.get_last_active_timestamp(), 50);
    let other = Identity::account(0, 2);
    assert_eq!(escrow.initialize(true, other, 60), Ok(()));
    assert_eq!(escrow.admin(), Some(other));
    assert_eq!(escrow.get_last_active_timestamp(), 60);
}

#[test]
fn the_heartbeat_needs_an_administrator_and_an_authorization() {
    let mut escrow = Escrow::new();
    assert_eq!(escrow.admin_action(true, 10), Err(EscrowError::Unauthorized));
    assert_eq!(escrow.get_last_active_timestamp(), 0);
    escrow.initialize(true, Identity::account(0, 1), 100).unwrap();
    assert_eq!(escrow.admin_action(false, 200), Err(EscrowError::Unauthorized));
    assert_eq!(escrow.get_last_active_timestamp(), 100);
    assert_eq!(escrow.admin_action(true, 200), Ok(()));
    assert_eq!(escrow.get_last_active_timestamp(), 200);
}

#[test]
fn deposits_add_up_per_depositor() {
    let mut escrow = ledger(100);
    assert_eq!(escrow.deposit(true, user(1), 30, true), Ok(()));
    assert_eq!(escrow.deposit(true, user(2), 5, true), Ok(()));
    assert_eq!(escrow.deposit(true, user(1), 12, true), Ok(()));
    assert_eq!(escrow.get_user_balance(user(1)), 42);
    assert_eq!(escrow.get_user_balance(user(2)), 5);
    assert_eq!(escrow.get_user_balance(user(3)), 0);
    assert_eq!(escrow.get_last_active_timestamp(), 100);
}

#[test]
fn a_refused_deposit_changes_no_balance() {
    let mut escrow = ledger(100);
    escrow.deposit(true, user(1), 30, true).unwrap();
    assert_eq!(escrow.deposit(false, user(1), 10, true), Err(EscrowError::Unauthorized));
    assert_eq!(escrow.deposit(true, user(1), 0, true), Err(EscrowError::InvalidAmount));
    assert_eq!(escrow.deposit(true, user(1), -4, true), Err(EscrowError::InvalidAmount));
    assert_eq!(escrow.deposit(true, user(1), 10, false), Err(EscrowError::TransferFailed));
    assert_eq!(escrow.deposit(true, user(2), 10, false), Err(EscrowError::TransferFailed));
    assert_eq!(escrow.get_user_balance(user(1)), 30);
    assert_eq!(escrow.get_user_balance(user(2)), 0);
}

#[test]
fn withdrawal_opens_strictly_after_the_window() {
    let mut escrow = ledger(1_000);
    escrow.deposit(true, user(1), 75, true).unwrap();
    assert_eq!(escrow.emergency_withdraw(true, user(1), 999), Err(EscrowError::NotYetEligible));
    assert_eq!(escrow.emergency_withdraw(true, user(1), 1_000), Err(EscrowError::NotYetEligible));
    assert_eq!(
        escrow.emergency_withdraw(true, user(1), 1_000 + 7 * DAY - 1),
        Err(EscrowError::NotYetEligible)
    );
    assert_eq!(
        escrow.emergency_withdraw(true, user(1), 1_000 + 7 * DAY),
        Err(EscrowError::NotYetEligible)
    );
    assert_eq!(escrow.get_user_balance(user(1)), 75);
    assert_eq!(escrow.emergency_withdraw(true, user(1), 1_000 + 7 * DAY + 1), Ok(75));
    assert_eq!(escrow.get_user_balance(user(1)), 0);
    assert_eq!(escrow.emergency_withdraw(true, user(1), 1_000 + 7 * DAY + 1), Ok(0));
    assert_eq!(escrow.get_user_balance(user(1)), 0);
}

#[test]
fn withdrawal_needs_the_depositor() {
    let mut escrow = ledger(0);
    escrow.deposit(true, user(1), 75, true).unwrap();
    assert_eq!(
        escrow.emergency_withdraw(false, user(1), 8 * DAY),
        Err(EscrowError::Unauthorized)
    );
    assert_eq!(escrow.get_user_balance(user(1)), 75);
}

#[test]
fn each_depositor_withdraws_alone() {
    let mut escrow = ledger(0);
    escrow.deposit(true, user(1), 10, true).unwrap();
    escrow.deposit(true, user(2), 20, true).unwrap();
    escrow.deposit(true, user(3), 30, true).unwrap();
    assert_eq!(escrow.emergency_withdraw(true, user(2), 8 * DAY), Ok(20));
    assert_eq!(escrow.get_user_balance(user(1)), 10);
    assert_eq!(escrow.get_user_balance(user(2)), 0);
    assert_eq!(escrow.get_user_balance(user(3)), 30);
    assert_eq!(escrow.emergency_withdraw(true, user(9), 8 * DAY), Ok(0));
    assert_eq!(escrow.emergency_withdraw(true, user(3), 8 * DAY), Ok(30));
    assert_eq!(escrow.emergency_withdraw(true, user(1), 8 * DAY), Ok(10));
    assert_eq!(escrow.get_user_balance(user(1)), 0);
}

#[test]
fn the_heartbeat_closes_the_window_and_a_deposit_does_not() {
    let mut escrow = ledger(0);
    escrow.deposit(true, user(1), 10, true).unwrap();
    escrow.deposit(true, user(1), 5, true).unwrap();
    assert_eq!(escrow.get_last_active_timestamp(), 0);
    escrow.admin_action(true, 6 * DAY).unwrap();
    assert_eq!(
        escrow.emergency_withdraw(true, user(1), 8 * DAY),
        Err(EscrowError::NotYetEligible)
    );
    escrow.deposit(true, user(1), 1, true).unwrap();
    assert_eq!(escrow.emergency_withdraw(true, user(1), 13 * DAY + 1), Ok(16));
}

#[test]
fn a_late_clock_does_not_wrap() {
    let mut escrow = ledger(u64::MAX - 10);
    escrow.deposit(true, user(1), 10, true).unwrap();
    assert_eq!(
        escrow.emergency_withdraw(true, user(1), u64::MAX),
        Err(EscrowError::NotYetEligible)
    );
    assert_eq!(escrow.emergency_withdraw(true, user(1), 5), Err(EscrowError::NotYetEligible));
}

#[test]
fn funds_can_be_deposited_again_after_a_withdrawal() {
    let mut escrow = ledger(0);
    escrow.deposit(true, user(1), 10, true).unwrap();
    assert_eq!(escrow.emergency_withdraw(true, user(1), 8 * DAY), Ok(10));
    escrow.deposit(true, user(1), 4, true).unwrap();
    assert_eq!(escrow.get_user_balance(user(1)), 4);
}

#[test]
fn a_ledger_is_restored_from_sound_accounts_only() {
    let admin = Some(Identity::account(0, 1));
    let accounts = vec![
        Account { owner: user(1), balance: 10 },
        Account { owner: user(2), balance: 20 },
    ];
    let mut escrow = Escrow::restore(admin, 500, accounts).unwrap();
    assert_eq!(escrow.admin(), admin);
    assert_eq!(escrow.get_last_active_timestamp(), 500);
    assert_eq!(escrow.get_user_balance(user(1)), 10);
    assert_eq!(escrow.get_user_balance(user(2)), 20);
    assert_eq!(escrow.get_user_balance(user(3)), 0);
    assert_eq!(escrow.emergency_withdraw(true, user(2), 500 + 7 * DAY + 1), Ok(20));

    let twice = vec![
        Account { owner: user(1), balance: 10 },
        Account { owner: user(2), balance: 20 },
        Account { owner: user(1), balance: 30 },
    ];
    assert!(Escrow::restore(admin, 500, twice).is_none());
    let empty = vec![Account { owner: user(1), balance: 0 }];
    assert!(Escrow::restore(admin, 500, empty).is_none());
    let owing = vec![Account { owner: user(1), balance: -1 }];
    assert!(Escrow::restore(None, 0, owing).is_none());
    assert!(Escrow::restore(None, 0, vec![]).is_some());
}
