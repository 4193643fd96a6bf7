use nesse_bank::account::Account;
use nesse_bank::account::AccountId;
use nesse_bank::account::AccountState;
use nesse_bank::bank::Bank;
use nesse_bank::money::Money;
use nesse_bank::tx::TxId;
use nesse_bank::tx::incoming::IncomingTx;
use nesse_bank::util::historic_run_small;
use nesse_bank::util::state_rows;

fn deposit(tx: u32, acct: u16, amount: &str) -> IncomingTx {
    IncomingTx::deposit(TxId(tx), AccountId(acct), amount).unwrap()
}

fn withdrawal(tx: u32, acct: u16, amount: &str) -> IncomingTx {
    IncomingTx::withdrawal(TxId(tx), AccountId(acct), amount).unwrap()
}

fn account_of(accounts: &[(AccountId, Account)], id: u16) -> Account {
    accounts
        .iter()
        .find(|(a, _)| *a == AccountId(id))
        .map(|(_, acct)| *acct)
        .expect("account absent")
}

#[test]
fn sample_run_final_balances() {
    let mut bank = Bank::default();
    bank.apply_tx(deposit(1, 1, "5")).unwrap();
    bank.apply_tx(deposit(2, 2, "2")).unwrap();
    bank.apply_tx(deposit(3, 1, "2")).unwrap();
    bank.apply_tx(withdrawal(4, 1, "1.5")).unwrap();
    bank.apply_tx(withdrawal(5, 2, "3")).unwrap();
    let accounts = bank.into_accounts();
    assert_eq!(accounts.len(), 2);
    let a1 = account_of(&accounts, 1);
    assert_eq!(a1.balance, Money::from_units(55_000));
    assert_eq!(a1.held, Money::from_units(0));
    assert_eq!(a1.state, AccountState::Active);
    let a2 = account_of(&accounts, 2);
    assert_eq!(a2.balance, Money::from_units(20_000));
    assert_eq!(a2.held, Money::from_units(0));
    assert_eq!(a2.state, AccountState::Active);
}

#[test]
fn sample_run_report_rows() {
    let input = b"type, client, tx, amount\n\
        deposit, 1, 1, 5\n\
        deposit, 2, 2, 2\n\
        deposit, 1, 3, 2\n\
        withdrawal, 1, 4, 1.5\n\
        withdrawal, 2, 5, 3\n";
    let bank = historic_run_small(input).unwrap();
    let rows = state_rows(&bank.into_accounts());
    assert_eq!(
        rows,
        vec![
            vec!["1".to_string(), "5.5".to_string(), "0".to_string(), "5.5".to_string(), "false".to_string()],
            vec!["2".to_string(), "2".to_string(), "0".to_string(), "2".to_string(), "false".to_string()],
        ]
    );
}

#[test]
fn chargeback_scenario_freezes_account() {
    let input = b"type, client, tx, amount\n\
        deposit, 1, 1, 5\n\
        dispute, 1, 1\n\
        chargeback, 1, 1\n";
    let bank = historic_run_small(input).unwrap();
    let rows = state_rows(&bank.into_accounts());
    assert_eq!(
        rows,
        vec![vec![
            "1".to_string(),
            "0".to_string(),
            "0".to_string(),
            "0".to_string(),
            "true".to_string()
        ]]
    );
}

#[test]
fn dispute_resolve_round_trip() {
    let mut bank = Bank::default();
    bank.apply_tx(deposit(1, 1, "5")).unwrap();
    bank.apply_tx(deposit(2, 1, "2")).unwrap();
    bank.apply_tx(IncomingTx::dispute(TxId(2), AccountId(1))).unwrap();
    bank.apply_tx(IncomingTx::resolve(TxId(2), AccountId(1))).unwrap();
    let accounts = bank.into_accounts();
    let a1 = account_of(&accounts, 1);
    assert_eq!(a1.balance, Money::from_units(70_000));
    assert_eq!(a1.held, Money::from_units(0));
    assert_eq!(a1.state, AccountState::Active);
}

#[test]
fn dispute_moves_funds_to_held() {
    let mut bank = Bank::default();
    bank.apply_tx(deposit(1, 1, "5")).unwrap();
    bank.apply_tx(deposit(2, 1, "2")).unwrap();
    bank.apply_tx(IncomingTx::dispute(TxId(2), AccountId(1))).unwrap();
    let accounts = bank.into_accounts();
    let a1 = account_of(&accounts, 1);
    assert_eq!(a1.balance, Money::from_units(50_000));
    assert_eq!(a1.held, Money::from_units(20_000));
    assert_eq!(a1.state, AccountState::Active);
}

#[test]
fn freeze_blocks_new_funds_but_not_unwind() {
    let mut bank = Bank::default();
    bank.apply_tx(deposit(1, 1, "5")).unwrap();
    bank.apply_tx(deposit(2, 1, "3")).unwrap();
    bank.apply_tx(IncomingTx::dispute(TxId(2), AccountId(1))).unwrap();
    bank.apply_tx(IncomingTx::chargeback(TxId(2), AccountId(1))).unwrap();
    // frozen now; fresh funds movement must be a no-op
    bank.apply_tx(deposit(3, 1, "7")).unwrap();
    bank.apply_tx(withdrawal(4, 1, "1")).unwrap();
    // a dispute of the still-eligible first deposit must still apply
    bank.apply_tx(IncomingTx::dispute(TxId(1), AccountId(1))).unwrap();
    bank.apply_tx(IncomingTx::resolve(TxId(1), AccountId(1))).unwrap();
    let accounts = bank.into_accounts();
    let a1 = account_of(&accounts, 1);
    assert_eq!(a1.balance, Money::from_units(50_000));
    assert_eq!(a1.held, Money::from_units(0));
    assert_eq!(a1.state, AccountState::Frozen);
}

#[test]
fn boundary_withdrawal_zeroes_balance() {
    let mut bank = Bank::default();
    bank.apply_tx(deposit(1, 1, "5")).unwrap();
    bank.apply_tx(withdrawal(2, 1, "5")).unwrap();
    let accounts = bank.into_accounts();
    let a1 = account_of(&accounts, 1);
    assert_eq!(a1.balance, Money::from_units(0));
    assert_eq!(a1.state, AccountState::Active);
}

#[test]
fn insufficient_funds_withdrawal_declines() {
    let mut bank = Bank::default();
    bank.apply_tx(deposit(1, 1, "2")).unwrap();
    bank.apply_tx(withdrawal(2, 1, "3")).unwrap();
    let accounts = bank.into_accounts();
    let a1 = account_of(&accounts, 1);
    assert_eq!(a1.balance, Money::from_units(20_000));
}

#[test]
fn mismatched_dispute_lifecycle_is_ignored() {
    let mut bank = Bank::default();
    bank.apply_tx(deposit(1, 1, "5")).unwrap();
    // resolve and chargeback without a dispute, and a dispute of an
    // unknown transaction, all silently decline
    bank.apply_tx(IncomingTx::resolve(TxId(1), AccountId(1))).unwrap();
    bank.apply_tx(IncomingTx::chargeback(TxId(1), AccountId(1))).unwrap();
    bank.apply_tx(IncomingTx::dispute(TxId(9), AccountId(1))).unwrap();
    let accounts = bank.into_accounts();
    let a1 = account_of(&accounts, 1);
    assert_eq!(a1.balance, Money::from_units(50_000));
    assert_eq!(a1.held, Money::from_units(0));
    assert_eq!(a1.state, AccountState::Active);
}

#[test]
fn withdrawal_dispute_can_drive_balance_negative() {
    let mut bank = Bank::default();
    bank.apply_tx(deposit(1, 1, "5")).unwrap();
    bank.apply_tx(withdrawal(2, 1, "5")).unwrap();
    bank.apply_tx(IncomingTx::dispute(TxId(2), AccountId(1))).unwrap();
    let accounts = bank.into_accounts();
    let a1 = account_of(&accounts, 1);
    // disputing the withdrawal moves its negative effect out of the balance
    assert_eq!(a1.balance, Money::from_units(50_000));
    assert_eq!(a1.held, Money::from_units(-50_000));
}
