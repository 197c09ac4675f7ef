use bank_ledger::account::{Account, LedgerError};
use bank_ledger::amount::parse_amount;
use bank_ledger::ledger::{
    create_account, create_account_with_pin, delete_account, deposit, fetch_account,
    max_account_id, show_balance, transfer, withdraw, Ledger,
};
use bank_ledger::pin::{generate_pin, pin_from_digits, pin_matches};

fn row(id: u64, number: &str, balance: u64, pin: &str) -> Account {
    Account { id, account_number: number.to_string(), balance, pin: pin.to_string() }
}

#[test]
fn created_account_is_correct_fetched_from_db() {
    let mut ledger = Ledger::new();
    let account_number = "4000001234567899";
    create_account(&mut ledger, account_number, 100).unwrap();
    let account = fetch_account(&ledger, account_number).unwrap();

    assert_eq!(account.account_number, account_number.to_string());
    assert_eq!(account.balance, 100);
}

#[test]
fn transferred_balance_is_correct() {
    let mut ledger = Ledger::new();
    let origin_account_number = "4000001111111111";
    let target_account_number = "4000002222222222";

    create_account(&mut ledger, origin_account_number, 10000).unwrap();
    create_account(&mut ledger, target_account_number, 0).unwrap();

    let origin_account = fetch_account(&ledger, origin_account_number).unwrap();
    let target_account = fetch_account(&ledger, target_account_number).unwrap();

    let pin = origin_account.pin.clone();
    transfer(&mut ledger, "10000", &pin, &origin_account.account_number, &target_account.account_number)
        .unwrap();

    let origin_account = fetch_account(&ledger, &origin_account.account_number).unwrap();
    let target_account = fetch_account(&ledger, &target_account.account_number).unwrap();

    assert_eq!(origin_account.balance, 0);
    assert_eq!(target_account.balance, 10000);
}

#[test]
fn created_account_has_six_digit_pin() {
    let mut ledger = Ledger::new();
    let created = create_account(&mut ledger, "111", 100).unwrap();
    let fetched = fetch_account(&ledger, "111").unwrap();
    assert_eq!(fetched.balance, 100);
    assert_eq!(fetched.pin, created.pin);
    assert_eq!(fetched.pin.len(), 6);
    assert!(fetched.pin.chars().all(|c| c.is_ascii_digit()));
}

#[test]
fn generated_pins_are_six_digits() {
    for _ in 0..20 {
        let pin = generate_pin();
        assert_eq!(pin.len(), 6);
        assert!(pin.chars().all(|c| c.is_ascii_digit()));
    }
}

#[test]
fn pin_text_follows_digits() {
    assert_eq!(pin_from_digits(&vec![0, 4, 9, 1, 2, 3]), "049123");
    assert_eq!(pin_from_digits(&vec![]), "");
}

#[test]
fn pin_check_is_exact() {
    let stored = "123456".to_string();
    assert!(pin_matches(&stored, "123456"));
    assert!(!pin_matches(&stored, "123457"));
    assert!(!pin_matches(&stored, "12345"));
    assert!(!pin_matches(&stored, ""));
}

#[test]
fn deposit_adds_to_balance() {
    let mut ledger = Ledger::new();
    create_account_with_pin(&mut ledger, "222", "123456".to_string(), 0).unwrap();
    let after = deposit(&mut ledger, "50", "123456", "222").unwrap();
    assert_eq!(after.balance, 50);
    assert_eq!(show_balance(&ledger, "222"), Ok(50));
}

#[test]
fn withdraw_more_than_balance_is_refused() {
    let mut ledger = Ledger::new();
    create_account_with_pin(&mut ledger, "333", "123456".to_string(), 10).unwrap();
    let r = withdraw(&mut ledger, "20", "123456", "333");
    assert_eq!(r.unwrap_err(), LedgerError::InsufficientFunds);
    assert_eq!(show_balance(&ledger, "333"), Ok(10));
}

#[test]
fn withdraw_takes_from_balance() {
    let mut ledger = Ledger::new();
    create_account_with_pin(&mut ledger, "334", "123456".to_string(), 10).unwrap();
    let after = withdraw(&mut ledger, "10", "123456", "334").unwrap();
    assert_eq!(after.balance, 0);
}

#[test]
fn transfer_to_same_account_is_refused() {
    let mut ledger = Ledger::new();
    create_account_with_pin(&mut ledger, "444", "123456".to_string(), 10).unwrap();
    assert_eq!(transfer(&mut ledger, "5", "123456", "444", "444").unwrap_err(), LedgerError::SameAccount);
    assert_eq!(transfer(&mut ledger, "x", "000000", "444", "444").unwrap_err(), LedgerError::SameAccount);
    assert_eq!(transfer(&mut ledger, "1", "1", "nowhere", "nowhere").unwrap_err(), LedgerError::SameAccount);
    assert_eq!(show_balance(&ledger, "444"), Ok(10));
}

#[test]
fn wrong_pin_changes_nothing() {
    let mut ledger = Ledger::new();
    create_account_with_pin(&mut ledger, "555", "111111".to_string(), 40).unwrap();
    create_account_with_pin(&mut ledger, "556", "222222".to_string(), 5).unwrap();
    assert_eq!(deposit(&mut ledger, "10", "999999", "555").unwrap_err(), LedgerError::WrongPin);
    assert_eq!(withdraw(&mut ledger, "10", "999999", "555").unwrap_err(), LedgerError::WrongPin);
    assert_eq!(transfer(&mut ledger, "10", "222222", "555", "556").unwrap_err(), LedgerError::WrongPin);
    assert_eq!(delete_account(&mut ledger, "555", "999999").unwrap_err(), LedgerError::WrongPin);
    assert_eq!(show_balance(&ledger, "555"), Ok(40));
    assert_eq!(show_balance(&ledger, "556"), Ok(5));
}

#[test]
fn failed_operations_change_nothing() {
    let mut ledger = Ledger::new();
    create_account_with_pin(&mut ledger, "660", "111111".to_string(), 30).unwrap();
    create_account_with_pin(&mut ledger, "661", "222222".to_string(), 7).unwrap();
    assert_eq!(deposit(&mut ledger, "ten", "111111", "660").unwrap_err(), LedgerError::InvalidAmount);
    assert_eq!(withdraw(&mut ledger, "-3", "111111", "660").unwrap_err(), LedgerError::InvalidAmount);
    assert_eq!(withdraw(&mut ledger, "3", "111111", "missing").unwrap_err(), LedgerError::NotFound);
    assert_eq!(transfer(&mut ledger, "31", "111111", "660", "661").unwrap_err(), LedgerError::InsufficientFunds);
    assert_eq!(transfer(&mut ledger, "1", "111111", "660", "missing").unwrap_err(), LedgerError::NotFound);
    assert_eq!(transfer(&mut ledger, "", "111111", "660", "661").unwrap_err(), LedgerError::InvalidAmount);
    assert_eq!(show_balance(&ledger, "660"), Ok(30));
    assert_eq!(show_balance(&ledger, "661"), Ok(7));
}

#[test]
fn transfer_keeps_total() {
    let mut ledger = Ledger::new();
    create_account_with_pin(&mut ledger, "770", "111111".to_string(), 300).unwrap();
    create_account_with_pin(&mut ledger, "771", "222222".to_string(), 45).unwrap();
    let (origin, target) = transfer(&mut ledger, "120", "111111", "770", "771").unwrap();
    assert_eq!(origin.balance, 180);
    assert_eq!(target.balance, 165);
    assert_eq!(origin.balance + target.balance, 345);
}

#[test]
fn overflowing_deposit_is_refused() {
    let mut ledger = Ledger::new();
    create_account_with_pin(&mut ledger, "880", "111111".to_string(), u64::MAX - 1).unwrap();
    assert_eq!(deposit(&mut ledger, "2", "111111", "880").unwrap_err(), LedgerError::Overflow);
    assert_eq!(deposit(&mut ledger, "1", "111111", "880").unwrap().balance, u64::MAX);
}

#[test]
fn identifiers_increase_and_are_not_reused() {
    let mut ledger = Ledger::new();
    let a = create_account_with_pin(&mut ledger, "a", "111111".to_string(), 0).unwrap();
    let b = create_account_with_pin(&mut ledger, "b", "111111".to_string(), 0).unwrap();
    assert_eq!(a.id, 1);
    assert_eq!(b.id, 2);
    delete_account(&mut ledger, "b", "111111").unwrap();
    assert_eq!(fetch_account(&ledger, "b").unwrap_err(), LedgerError::NotFound);
    let c = create_account_with_pin(&mut ledger, "c", "111111".to_string(), 0).unwrap();
    assert_eq!(c.id, 3);
    assert_eq!(ledger.next_id(), 4);
}

#[test]
fn duplicate_account_number_is_refused() {
    let mut ledger = Ledger::new();
    create_account_with_pin(&mut ledger, "990", "111111".to_string(), 1).unwrap();
    let r = create_account_with_pin(&mut ledger, "990", "222222".to_string(), 2);
    assert_eq!(r.unwrap_err(), LedgerError::DuplicateAccount);
    assert_eq!(ledger.accounts().len(), 1);
}

#[test]
fn missing_account_is_not_found() {
    let ledger = Ledger::new();
    assert_eq!(show_balance(&ledger, "none"), Err(LedgerError::NotFound));
    assert_eq!(fetch_account(&ledger, "none").unwrap_err(), LedgerError::NotFound);
}

#[test]
fn amounts_parse_as_unsigned_integers() {
    assert_eq!(parse_amount("0"), Ok(0));
    assert_eq!(parse_amount("10000"), Ok(10000));
    assert_eq!(parse_amount("+7"), Ok(7));
    assert_eq!(parse_amount("007"), Ok(7));
    assert_eq!(parse_amount("18446744073709551615"), Ok(u64::MAX));
    assert_eq!(parse_amount("18446744073709551616"), Err(LedgerError::InvalidAmount));
    assert_eq!(parse_amount(""), Err(LedgerError::InvalidAmount));
    assert_eq!(parse_amount("+"), Err(LedgerError::InvalidAmount));
    assert_eq!(parse_amount("-1"), Err(LedgerError::InvalidAmount));
    assert_eq!(parse_amount("12a"), Err(LedgerError::InvalidAmount));
    assert_eq!(parse_amount(" 1"), Err(LedgerError::InvalidAmount));
    assert_eq!(parse_amount("\u{663}"), Err(LedgerError::InvalidAmount));
}

#[test]
fn max_id_of_rows() {
    assert_eq!(max_account_id(&vec![]), 0);
    let rows = vec![row(3, "x", 0, "111111"), row(9, "y", 0, "111111"), row(4, "z", 0, "111111")];
    assert_eq!(max_account_id(&rows), 9);
}

#[test]
fn ledger_is_rebuilt_from_rows() {
    let rows = vec![row(3, "x", 5, "111111"), row(9, "y", 6, "222222")];
    let ledger = Ledger::from_rows(rows, 0).unwrap();
    assert_eq!(ledger.next_id(), 10);
    assert_eq!(show_balance(&ledger, "y"), Ok(6));
    let ledger = Ledger::from_rows(vec![row(3, "x", 5, "111111")], 12).unwrap();
    assert_eq!(ledger.next_id(), 12);
    let empty = Ledger::from_rows(vec![], 0).unwrap();
    assert_eq!(empty.next_id(), 1);
}

#[test]
fn malformed_rows_are_refused() {
    let same_id = vec![row(3, "x", 5, "111111"), row(3, "y", 6, "222222")];
    assert_eq!(Ledger::from_rows(same_id, 0).err(), Some(LedgerError::Storage));
    let same_number = vec![row(3, "x", 5, "111111"), row(4, "x", 6, "222222")];
    assert_eq!(Ledger::from_rows(same_number, 0).err(), Some(LedgerError::Storage));
    let zero_id = vec![row(0, "x", 5, "111111")];
    assert_eq!(Ledger::from_rows(zero_id, 0).err(), Some(LedgerError::Storage));
}
