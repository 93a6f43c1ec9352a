use amm::{init_token, AmmError, Ledger};

fn id(name: &str) -> String {
    name.to_string()
}

fn funded() -> Ledger {
    let mut ledger = init_token(&id("alice"));
    assert!(ledger.register_account(&id("bob")));
    assert_eq!(ledger.deposit(&id("alice"), 100), Ok(()));
    ledger
}

#[test]
fn init_token_registers_the_account_with_nothing() {
    let ledger = init_token(&id("alice"));
    assert!(ledger.is_registered(&id("alice")));
    assert!(!ledger.is_registered(&id("bob")));
    assert_eq!(ledger.balance_of(&id("alice")), Some(0));
    assert_eq!(ledger.balance_of(&id("bob")), None);
    assert_eq!(ledger.total_supply(), 0);
}

#[test]
fn new_ledger_is_empty() {
    let ledger = Ledger::new();
    assert!(!ledger.is_registered(&id("alice")));
    assert_eq!(ledger.ft_balance_of(&id("alice")), 0);
    assert_eq!(ledger.total_supply(), 0);
}

#[test]
fn registering_twice_keeps_the_balance() {
    let mut ledger = funded();
    assert!(!ledger.register_account(&id("alice")));
    assert_eq!(ledger.balance_of(&id("alice")), Some(100));
    assert!(ledger.register_account(&id("carol")));
    assert_eq!(ledger.balance_of(&id("carol")), Some(0));
}

#[test]
fn deposit_credits_account_and_supply() {
    let mut ledger = funded();
    assert_eq!(ledger.deposit(&id("bob"), 7), Ok(()));
    assert_eq!(ledger.balance_of(&id("bob")), Some(7));
    assert_eq!(ledger.balance_of(&id("alice")), Some(100));
    assert_eq!(ledger.total_supply(), 107);
}

#[test]
fn ledger_deposit_refusals() {
    let mut ledger = funded();
    assert_eq!(ledger.deposit(&id("nobody"), 1), Err(AmmError::AccountNotRegistered));
    assert_eq!(ledger.deposit(&id("alice"), u128::MAX), Err(AmmError::ArithmeticOverflow));
    // the balance would fit, the supply would not
    assert_eq!(ledger.deposit(&id("bob"), u128::MAX), Err(AmmError::ArithmeticOverflow));
    assert_eq!(ledger.check_deposit(&id("bob"), u128::MAX), Err(AmmError::ArithmeticOverflow));
    assert_eq!(ledger.check_deposit(&id("bob"), u128::MAX - 100), Ok(()));
    assert_eq!(ledger.balance_of(&id("alice")), Some(100));
    assert_eq!(ledger.balance_of(&id("bob")), Some(0));
    assert_eq!(ledger.total_supply(), 100);
}

#[test]
fn withdraw_debits_account_and_supply() {
    let mut ledger = funded();
    assert_eq!(ledger.withdraw(&id("alice"), 30), Ok(()));
    assert_eq!(ledger.balance_of(&id("alice")), Some(70));
    assert_eq!(ledger.total_supply(), 70);
    assert_eq!(ledger.withdraw(&id("alice"), 70), Ok(()));
    assert_eq!(ledger.balance_of(&id("alice")), Some(0));
    assert_eq!(ledger.total_supply(), 0);
}

#[test]
fn ledger_withdraw_refusals() {
    let mut ledger = funded();
    assert_eq!(ledger.withdraw(&id("nobody"), 1), Err(AmmError::AccountNotRegistered));
    assert_eq!(ledger.withdraw(&id("alice"), 101), Err(AmmError::InsufficientBalance));
    assert_eq!(ledger.check_withdraw(&id("bob"), 1), Err(AmmError::InsufficientBalance));
    assert_eq!(ledger.check_withdraw(&id("alice"), 100), Ok(()));
    assert_eq!(ledger.balance_of(&id("alice")), Some(100));
    assert_eq!(ledger.total_supply(), 100);
}

#[test]
fn transfer_moves_between_accounts() {
    let mut ledger = funded();
    assert_eq!(ledger.transfer(&id("alice"), &id("bob"), 40), Ok(()));
    assert_eq!(ledger.balance_of(&id("alice")), Some(60));
    assert_eq!(ledger.balance_of(&id("bob")), Some(40));
    assert_eq!(ledger.total_supply(), 100);
}

#[test]
fn transfer_refusals_change_nothing() {
    let mut ledger = funded();
    assert_eq!(ledger.transfer(&id("alice"), &id("alice"), 1), Err(AmmError::SameAccount));
    assert_eq!(ledger.transfer(&id("alice"), &id("bob"), 0), Err(AmmError::ZeroAmount));
    assert_eq!(ledger.transfer(&id("nobody"), &id("bob"), 1), Err(AmmError::AccountNotRegistered));
    assert_eq!(ledger.transfer(&id("alice"), &id("nobody"), 1), Err(AmmError::AccountNotRegistered));
    assert_eq!(ledger.transfer(&id("alice"), &id("bob"), 101), Err(AmmError::InsufficientBalance));
    assert_eq!(ledger.check_transfer(&id("bob"), &id("alice"), 1), Err(AmmError::InsufficientBalance));
    assert_eq!(ledger.check_transfer(&id("alice"), &id("bob"), 100), Ok(()));
    assert_eq!(ledger.balance_of(&id("alice")), Some(100));
    assert_eq!(ledger.balance_of(&id("bob")), Some(0));
    assert_eq!(ledger.total_supply(), 100);
}

#[test]
fn unregister_burns_the_balance() {
    let mut ledger = funded();
    assert_eq!(ledger.unregister(&id("nobody"), false), Ok(None));
    assert_eq!(ledger.unregister(&id("bob"), false), Ok(Some(0)));
    assert!(!ledger.is_registered(&id("bob")));
    assert_eq!(ledger.unregister(&id("alice"), false), Err(AmmError::PositiveBalance));
    assert_eq!(ledger.balance_of(&id("alice")), Some(100));
    assert_eq!(ledger.unregister(&id("alice"), true), Ok(Some(100)));
    assert!(!ledger.is_registered(&id("alice")));
    assert_eq!(ledger.total_supply(), 0);
}
