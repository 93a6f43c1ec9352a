use amm::{
    Account, AssetMetadata, CallbackKind, Contract, InitState, Ledger, LedgerParts,
    PendingCallback, PoolParts,
};

fn id(name: &str) -> String {
    name.to_string()
}

fn account(name: &str, balance: u128) -> Account {
    Account { id: id(name), balance }
}

fn ledger_parts(accounts: Vec<Account>, total_supply: u128) -> LedgerParts {
    LedgerParts { accounts, total_supply }
}

fn fetch(request_id: u64, asset: &str) -> PendingCallback {
    PendingCallback {
        request_id,
        kind: CallbackKind::MetadataFetch,
        subject_asset: id(asset),
        subject_account: id("pool.near"),
        amount: 0,
    }
}

fn withdrawal(request_id: u64, asset: &str) -> PendingCallback {
    PendingCallback {
        request_id,
        kind: CallbackKind::WithdrawTransfer,
        subject_asset: id(asset),
        subject_account: id("alice.near"),
        amount: 5,
    }
}

/// The parts of a sound pool that awaits the metadata of its second asset.
fn parts() -> PoolParts {
    PoolParts {
        owner_id: id("owner.near"),
        pool_id: id("pool.near"),
        token_a_contract: id("a.near"),
        token_b_contract: id("b.near"),
        token_a: ledger_parts(vec![account("owner.near", 10), account("pool.near", 90)], 100),
        token_b: ledger_parts(vec![account("owner.near", 0)], 0),
        token_lp: ledger_parts(vec![account("owner.near", 7)], 7),
        token_a_meta: Some(AssetMetadata { decimals: 6 }),
        token_b_meta: None,
        token_ratio: (90, 0),
        pending: vec![fetch(1, "b.near"), withdrawal(4, "a.near")],
        next_request_id: 5,
    }
}

#[test]
fn ledger_from_parts_keeps_accounts_and_supply() {
    let ledger =
        Ledger::from_parts(ledger_parts(vec![account("a", 1), account("b", 2)], 9)).unwrap();
    assert_eq!(ledger.balance_of(&id("a")), Some(1));
    assert_eq!(ledger.balance_of(&id("b")), Some(2));
    assert_eq!(ledger.balance_of(&id("c")), None);
    assert_eq!(ledger.total_supply(), 9);
    let parts = ledger.into_parts();
    assert_eq!(parts.accounts.len(), 2);
    assert_eq!(parts.accounts[0].id, "a");
    assert_eq!(parts.accounts[0].balance, 1);
    assert_eq!(parts.accounts[1].id, "b");
    assert_eq!(parts.accounts[1].balance, 2);
    assert_eq!(parts.total_supply, 9);
}

#[test]
fn ledger_from_parts_refuses_an_account_entered_twice() {
    assert!(Ledger::from_parts(ledger_parts(vec![account("a", 1), account("a", 2)], 3)).is_none());
    assert!(Ledger::from_parts(ledger_parts(
        vec![account("a", 1), account("b", 2), account("c", 0), account("b", 2)],
        3
    ))
    .is_none());
    assert!(Ledger::from_parts(ledger_parts(vec![], 0)).is_some());
}

#[test]
fn pool_from_parts_gives_the_same_pool() {
    let pool = Contract::from_parts(parts()).unwrap();
    assert_eq!(pool.owner_id(), "owner.near");
    assert_eq!(pool.pool_id(), "pool.near");
    assert_eq!(pool.token_a_contract(), "a.near");
    assert_eq!(pool.token_b_contract(), "b.near");
    assert_eq!(pool.token_ratio(), (90, 0));
    assert_eq!(pool.init_state(), InitState::AwaitingMetadata { asset_a: false, asset_b: true });
    assert_eq!(pool.metadata(&id("a.near")), Ok(AssetMetadata { decimals: 6 }));
    assert_eq!(pool.ft_balance_of(&id("a.near"), &id("pool.near")), Ok(90));
    assert_eq!(pool.ft_balance_of(&id("pool.near"), &id("owner.near")), Ok(7));
    assert_eq!(pool.pending().len(), 2);
    let back = pool.into_parts();
    assert_eq!(back.next_request_id, 5);
    assert_eq!(back.pending[1].request_id, 4);
    assert_eq!(back.token_a.accounts[1].balance, 90);
    assert_eq!(back.token_a.total_supply, 100);
    assert_eq!(back.token_a_meta, Some(AssetMetadata { decimals: 6 }));
    assert_eq!(back.token_b_meta, None);
}

#[test]
fn pool_taken_apart_and_put_together_goes_on() {
    let mut pool = Contract::new(id("owner.near"), id("a.near"), id("b.near"), id("pool.near"))
        .unwrap();
    assert_eq!(pool.withdraw_tokens(&id("alice.near"), &id("a.near"), 3), Ok(2));
    let mut pool = Contract::from_parts(pool.into_parts()).unwrap();
    assert_eq!(pool.withdraw_tokens(&id("alice.near"), &id("a.near"), 3), Ok(3));
    assert_eq!(
        pool.on_ft_metadata(&id("pool.near"), &id("a.near"), AssetMetadata { decimals: 2 }),
        Ok(())
    );
    let pool = Contract::from_parts(pool.into_parts()).unwrap();
    assert_eq!(pool.init_state(), InitState::AwaitingMetadata { asset_a: false, asset_b: true });
    assert_eq!(pool.pending().len(), 3);
}

#[test]
fn pool_from_parts_refuses_unsound_parts() {
    let mut equal_assets = parts();
    equal_assets.token_b_contract = id("a.near");
    assert!(Contract::from_parts(equal_assets).is_none());

    let mut number_not_spent = parts();
    number_not_spent.next_request_id = 4;
    assert!(Contract::from_parts(number_not_spent).is_none());

    let mut number_twice = parts();
    number_twice.pending.push(withdrawal(1, "b.near"));
    assert!(Contract::from_parts(number_twice).is_none());

    let mut fetch_twice = parts();
    fetch_twice.pending.push(fetch(2, "b.near"));
    assert!(Contract::from_parts(fetch_twice).is_none());

    let mut fetch_after_answer = parts();
    fetch_after_answer.pending.push(fetch(2, "a.near"));
    assert!(Contract::from_parts(fetch_after_answer).is_none());

    let mut metadata_never_asked = parts();
    metadata_never_asked.pending.remove(0);
    assert!(Contract::from_parts(metadata_never_asked).is_none());

    let mut account_twice = parts();
    account_twice.token_lp.accounts.push(account("owner.near", 1));
    assert!(Contract::from_parts(account_twice).is_none());

    assert!(Contract::from_parts(parts()).is_some());
}
