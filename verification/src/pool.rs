//! The pool itself: two asset ledgers, the share ledger, the assets'
//! metadata and the requests in flight, with the operations on them.
//!
//! The pool reads no clock and no environment. Who calls, and under which
//! account the pool itself runs, is handed in.

use vstd::prelude::*;
use crate::callbacks::{
    fetch_at, fetch_index, find_fetch, find_withdraw, lemma_push_keeps_fetches,
    lemma_remove_keeps_fetches, lemma_remove_keeps_order, pending_view, requests_in_order,
    withdraw_at, withdraw_index, CallbackKind, InitState, PendingCallback, TransferOutcome,
};
use crate::errors::AmmError;
use crate::ledger::{ids_distinct, init_token, Ledger, LedgerParts, LedgerView};
use crate::liquidity::{check_proportion, liquidity_share, proportional, withdrawal_payout};
use crate::model::{defund, fund, trade, withdraw_request, AssetMetadata, InfoView, PoolView};
use crate::pricing::{lemma_quote_within_reserve, quote_swap};

verus! {

/// What the pool says of itself.
pub struct ContractInfo {
    pub owner_id: String,
    pub token_a_contract: String,
    pub token_b_contract: String,
    pub token_a_meta: AssetMetadata,
    pub token_b_meta: AssetMetadata,
    pub token_ratio: (u128, u128),
}

impl View for ContractInfo {
    type V = InfoView;

    open spec fn view(&self) -> InfoView {
        InfoView {
            owner: self.owner_id@,
            asset_a: self.token_a_contract@,
            asset_b: self.token_b_contract@,
            meta_a: self.token_a_meta,
            meta_b: self.token_b_meta,
            ratio: (self.token_ratio.0 as nat, self.token_ratio.1 as nat),
        }
    }
}

/// A pool taken apart, as it is stored between calls.
pub struct PoolParts {
    pub owner_id: String,
    pub pool_id: String,
    pub token_a_contract: String,
    pub token_b_contract: String,
    pub token_a: LedgerParts,
    pub token_b: LedgerParts,
    pub token_lp: LedgerParts,
    pub token_a_meta: Option<AssetMetadata>,
    pub token_b_meta: Option<AssetMetadata>,
    pub token_ratio: (u128, u128),
    pub pending: Vec<PendingCallback>,
    pub next_request_id: u64,
}

impl View for PoolParts {
    type V = PoolView;

    open spec fn view(&self) -> PoolView {
        PoolView {
            owner: self.owner_id@,
            pool: self.pool_id@,
            asset_a: self.token_a_contract@,
            asset_b: self.token_b_contract@,
            ledger_a: self.token_a@,
            ledger_b: self.token_b@,
            ledger_lp: self.token_lp@,
            meta_a: self.token_a_meta,
            meta_b: self.token_b_meta,
            ratio: (self.token_ratio.0 as nat, self.token_ratio.1 as nat),
            pending: pending_view(self.pending@),
            next_request_id: self.next_request_id as nat,
        }
    }
}

impl PoolParts {
    /// The parts make a sound pool: no ledger names an account twice, and
    /// the pool's invariant holds of them.
    pub open spec fn wf(&self) -> bool {
        &&& ids_distinct(self.token_a.accounts@)
        &&& ids_distinct(self.token_b.accounts@)
        &&& ids_distinct(self.token_lp.accounts@)
        &&& self@.wf()
    }
}

/// A liquidity pool of two assets.
pub struct Contract {
    /// The account that may add and remove liquidity.
    owner_id: String,
    /// The pool's own account.
    pool_id: String,
    token_a_contract: String,
    token_b_contract: String,
    token_a: Ledger,
    token_b: Ledger,
    /// The ledger of the shares in the pool's liquidity.
    token_lp: Ledger,
    token_a_meta: Option<AssetMetadata>,
    token_b_meta: Option<AssetMetadata>,
    /// The reserves as last seen: (first asset, second asset).
    token_ratio: (u128, u128),
    pending: Vec<PendingCallback>,
    next_request_id: u64,
}

impl View for Contract {
    type V = PoolView;

    closed spec fn view(&self) -> PoolView {
        PoolView {
            owner: self.owner_id@,
            pool: self.pool_id@,
            asset_a: self.token_a_contract@,
            asset_b: self.token_b_contract@,
            ledger_a: self.token_a@,
            ledger_b: self.token_b@,
            ledger_lp: self.token_lp@,
            meta_a: self.token_a_meta,
            meta_b: self.token_b_meta,
            ratio: (self.token_ratio.0 as nat, self.token_ratio.1 as nat),
            pending: pending_view(self.pending@),
            next_request_id: self.next_request_id as nat,
        }
    }
}

impl Contract {
    /// The pool is sound: its ledgers are, and its invariant holds.
    pub closed spec fn wf(&self) -> bool {
        &&& self.token_a.wf()
        &&& self.token_b.wf()
        &&& self.token_lp.wf()
        &&& self@.wf()
    }

    /// A sound pool meets the pool's invariant.
    pub proof fn lemma_view_wf(&self)
        requires
            self.wf(),
        ensures
            self@.wf(),
    {
    }

    /// Makes the pool of `token_a_contract` and `token_b_contract`, owned by
    /// `owner_id` and running under the account `pool_id`.
    ///
    /// The owner is registered with all three ledgers. The metadata of both
    /// assets is asked for: the two requests are in flight when the pool
    /// comes back, and until both are answered it does not trade. Two equal
    /// assets make no pool: `EqualAssets`.
    pub fn new(
        owner_id: String,
        token_a_contract: String,
        token_b_contract: String,
        pool_id: String,
    ) -> (r: Result<Contract, AmmError>)
        ensures
            match r {
                Ok(pool) => token_a_contract@ != token_b_contract@ && pool.wf() && pool@
                    == PoolView::initial(
                    owner_id@,
                    token_a_contract@,
                    token_b_contract@,
                    pool_id@,
                ),
                Err(e) => token_a_contract@ == token_b_contract@ && e == AmmError::EqualAssets,
            },
    {
        if token_a_contract == token_b_contract {
            return Err(AmmError::EqualAssets);
        }
        let token_a = init_token(&owner_id);
        let token_b = init_token(&owner_id);
        let token_lp = init_token(&owner_id);
        let mut pending: Vec<PendingCallback> = Vec::new();
        pending.push(
            PendingCallback {
                request_id: 0,
                kind: CallbackKind::MetadataFetch,
                subject_asset: token_a_contract.clone(),
                subject_account: pool_id.clone(),
                amount: 0,
            },
        );
        pending.push(
            PendingCallback {
                request_id: 1,
                kind: CallbackKind::MetadataFetch,
                subject_asset: token_b_contract.clone(),
                subject_account: pool_id.clone(),
                amount: 0,
            },
        );
        let pool = Contract {
            owner_id,
            pool_id,
            token_a_contract,
            token_b_contract,
            token_a,
            token_b,
            token_lp,
            token_a_meta: None,
            token_b_meta: None,
            token_ratio: (1, 1),
            pending,
            next_request_id: 2,
        };
        proof {
            let initial = PoolView::initial(
                owner_id@,
                token_a_contract@,
                token_b_contract@,
                pool_id@,
            );
            assert(pool@.pending =~= initial.pending);
            assert(pool@ == initial);
            assert(fetch_at(initial.pending, initial.asset_a, 0));
            assert(fetch_at(initial.pending, initial.asset_b, 1));
        }
        Ok(pool)
    }

    /// Puts a pool together from its parts, as they were taken apart by
    /// [`Contract::into_parts`]. `None` where the parts make no sound pool.
    pub fn from_parts(parts: PoolParts) -> (r: Option<Contract>)
        ensures
            match r {
                Some(pool) => parts.wf() && pool.wf() && pool@ == parts@,
                None => !parts.wf(),
            },
    {
        if parts.token_a_contract == parts.token_b_contract {
            return None;
        }
        if !requests_in_order(&parts.pending, parts.next_request_id) {
            return None;
        }
        if find_fetch(&parts.pending, &parts.token_a_contract).is_some()
            != parts.token_a_meta.is_none() {
            return None;
        }
        if find_fetch(&parts.pending, &parts.token_b_contract).is_some()
            != parts.token_b_meta.is_none() {
            return None;
        }
        let ghost view = parts@;
        let token_a: Ledger = match Ledger::from_parts(parts.token_a) {
            Some(ledger) => ledger,
            None => {
                return None;
            },
        };
        let token_b: Ledger = match Ledger::from_parts(parts.token_b) {
            Some(ledger) => ledger,
            None => {
                return None;
            },
        };
        let token_lp: Ledger = match Ledger::from_parts(parts.token_lp) {
            Some(ledger) => ledger,
            None => {
                return None;
            },
        };
        let pool = Contract {
            owner_id: parts.owner_id,
            pool_id: parts.pool_id,
            token_a_contract: parts.token_a_contract,
            token_b_contract: parts.token_b_contract,
            token_a,
            token_b,
            token_lp,
            token_a_meta: parts.token_a_meta,
            token_b_meta: parts.token_b_meta,
            token_ratio: parts.token_ratio,
            pending: parts.pending,
            next_request_id: parts.next_request_id,
        };
        assert(pool@ == view);
        Some(pool)
    }

    /// Takes the pool apart, to be stored.
    pub fn into_parts(self) -> (parts: PoolParts)
        requires
            self.wf(),
        ensures
            parts.wf(),
            parts@ == self@,
    {
        PoolParts {
            owner_id: self.owner_id,
            pool_id: self.pool_id,
            token_a_contract: self.token_a_contract,
            token_b_contract: self.token_b_contract,
            token_a: self.token_a.into_parts(),
            token_b: self.token_b.into_parts(),
            token_lp: self.token_lp.into_parts(),
            token_a_meta: self.token_a_meta,
            token_b_meta: self.token_b_meta,
            token_ratio: self.token_ratio,
            pending: self.pending,
            next_request_id: self.next_request_id,
        }
    }

    /// The account that may add and remove liquidity.
    pub fn owner_id(&self) -> (id: &String)
        ensures
            id@ == self@.owner,
    {
        &self.owner_id
    }

    /// The pool's own account.
    pub fn pool_id(&self) -> (id: &String)
        ensures
            id@ == self@.pool,
    {
        &self.pool_id
    }

    /// The first asset.
    pub fn token_a_contract(&self) -> (id: &String)
        ensures
            id@ == self@.asset_a,
    {
        &self.token_a_contract
    }

    /// The second asset.
    pub fn token_b_contract(&self) -> (id: &String)
        ensures
            id@ == self@.asset_b,
    {
        &self.token_b_contract
    }

    /// The reserves of the two assets as last seen by an operation that
    /// changed them.
    pub fn token_ratio(&self) -> (ratio: (u128, u128))
        ensures
            ratio.0 == self@.ratio.0,
            ratio.1 == self@.ratio.1,
    {
        self.token_ratio
    }

    /// The requests in flight, oldest first.
    pub fn pending(&self) -> (pending: &Vec<PendingCallback>)
        ensures
            pending_view(pending@) == self@.pending,
    {
        &self.pending
    }

    /// Whether the pool may trade, and if not, whose metadata it awaits.
    pub fn init_state(&self) -> (state: InitState)
        ensures
            state == self@.init_state(),
    {
        match (self.token_a_meta, self.token_b_meta) {
            (Some(_), Some(_)) => InitState::Ready,
            (a, b) => InitState::AwaitingMetadata { asset_a: a.is_none(), asset_b: b.is_none() },
        }
    }

    /// Which of the pool's assets `asset` is: the first (`true`), the second
    /// (`false`), or neither.
    fn is_first(&self, asset: &String) -> (slot: Option<bool>)
        requires
            self.wf(),
        ensures
            match slot {
                Some(first) => self@.supports(asset@) && first == (asset@ == self@.asset_a),
                None => !self@.supports(asset@),
            },
    {
        if *asset == self.token_a_contract {
            Some(true)
        } else if *asset == self.token_b_contract {
            Some(false)
        } else {
            None
        }
    }

    /// The metadata of `asset`, if the pool supports it and the metadata has
    /// arrived.
    pub fn metadata(&self, asset: &String) -> (r: Result<AssetMetadata, AmmError>)
        requires
            self.wf(),
        ensures
            r == (if !self@.supports(asset@) {
                Err::<AssetMetadata, AmmError>(AmmError::UnsupportedAsset)
            } else {
                match self@.metadata(asset@) {
                    Some(m) => Ok(m),
                    None => Err(AmmError::MetadataMissing),
                }
            }),
    {
        let found: Option<AssetMetadata> = match self.is_first(asset) {
            Some(true) => self.token_a_meta,
            Some(false) => self.token_b_meta,
            None => {
                return Err(AmmError::UnsupportedAsset);
            },
        };
        match found {
            Some(m) => Ok(m),
            None => Err(AmmError::MetadataMissing),
        }
    }

    /// Takes the answer to the metadata fetch for `contract_id`.
    ///
    /// Only the pool itself may bring it: from another `caller` it is
    /// `Unauthorized`. For an asset that is not the pool's it is
    /// `UnsupportedAsset`, and where no fetch for the asset is in flight,
    /// `UnexpectedCallback`; so the metadata of an asset is written once.
    pub fn on_ft_metadata(&mut self, caller: &String, contract_id: &String, metadata: AssetMetadata)
        -> (r: Result<(), AmmError>)
        requires
            old(self).wf(),
        ensures
            final(self).wf(),
            match r {
                Ok(()) => old(self)@.resolve_metadata(caller@, contract_id@, metadata) == Ok::<
                    PoolView,
                    AmmError,
                >(final(self)@),
                Err(e) => old(self)@.resolve_metadata(caller@, contract_id@, metadata) == Err::<
                    PoolView,
                    AmmError,
                >(e) && final(self)@ == old(self)@,
            },
    {
        if *caller != self.pool_id {
            return Err(AmmError::Unauthorized);
        }
        let first: bool = match self.is_first(contract_id) {
            Some(first) => first,
            None => {
                return Err(AmmError::UnsupportedAsset);
            },
        };
        let at: usize = match find_fetch(&self.pending, contract_id) {
            Some(at) => at,
            None => {
                return Err(AmmError::UnexpectedCallback);
            },
        };
        proof {
            let before = self@;
            let k = fetch_index(before.pending, contract_id@);
            assert(fetch_at(before.pending, contract_id@, k));
            assert(k == at);
            lemma_remove_keeps_order(before.pending, before.next_request_id, at as int);
            lemma_remove_keeps_fetches(before.pending, at as int, before.asset_a);
            lemma_remove_keeps_fetches(before.pending, at as int, before.asset_b);
            assert(pending_view(self.pending@.remove(at as int)) =~= before.pending.remove(
                at as int,
            ));
        }
        self.pending.remove(at);
        if first {
            self.token_a_meta = Some(metadata);
        } else {
            self.token_b_meta = Some(metadata);
        }
        Ok(())
    }

    /// Registers `account_id` with the ledger that `token_name` names: the
    /// share ledger under the pool's own name, else the ledger of that
    /// asset. An account that is registered already stays as it is.
    ///
    /// `registration_only` is taken for the storage interface's sake; a
    /// registration is all that these ledgers keep, so it changes nothing.
    pub fn storage_deposit(
        &mut self,
        token_name: &String,
        account_id: &String,
        registration_only: Option<bool>,
    ) -> (r: Result<(), AmmError>)
        requires
            old(self).wf(),
        ensures
            final(self).wf(),
            match r {
                Ok(()) => old(self)@.register(token_name@, account_id@) == Ok::<
                    PoolView,
                    AmmError,
                >(final(self)@),
                Err(e) => old(self)@.register(token_name@, account_id@) == Err::<
                    PoolView,
                    AmmError,
                >(e) && final(self)@ == old(self)@,
            },
    {
        if *token_name == self.pool_id {
            self.token_lp.register_account(account_id);
            return Ok(());
        }
        match self.is_first(token_name) {
            Some(true) => {
                self.token_a.register_account(account_id);
                Ok(())
            },
            Some(false) => {
                self.token_b.register_account(account_id);
                Ok(())
            },
            None => Err(AmmError::UnsupportedAsset),
        }
    }

    /// Books tokens that have arrived: `caller` is the asset whose ledger
    /// reports the transfer, and `sender_id` is credited with `amount` on
    /// the pool's ledger of that asset. Returns the amount that the pool
    /// does not keep, which is nothing.
    pub fn ft_on_transfer(&mut self, caller: &String, sender_id: &String, amount: u128) -> (r:
        Result<u128, AmmError>)
        requires
            old(self).wf(),
        ensures
            final(self).wf(),
            match r {
                Ok(unused) => unused == 0 && old(self)@.receive(
                    caller@,
                    sender_id@,
                    amount as nat,
                ) == Ok::<PoolView, AmmError>(final(self)@),
                Err(e) => old(self)@.receive(caller@, sender_id@, amount as nat) == Err::<
                    PoolView,
                    AmmError,
                >(e) && final(self)@ == old(self)@,
            },
    {
        let credited: Result<(), AmmError> = match self.is_first(caller) {
            Some(true) => self.token_a.deposit(sender_id, amount),
            Some(false) => self.token_b.deposit(sender_id, amount),
            None => Err(AmmError::UnsupportedAsset),
        };
        match credited {
            Ok(()) => Ok(0),
            Err(e) => Err(e),
        }
    }

    /// What `account_id` holds of `token_name`: of the shares under the
    /// pool's own name, else of that asset. An account that is not
    /// registered holds nothing.
    pub fn ft_balance_of(&self, token_name: &String, account_id: &String) -> (r: Result<
        u128,
        AmmError,
    >)
        requires
            self.wf(),
        ensures
            match r {
                Ok(balance) => self@.balance(token_name@, account_id@) == Ok::<nat, AmmError>(
                    balance as nat,
                ),
                Err(e) => self@.balance(token_name@, account_id@) == Err::<nat, AmmError>(e),
            },
    {
        if *token_name == self.pool_id {
            return Ok(self.token_lp.ft_balance_of(account_id));
        }
        match self.is_first(token_name) {
            Some(true) => Ok(self.token_a.ft_balance_of(account_id)),
            Some(false) => Ok(self.token_b.ft_balance_of(account_id)),
            None => Err(AmmError::UnsupportedAsset),
        }
    }

    /// The pool's owner, assets, metadata and ratio; `MetadataMissing` until
    /// the metadata of both assets has arrived.
    pub fn contract_info(&self) -> (r: Result<ContractInfo, AmmError>)
        requires
            self.wf(),
        ensures
            match r {
                Ok(info) => self@.info() == Ok::<InfoView, AmmError>(info@),
                Err(e) => self@.info() == Err::<InfoView, AmmError>(e),
            },
    {
        let token_a_meta: AssetMetadata = match self.token_a_meta {
            Some(m) => m,
            None => {
                return Err(AmmError::MetadataMissing);
            },
        };
        let token_b_meta: AssetMetadata = match self.token_b_meta {
            Some(m) => m,
            None => {
                return Err(AmmError::MetadataMissing);
            },
        };
        Ok(
            ContractInfo {
                owner_id: self.owner_id.clone(),
                token_a_contract: self.token_a_contract.clone(),
                token_b_contract: self.token_b_contract.clone(),
                token_a_meta,
                token_b_meta,
                token_ratio: self.token_ratio,
            },
        )
    }

    /// Brings the ratio up to the reserves.
    fn refresh_ratio(&mut self)
        requires
            old(self).wf(),
        ensures
            final(self).wf(),
            final(self)@ == old(self)@.refresh_ratio(),
    {
        let reserve_a: u128 = self.token_a.ft_balance_of(&self.pool_id);
        let reserve_b: u128 = self.token_b.ft_balance_of(&self.pool_id);
        self.token_ratio = (reserve_a, reserve_b);
    }

    /// Sells `sell_amount` of `sell_token_id` to the pool for
    /// `buy_token_id`, on `caller`'s accounts with the pool, and returns the
    /// amount bought.
    ///
    /// The price goes by the reserves before the trade, on the scale of the
    /// asset with more decimal places. Refused, with nothing changed:
    /// `EqualAssets` where the two assets are one; `UnsupportedAsset` where
    /// one is not the pool's; `MetadataMissing` until the metadata of both
    /// has arrived; and for the reason for which the ledgers refuse one of
    /// the two transfers or the price cannot be computed.
    pub fn swap(
        &mut self,
        caller: &String,
        buy_token_id: &String,
        sell_token_id: &String,
        sell_amount: u128,
    ) -> (r: Result<u128, AmmError>)
        requires
            old(self).wf(),
        ensures
            final(self).wf(),
            match r {
                Ok(bought) => old(self)@.swap(
                    caller@,
                    buy_token_id@,
                    sell_token_id@,
                    sell_amount as nat,
                ) == Ok::<(PoolView, nat), AmmError>((final(self)@, bought as nat)),
                Err(e) => old(self)@.swap(
                    caller@,
                    buy_token_id@,
                    sell_token_id@,
                    sell_amount as nat,
                ) == Err::<(PoolView, nat), AmmError>(e) && final(self)@ == old(self)@,
            },
            buy_token_id@ == sell_token_id@ ==> r == Err::<u128, AmmError>(AmmError::EqualAssets)
                && final(self)@ == old(self)@,
            buy_token_id@ != sell_token_id@ && old(self)@.supports(buy_token_id@) && old(self)@.supports(sell_token_id@) && old(self)@.init_state() != InitState::Ready ==> r
                == Err::<u128, AmmError>(AmmError::MetadataMissing),
            r matches Ok(bought) ==> bought <= old(self)@.reserve(buy_token_id@),
    {
        proof {
            let before = old(self)@;
            if before.swap(caller@, buy_token_id@, sell_token_id@, sell_amount as nat) is Ok {
                lemma_quote_within_reserve(
                    before.ledger(sell_token_id@).balances[before.pool],
                    before.ledger(buy_token_id@).balances[before.pool],
                    sell_amount as nat,
                    before.metadata(sell_token_id@).unwrap().decimals as nat,
                    before.metadata(buy_token_id@).unwrap().decimals as nat,
                );
            }
        }
        if *buy_token_id == *sell_token_id {
            return Err(AmmError::EqualAssets);
        }
        if self.is_first(buy_token_id).is_none() {
            return Err(AmmError::UnsupportedAsset);
        }
        let sell_first: bool = match self.is_first(sell_token_id) {
            Some(first) => first,
            None => {
                return Err(AmmError::UnsupportedAsset);
            },
        };
        let buy_meta: AssetMetadata = match self.metadata(buy_token_id) {
            Ok(m) => m,
            Err(e) => {
                return Err(e);
            },
        };
        let sell_meta: AssetMetadata = match self.metadata(sell_token_id) {
            Ok(m) => m,
            Err(e) => {
                return Err(e);
            },
        };
        let traded: Result<u128, AmmError> = if sell_first {
            execute_trade(
                &mut self.token_a,
                &mut self.token_b,
                &self.pool_id,
                caller,
                sell_amount,
                sell_meta.decimals,
                buy_meta.decimals,
            )
        } else {
            execute_trade(
                &mut self.token_b,
                &mut self.token_a,
                &self.pool_id,
                caller,
                sell_amount,
                sell_meta.decimals,
                buy_meta.decimals,
            )
        };
        match traded {
            Ok(bought) => {
                self.refresh_ratio();
                Ok(bought)
            },
            Err(e) => Err(e),
        }
    }

    /// Whether `caller` may change the liquidity in the two assets named:
    /// it is the owner, and the two are the pool's two. Returns whether the
    /// first one named is the pool's first.
    fn owner_names_both(&self, caller: &String, first: &String, second: &String) -> (r: Result<
        bool,
        AmmError,
    >)
        requires
            self.wf(),
        ensures
            match r {
                Ok(first_is_a) => self@.owner_names_both(caller@, first@, second@) is Ok
                    && first_is_a == (first@ == self@.asset_a) && first_is_a == (second@
                    == self@.asset_b),
                Err(e) => self@.owner_names_both(caller@, first@, second@) == Err::<(), AmmError>(e),
            },
    {
        if *caller != self.owner_id {
            return Err(AmmError::Unauthorized);
        }
        if *first == *second {
            return Err(AmmError::EqualAssets);
        }
        let first_is_a: bool = match self.is_first(first) {
            Some(first_is_a) => first_is_a,
            None => {
                return Err(AmmError::UnsupportedAsset);
            },
        };
        if self.is_first(second).is_none() {
            return Err(AmmError::UnsupportedAsset);
        }
        Ok(first_is_a)
    }

    /// Adds liquidity: `token_a_amount` of `token_a_name` and
    /// `token_b_amount` of `token_b_name` go from the owner's accounts with
    /// the pool into the reserves, and the owner is credited with the share
    /// they mint, the sum of the two amounts on their common scale.
    ///
    /// The deposit is taken only in exact proportion to the reserves:
    /// `reserve_a * token_b_amount == reserve_b * token_a_amount`, else
    /// `ProportionMismatch`. Before that: `Unauthorized` where `caller` is
    /// not the owner, `EqualAssets`, `UnsupportedAsset`, `MetadataMissing`,
    /// and `AccountNotRegistered` where the pool has no account for its
    /// reserves. After it, the reason for which a ledger refuses. A refusal
    /// changes nothing. So a deposit is taken exactly when it is in
    /// proportion and everything else about it is in order.
    pub fn add_tokens_to_pool(
        &mut self,
        caller: &String,
        token_a_name: &String,
        token_a_amount: u128,
        token_b_name: &String,
        token_b_amount: u128,
    ) -> (r: Result<(), AmmError>)
        requires
            old(self).wf(),
        ensures
            final(self).wf(),
            match r {
                Ok(()) => old(self)@.add_liquidity(
                    caller@,
                    token_a_name@,
                    token_a_amount as nat,
                    token_b_name@,
                    token_b_amount as nat,
                ) == Ok::<PoolView, AmmError>(final(self)@),
                Err(e) => old(self)@.add_liquidity(
                    caller@,
                    token_a_name@,
                    token_a_amount as nat,
                    token_b_name@,
                    token_b_amount as nat,
                ) == Err::<PoolView, AmmError>(e) && final(self)@ == old(self)@,
            },
            r is Ok <==> proportional(
                old(self)@.reserve(token_a_name@),
                old(self)@.reserve(token_b_name@),
                token_a_amount as nat,
                token_b_amount as nat,
            ) && old(self)@.deposit_otherwise_in_order(
                caller@,
                token_a_name@,
                token_a_amount as nat,
                token_b_name@,
                token_b_amount as nat,
            ),
    {
        let first_is_a: bool = match self.owner_names_both(caller, token_a_name, token_b_name) {
            Ok(first_is_a) => first_is_a,
            Err(e) => {
                return Err(e);
            },
        };
        let first_meta: AssetMetadata = match self.metadata(token_a_name) {
            Ok(m) => m,
            Err(e) => {
                return Err(e);
            },
        };
        let second_meta: AssetMetadata = match self.metadata(token_b_name) {
            Ok(m) => m,
            Err(e) => {
                return Err(e);
            },
        };
        let funded: Result<(), AmmError> = if first_is_a {
            execute_fund(
                &mut self.token_a,
                &mut self.token_b,
                &mut self.token_lp,
                &self.pool_id,
                caller,
                token_a_amount,
                token_b_amount,
                first_meta.decimals,
                second_meta.decimals,
            )
        } else {
            execute_fund(
                &mut self.token_b,
                &mut self.token_a,
                &mut self.token_lp,
                &self.pool_id,
                caller,
                token_a_amount,
                token_b_amount,
                first_meta.decimals,
                second_meta.decimals,
            )
        };
        match funded {
            Ok(()) => {
                self.refresh_ratio();
                Ok(())
            },
            Err(e) => Err(e),
        }
    }

    /// Removes the owner's liquidity: its whole share is burnt, and of each
    /// of the two reserves it is paid `supply * reserve / share`, from the
    /// pool's account to its own.
    ///
    /// Refused, with nothing changed: `Unauthorized`, `EqualAssets`,
    /// `UnsupportedAsset`; `AccountNotRegistered` where the pool has no
    /// account for its reserves or the owner none for shares;
    /// `DivisionByZero` where the owner holds no share; `ArithmeticOverflow`
    /// where a payout passes 128 bits; and the reason for which a ledger
    /// refuses.
    pub fn exclude_tokens_from_pool(
        &mut self,
        caller: &String,
        token_a_name: &String,
        token_b_name: &String,
    ) -> (r: Result<(), AmmError>)
        requires
            old(self).wf(),
        ensures
            final(self).wf(),
            match r {
                Ok(()) => old(self)@.remove_liquidity(caller@, token_a_name@, token_b_name@)
                    == Ok::<PoolView, AmmError>(final(self)@),
                Err(e) => old(self)@.remove_liquidity(caller@, token_a_name@, token_b_name@)
                    == Err::<PoolView, AmmError>(e) && final(self)@ == old(self)@,
            },
            r is Ok ==> final(self)@.ledger_lp.is_registered(caller@) && final(self)@.ledger_lp.balances[caller@] == 0,
    {
        let first_is_a: bool = match self.owner_names_both(caller, token_a_name, token_b_name) {
            Ok(first_is_a) => first_is_a,
            Err(e) => {
                return Err(e);
            },
        };
        let defunded: Result<(), AmmError> = if first_is_a {
            execute_defund(
                &mut self.token_a,
                &mut self.token_b,
                &mut self.token_lp,
                &self.pool_id,
                caller,
            )
        } else {
            execute_defund(
                &mut self.token_b,
                &mut self.token_a,
                &mut self.token_lp,
                &self.pool_id,
                caller,
            )
        };
        match defunded {
            Ok(()) => {
                self.refresh_ratio();
                Ok(())
            },
            Err(e) => Err(e),
        }
    }

    /// Notes that `caller` withdraws `amount` of `token_name`, and returns
    /// the number of the request. The transfer itself happens on the asset's
    /// own ledger; until its answer comes in through
    /// [`Contract::withdraw_tokens_callback`], the pool's ledgers stay as
    /// they are.
    ///
    /// `UnsupportedAsset` where the asset is not the pool's;
    /// `ArithmeticOverflow` where the request numbers are used up.
    pub fn withdraw_tokens(&mut self, caller: &String, token_name: &String, amount: u128) -> (r:
        Result<u64, AmmError>)
        requires
            old(self).wf(),
        ensures
            final(self).wf(),
            match r {
                Ok(request_id) => old(self)@.request_withdraw(
                    caller@,
                    token_name@,
                    amount as nat,
                ) == Ok::<(PoolView, nat), AmmError>((final(self)@, request_id as nat)),
                Err(e) => old(self)@.request_withdraw(caller@, token_name@, amount as nat) == Err::<
                    (PoolView, nat),
                    AmmError,
                >(e) && final(self)@ == old(self)@,
            },
    {
        if self.is_first(token_name).is_none() {
            return Err(AmmError::UnsupportedAsset);
        }
        if self.next_request_id == u64::MAX {
            return Err(AmmError::ArithmeticOverflow);
        }
        let request_id: u64 = self.next_request_id;
        let request = PendingCallback {
            request_id,
            kind: CallbackKind::WithdrawTransfer,
            subject_asset: token_name.clone(),
            subject_account: caller.clone(),
            amount,
        };
        proof {
            let before = self@;
            assert(request@ == withdraw_request(
                request_id as nat,
                token_name@,
                caller@,
                amount as nat,
            ));
            lemma_push_keeps_fetches(before.pending, request@, before.asset_a);
            lemma_push_keeps_fetches(before.pending, request@, before.asset_b);
            assert(pending_view(self.pending@.push(request)) =~= before.pending.push(request@));
        }
        self.pending.push(request);
        self.next_request_id = request_id + 1;
        Ok(request_id)
    }

    /// Takes the answer to the withdrawal numbered `request_id`.
    ///
    /// Only the pool itself may bring it: from another `caller` it is
    /// `Unauthorized`, and where no such withdrawal is in flight,
    /// `UnexpectedCallback`; either way nothing changes. Else the request is
    /// struck, so that a second answer to it is refused. Where the transfer
    /// failed, that is all, and the result is `ExternalCallFailed`. Where it
    /// is confirmed, the account that withdrew is debited on the pool's
    /// ledger of the asset; if that ledger refuses, the result is its
    /// reason and no balance has changed.
    pub fn withdraw_tokens_callback(
        &mut self,
        caller: &String,
        request_id: u64,
        outcome: TransferOutcome,
    ) -> (r: Result<(), AmmError>)
        requires
            old(self).wf(),
        ensures
            final(self).wf(),
            final(self)@ == old(self)@.resolve_withdraw(caller@, request_id as nat, outcome).0,
            match r {
                Ok(()) => old(self)@.resolve_withdraw(caller@, request_id as nat, outcome).1 is Ok,
                Err(e) => old(self)@.resolve_withdraw(caller@, request_id as nat, outcome).1
                    == Err::<(), AmmError>(e),
            },
    {
        if *caller != self.pool_id {
            return Err(AmmError::Unauthorized);
        }
        let at: usize = match find_withdraw(&self.pending, request_id) {
            Some(at) => at,
            None => {
                return Err(AmmError::UnexpectedCallback);
            },
        };
        proof {
            let before = self@;
            let k = withdraw_index(before.pending, request_id as nat);
            assert(withdraw_at(before.pending, request_id as nat, k));
            assert(k == at);
            lemma_remove_keeps_order(before.pending, before.next_request_id, at as int);
            lemma_remove_keeps_fetches(before.pending, at as int, before.asset_a);
            lemma_remove_keeps_fetches(before.pending, at as int, before.asset_b);
            assert(pending_view(self.pending@.remove(at as int)) =~= before.pending.remove(
                at as int,
            ));
        }
        let request: PendingCallback = self.pending.remove(at);
        match outcome {
            TransferOutcome::Failed => Err(AmmError::ExternalCallFailed),
            TransferOutcome::Confirmed => match self.is_first(&request.subject_asset) {
                Some(true) => self.token_a.withdraw(&request.subject_account, request.amount),
                Some(false) => self.token_b.withdraw(&request.subject_account, request.amount),
                None => Err(AmmError::UnsupportedAsset),
            },
        }
    }

    /// Strikes `caller` from the ledger that `token_name` names and burns
    /// what it held there. Returns whether `caller` was registered.
    ///
    /// An account that still holds something is struck only under `force`;
    /// else the answer is `PositiveBalance`.
    pub fn storage_unregister(&mut self, caller: &String, token_name: &String, force: Option<bool>)
        -> (r: Result<bool, AmmError>)
        requires
            old(self).wf(),
        ensures
            final(self).wf(),
            match r {
                Ok(struck) => old(self)@.unregister(
                    token_name@,
                    caller@,
                    force == Some(true),
                ) == Ok::<PoolView, AmmError>(final(self)@) && struck == old(self)@.named_ledger(
                    token_name@,
                ).unwrap().is_registered(caller@),
                Err(e) => old(self)@.unregister(token_name@, caller@, force == Some(true)) == Err::<
                    PoolView,
                    AmmError,
                >(e) && final(self)@ == old(self)@,
            },
    {
        let force: bool = match force {
            Some(force) => force,
            None => false,
        };
        let struck: Result<Option<u128>, AmmError> = if *token_name == self.pool_id {
            self.token_lp.unregister(caller, force)
        } else {
            match self.is_first(token_name) {
                Some(true) => self.token_a.unregister(caller, force),
                Some(false) => self.token_b.unregister(caller, force),
                None => Err(AmmError::UnsupportedAsset),
            }
        };
        match struck {
            Ok(burnt) => Ok(burnt.is_some()),
            Err(e) => Err(e),
        }
    }

    /// Whether `account_id` is registered with the ledger that `token_name`
    /// names.
    pub fn is_registered(&self, token_name: &String, account_id: &String) -> (r: Result<
        bool,
        AmmError,
    >)
        requires
            self.wf(),
        ensures
            match r {
                Ok(registered) => self@.named_ledger(token_name@) is Ok && registered
                    == self@.named_ledger(token_name@).unwrap().is_registered(account_id@),
                Err(e) => self@.named_ledger(token_name@) == Err::<LedgerView, AmmError>(e),
            },
    {
        if *token_name == self.pool_id {
            return Ok(self.token_lp.is_registered(account_id));
        }
        match self.is_first(token_name) {
            Some(true) => Ok(self.token_a.is_registered(account_id)),
            Some(false) => Ok(self.token_b.is_registered(account_id)),
            None => Err(AmmError::UnsupportedAsset),
        }
    }
}

/// Carries out a trade on the ledger of the asset sold and the ledger of the
/// asset bought, or changes neither.
fn execute_trade(
    sold: &mut Ledger,
    bought: &mut Ledger,
    pool: &String,
    caller: &String,
    amount: u128,
    decimals_sold: u8,
    decimals_bought: u8,
) -> (r: Result<u128, AmmError>)
    requires
        old(sold).wf(),
        old(bought).wf(),
    ensures
        final(sold).wf(),
        final(bought).wf(),
        match r {
            Ok(out) => trade(
                old(sold)@,
                old(bought)@,
                pool@,
                caller@,
                amount as nat,
                decimals_sold as nat,
                decimals_bought as nat,
            ) == Ok::<(LedgerView, LedgerView, nat), AmmError>(
                (final(sold)@, final(bought)@, out as nat),
            ),
            Err(e) => trade(
                old(sold)@,
                old(bought)@,
                pool@,
                caller@,
                amount as nat,
                decimals_sold as nat,
                decimals_bought as nat,
            ) == Err::<(LedgerView, LedgerView, nat), AmmError>(e) && final(sold)@ == old(sold)@
                && final(bought)@ == old(bought)@,
        },
{
    let reserve_sold: u128 = match sold.balance_of(pool) {
        Some(reserve) => reserve,
        None => {
            return Err(AmmError::AccountNotRegistered);
        },
    };
    let reserve_bought: u128 = match bought.balance_of(pool) {
        Some(reserve) => reserve,
        None => {
            return Err(AmmError::AccountNotRegistered);
        },
    };
    match sold.check_transfer(caller, pool, amount) {
        Ok(()) => {},
        Err(e) => {
            return Err(e);
        },
    }
    let out: u128 = match quote_swap(
        reserve_sold,
        reserve_bought,
        amount,
        decimals_sold,
        decimals_bought,
    ) {
        Ok(out) => out,
        Err(e) => {
            return Err(e);
        },
    };
    match bought.check_transfer(pool, caller, out) {
        Ok(()) => {},
        Err(e) => {
            return Err(e);
        },
    }
    let paid_in = sold.transfer(caller, pool, amount);
    let paid_out = bought.transfer(pool, caller, out);
    assert(paid_in is Ok && paid_out is Ok);
    Ok(out)
}

/// Carries out a deposit of liquidity on the ledgers of the two assets and
/// of the shares, or changes none of them.
fn execute_fund(
    first: &mut Ledger,
    second: &mut Ledger,
    shares: &mut Ledger,
    pool: &String,
    payer: &String,
    amount_first: u128,
    amount_second: u128,
    decimals_first: u8,
    decimals_second: u8,
) -> (r: Result<(), AmmError>)
    requires
        old(first).wf(),
        old(second).wf(),
        old(shares).wf(),
    ensures
        final(first).wf(),
        final(second).wf(),
        final(shares).wf(),
        match r {
            Ok(()) => fund(
                old(first)@,
                old(second)@,
                old(shares)@,
                pool@,
                payer@,
                amount_first as nat,
                amount_second as nat,
                decimals_first as nat,
                decimals_second as nat,
            ) == Ok::<(LedgerView, LedgerView, LedgerView), AmmError>(
                (final(first)@, final(second)@, final(shares)@),
            ),
            Err(e) => fund(
                old(first)@,
                old(second)@,
                old(shares)@,
                pool@,
                payer@,
                amount_first as nat,
                amount_second as nat,
                decimals_first as nat,
                decimals_second as nat,
            ) == Err::<(LedgerView, LedgerView, LedgerView), AmmError>(e) && final(first)@ == old(first)@ && final(second)@ == old(second)@ && final(shares)@ == old(shares)@,
        },
{
    let reserve_first: u128 = match first.balance_of(pool) {
        Some(reserve) => reserve,
        None => {
            return Err(AmmError::AccountNotRegistered);
        },
    };
    let reserve_second: u128 = match second.balance_of(pool) {
        Some(reserve) => reserve,
        None => {
            return Err(AmmError::AccountNotRegistered);
        },
    };
    match check_proportion(reserve_first, reserve_second, amount_first, amount_second) {
        Ok(()) => {},
        Err(e) => {
            return Err(e);
        },
    }
    match first.check_transfer(payer, pool, amount_first) {
        Ok(()) => {},
        Err(e) => {
            return Err(e);
        },
    }
    match second.check_transfer(payer, pool, amount_second) {
        Ok(()) => {},
        Err(e) => {
            return Err(e);
        },
    }
    let share: u128 = match liquidity_share(
        amount_first,
        amount_second,
        decimals_first,
        decimals_second,
    ) {
        Ok(share) => share,
        Err(e) => {
            return Err(e);
        },
    };
    match shares.check_deposit(payer, share) {
        Ok(()) => {},
        Err(e) => {
            return Err(e);
        },
    }
    let paid_first = first.transfer(payer, pool, amount_first);
    let paid_second = second.transfer(payer, pool, amount_second);
    let minted = shares.deposit(payer, share);
    assert(paid_first is Ok && paid_second is Ok && minted is Ok);
    Ok(())
}

/// Carries out a withdrawal of liquidity on the ledgers of the two assets
/// and of the shares, or changes none of them.
fn execute_defund(
    first: &mut Ledger,
    second: &mut Ledger,
    shares: &mut Ledger,
    pool: &String,
    caller: &String,
) -> (r: Result<(), AmmError>)
    requires
        old(first).wf(),
        old(second).wf(),
        old(shares).wf(),
    ensures
        final(first).wf(),
        final(second).wf(),
        final(shares).wf(),
        match r {
            Ok(()) => defund(old(first)@, old(second)@, old(shares)@, pool@, caller@) == Ok::<
                (LedgerView, LedgerView, LedgerView),
                AmmError,
            >((final(first)@, final(second)@, final(shares)@)),
            Err(e) => defund(old(first)@, old(second)@, old(shares)@, pool@, caller@) == Err::<
                (LedgerView, LedgerView, LedgerView),
                AmmError,
            >(e) && final(first)@ == old(first)@ && final(second)@ == old(second)@ && final(shares)@ == old(shares)@,
        },
{
    let reserve_first: u128 = match first.balance_of(pool) {
        Some(reserve) => reserve,
        None => {
            return Err(AmmError::AccountNotRegistered);
        },
    };
    let reserve_second: u128 = match second.balance_of(pool) {
        Some(reserve) => reserve,
        None => {
            return Err(AmmError::AccountNotRegistered);
        },
    };
    let held: u128 = match shares.balance_of(caller) {
        Some(held) => held,
        None => {
            return Err(AmmError::AccountNotRegistered);
        },
    };
    let supply: u128 = shares.total_supply();
    let pay_first: u128 = match withdrawal_payout(supply, reserve_first, held) {
        Ok(pay) => pay,
        Err(e) => {
            return Err(e);
        },
    };
    let pay_second: u128 = match withdrawal_payout(supply, reserve_second, held) {
        Ok(pay) => pay,
        Err(e) => {
            return Err(e);
        },
    };
    match shares.check_withdraw(caller, held) {
        Ok(()) => {},
        Err(e) => {
            return Err(e);
        },
    }
    match first.check_transfer(pool, caller, pay_first) {
        Ok(()) => {},
        Err(e) => {
            return Err(e);
        },
    }
    match second.check_transfer(pool, caller, pay_second) {
        Ok(()) => {},
        Err(e) => {
            return Err(e);
        },
    }
    let burnt = shares.withdraw(caller, held);
    let paid_first = first.transfer(pool, caller, pay_first);
    let paid_second = second.transfer(pool, caller, pay_second);
    assert(burnt is Ok && paid_first is Ok && paid_second is Ok);
    Ok(())
}

} // verus!
