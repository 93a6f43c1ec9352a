//! The pool as mathematics: what it holds, and what each operation makes of
//! it.
//!
//! Every operation is a function from the pool before, the caller and the
//! arguments to either the pool after or the reason for the refusal. The
//! checks stand in the order in which they are made, so each input has one
//! answer.

use vstd::prelude::*;
use crate::callbacks::{
    awaits_fetch, awaits_withdraw, fetch_index, ids_in_order, one_fetch_each, withdraw_index,
    CallbackKind, InitState, PendingView, TransferOutcome,
};
use crate::errors::AmmError;
use crate::ledger::LedgerView;
use crate::liquidity::{payout_checked, proportion_checked, share_checked};
use crate::pricing::quote_of;

verus! {

/// What the pool knows of an asset once its ledger has answered.
#[derive(Clone, Copy, Debug, PartialEq, Eq, Structural)]
pub struct AssetMetadata {
    /// The number of decimal places in which the asset counts.
    pub decimals: u8,
}

/// The metadata fetch for `asset`, numbered `request_id`, as the pool sends
/// it out on its own behalf.
pub open spec fn fetch_request(request_id: nat, asset: Seq<char>, pool: Seq<char>) -> PendingView {
    PendingView {
        request_id,
        kind: CallbackKind::MetadataFetch,
        subject_asset: asset,
        subject_account: pool,
        amount: 0,
    }
}

/// The withdrawal of `amount` of `asset` by `account`, numbered
/// `request_id`.
pub open spec fn withdraw_request(
    request_id: nat,
    asset: Seq<char>,
    account: Seq<char>,
    amount: nat,
) -> PendingView {
    PendingView {
        request_id,
        kind: CallbackKind::WithdrawTransfer,
        subject_asset: asset,
        subject_account: account,
        amount,
    }
}

/// A trade on the two ledgers it touches: `amount` of the sold asset goes
/// from `caller` to `pool`, and what that buys at the reserves before the
/// trade goes from `pool` to `caller`. Gives both ledgers after, and the
/// amount bought.
pub open spec fn trade(
    sold: LedgerView,
    bought: LedgerView,
    pool: Seq<char>,
    caller: Seq<char>,
    amount: nat,
    decimals_sold: nat,
    decimals_bought: nat,
) -> Result<(LedgerView, LedgerView, nat), AmmError> {
    if !sold.is_registered(pool) || !bought.is_registered(pool) {
        Err(AmmError::AccountNotRegistered)
    } else {
        match sold.transfer(caller, pool, amount) {
            Err(e) => Err(e),
            Ok(sold_after) => match quote_of(
                sold.balances[pool],
                bought.balances[pool],
                amount,
                decimals_sold,
                decimals_bought,
            ) {
                Err(e) => Err(e),
                Ok(out) => match bought.transfer(pool, caller, out) {
                    Err(e) => Err(e),
                    Ok(bought_after) => Ok((sold_after, bought_after, out)),
                },
            },
        }
    }
}

/// A deposit of liquidity on the three ledgers it touches: accepted only in
/// exact proportion to the reserves, it moves both amounts from `payer` to
/// `pool` and credits `payer` with the share they mint.
pub open spec fn fund(
    first: LedgerView,
    second: LedgerView,
    shares: LedgerView,
    pool: Seq<char>,
    payer: Seq<char>,
    amount_first: nat,
    amount_second: nat,
    decimals_first: nat,
    decimals_second: nat,
) -> Result<(LedgerView, LedgerView, LedgerView), AmmError> {
    if !first.is_registered(pool) || !second.is_registered(pool) {
        Err(AmmError::AccountNotRegistered)
    } else {
        match proportion_checked(
            first.balances[pool],
            second.balances[pool],
            amount_first,
            amount_second,
        ) {
            Err(e) => Err(e),
            Ok(()) => match first.transfer(payer, pool, amount_first) {
                Err(e) => Err(e),
                Ok(first_after) => match second.transfer(payer, pool, amount_second) {
                    Err(e) => Err(e),
                    Ok(second_after) => match share_checked(
                        amount_first,
                        amount_second,
                        decimals_first,
                        decimals_second,
                    ) {
                        Err(e) => Err(e),
                        Ok(share) => match shares.deposit(payer, share) {
                            Err(e) => Err(e),
                            Ok(shares_after) => Ok((first_after, second_after, shares_after)),
                        },
                    },
                },
            },
        }
    }
}

/// A withdrawal of liquidity on the three ledgers it touches: the caller's
/// whole share is burnt, and of each reserve the caller is paid
/// `supply * reserve / share`.
pub open spec fn defund(
    first: LedgerView,
    second: LedgerView,
    shares: LedgerView,
    pool: Seq<char>,
    caller: Seq<char>,
) -> Result<(LedgerView, LedgerView, LedgerView), AmmError> {
    if !first.is_registered(pool) || !second.is_registered(pool) || !shares.is_registered(caller) {
        Err(AmmError::AccountNotRegistered)
    } else {
        let held = shares.balances[caller];
        match payout_checked(shares.total_supply, first.balances[pool], held) {
            Err(e) => Err(e),
            Ok(pay_first) => match payout_checked(
                shares.total_supply,
                second.balances[pool],
                held,
            ) {
                Err(e) => Err(e),
                Ok(pay_second) => match shares.withdraw(caller, held) {
                    Err(e) => Err(e),
                    Ok(shares_after) => match first.transfer(pool, caller, pay_first) {
                        Err(e) => Err(e),
                        Ok(first_after) => match second.transfer(pool, caller, pay_second) {
                            Err(e) => Err(e),
                            Ok(second_after) => Ok((first_after, second_after, shares_after)),
                        },
                    },
                },
            }
        }
    }
}

/// What the pool says of itself.
pub struct InfoView {
    pub owner: Seq<char>,
    pub asset_a: Seq<char>,
    pub asset_b: Seq<char>,
    pub meta_a: AssetMetadata,
    pub meta_b: AssetMetadata,
    pub ratio: (nat, nat),
}

/// The pool.
#[verifier::ext_equal]
pub struct PoolView {
    /// The account that may add and remove liquidity.
    pub owner: Seq<char>,
    /// The pool's own account: it holds the reserves, and its name is the
    /// name of the share token.
    pub pool: Seq<char>,
    pub asset_a: Seq<char>,
    pub asset_b: Seq<char>,
    pub ledger_a: LedgerView,
    pub ledger_b: LedgerView,
    /// Who holds which share of the liquidity.
    pub ledger_lp: LedgerView,
    pub meta_a: Option<AssetMetadata>,
    pub meta_b: Option<AssetMetadata>,
    /// The reserves of the two assets as last seen by an operation that
    /// changed them. For inspection only: prices go by the ledgers.
    pub ratio: (nat, nat),
    /// The requests in flight, oldest first.
    pub pending: Seq<PendingView>,
    /// The number that the next request gets.
    pub next_request_id: nat,
}

impl PoolView {
    /// The pool as it is made: each ledger knows the owner and holds
    /// nothing, and the metadata of both assets has just been asked for.
    pub open spec fn initial(
        owner: Seq<char>,
        asset_a: Seq<char>,
        asset_b: Seq<char>,
        pool: Seq<char>,
    ) -> PoolView {
        PoolView {
            owner,
            pool,
            asset_a,
            asset_b,
            ledger_a: LedgerView::empty().register(owner),
            ledger_b: LedgerView::empty().register(owner),
            ledger_lp: LedgerView::empty().register(owner),
            meta_a: None,
            meta_b: None,
            ratio: (1, 1),
            pending: seq![fetch_request(0, asset_a, pool), fetch_request(1, asset_b, pool)],
            next_request_id: 2,
        }
    }

    /// The pool's invariant: its two assets differ, the requests in flight
    /// are numbered apart, and the metadata of an asset is missing exactly
    /// while the fetch for it is in flight.
    pub open spec fn wf(self) -> bool {
        &&& self.asset_a != self.asset_b
        &&& ids_in_order(self.pending, self.next_request_id)
        &&& one_fetch_each(self.pending)
        &&& awaits_fetch(self.pending, self.asset_a) <==> self.meta_a is None
        &&& awaits_fetch(self.pending, self.asset_b) <==> self.meta_b is None
    }

    /// Whether `asset` is one of the pool's two.
    pub open spec fn supports(self, asset: Seq<char>) -> bool {
        asset == self.asset_a || asset == self.asset_b
    }

    /// The ledger of a supported asset.
    pub open spec fn ledger(self, asset: Seq<char>) -> LedgerView {
        if asset == self.asset_a {
            self.ledger_a
        } else {
            self.ledger_b
        }
    }

    /// The metadata of a supported asset, once it has arrived.
    pub open spec fn metadata(self, asset: Seq<char>) -> Option<AssetMetadata> {
        if asset == self.asset_a {
            self.meta_a
        } else {
            self.meta_b
        }
    }

    /// The pool with the ledger of a supported asset replaced.
    pub open spec fn with_ledger(self, asset: Seq<char>, ledger: LedgerView) -> PoolView {
        if asset == self.asset_a {
            PoolView { ledger_a: ledger, ..self }
        } else {
            PoolView { ledger_b: ledger, ..self }
        }
    }

    /// The pool with the metadata of a supported asset written.
    pub open spec fn with_metadata(self, asset: Seq<char>, metadata: AssetMetadata) -> PoolView {
        if asset == self.asset_a {
            PoolView { meta_a: Some(metadata), ..self }
        } else {
            PoolView { meta_b: Some(metadata), ..self }
        }
    }

    /// The ledger that `token` names: the share ledger under the pool's own
    /// name, else the ledger of the asset.
    pub open spec fn named_ledger(self, token: Seq<char>) -> Result<LedgerView, AmmError> {
        if token == self.pool {
            Ok(self.ledger_lp)
        } else if self.supports(token) {
            Ok(self.ledger(token))
        } else {
            Err(AmmError::UnsupportedAsset)
        }
    }

    /// The pool with the ledger that `token` names replaced.
    pub open spec fn with_named_ledger(self, token: Seq<char>, ledger: LedgerView) -> PoolView {
        if token == self.pool {
            PoolView { ledger_lp: ledger, ..self }
        } else {
            self.with_ledger(token, ledger)
        }
    }

    /// What the pool holds of `asset`.
    pub open spec fn reserve(self, asset: Seq<char>) -> nat {
        self.ledger(asset).balance_or_zero(self.pool)
    }

    /// The pool with its ratio brought up to the reserves.
    pub open spec fn refresh_ratio(self) -> PoolView {
        PoolView { ratio: (self.reserve(self.asset_a), self.reserve(self.asset_b)), ..self }
    }

    /// Whether the pool may trade: both assets' metadata is there.
    pub open spec fn init_state(self) -> InitState {
        if self.meta_a is Some && self.meta_b is Some {
            InitState::Ready
        } else {
            InitState::AwaitingMetadata { asset_a: self.meta_a is None, asset_b: self.meta_b is None }
        }
    }

    /// The answer to the metadata fetch for `asset`: the request is struck
    /// and the metadata written.
    pub open spec fn resolve_metadata(
        self,
        caller: Seq<char>,
        asset: Seq<char>,
        metadata: AssetMetadata,
    ) -> Result<PoolView, AmmError> {
        if caller != self.pool {
            Err(AmmError::Unauthorized)
        } else if !self.supports(asset) {
            Err(AmmError::UnsupportedAsset)
        } else if !awaits_fetch(self.pending, asset) {
            Err(AmmError::UnexpectedCallback)
        } else {
            Ok(
                PoolView {
                    pending: self.pending.remove(fetch_index(self.pending, asset)),
                    ..self.with_metadata(asset, metadata)
                },
            )
        }
    }

    /// A trade of `amount` of `sell` for `buy`. Gives the pool after and the
    /// amount bought.
    pub open spec fn swap(
        self,
        caller: Seq<char>,
        buy: Seq<char>,
        sell: Seq<char>,
        amount: nat,
    ) -> Result<(PoolView, nat), AmmError> {
        if buy == sell {
            Err(AmmError::EqualAssets)
        } else if !self.supports(buy) || !self.supports(sell) {
            Err(AmmError::UnsupportedAsset)
        } else if self.metadata(buy) is None || self.metadata(sell) is None {
            Err(AmmError::MetadataMissing)
        } else {
            match trade(
                self.ledger(sell),
                self.ledger(buy),
                self.pool,
                caller,
                amount,
                self.metadata(sell).unwrap().decimals as nat,
                self.metadata(buy).unwrap().decimals as nat,
            ) {
                Err(e) => Err(e),
                Ok((sold, bought, out)) => Ok(
                    (self.with_ledger(sell, sold).with_ledger(buy, bought).refresh_ratio(), out),
                ),
            }
        }
    }

    /// The validations that a change of liquidity passes before the ledgers
    /// are looked at: the caller is the owner, and the two assets named are
    /// the pool's two.
    pub open spec fn owner_names_both(
        self,
        caller: Seq<char>,
        first: Seq<char>,
        second: Seq<char>,
    ) -> Result<(), AmmError> {
        if caller != self.owner {
            Err(AmmError::Unauthorized)
        } else if first == second {
            Err(AmmError::EqualAssets)
        } else if !self.supports(first) || !self.supports(second) {
            Err(AmmError::UnsupportedAsset)
        } else {
            Ok(())
        }
    }

    /// Everything about a deposit of liquidity is in order but, perhaps, its
    /// proportion: the owner makes it, in the pool's two assets, whose
    /// metadata is there; the pool has an account for each reserve; and the
    /// ledgers take the two transfers and the share.
    pub open spec fn deposit_otherwise_in_order(
        self,
        caller: Seq<char>,
        first: Seq<char>,
        amount_first: nat,
        second: Seq<char>,
        amount_second: nat,
    ) -> bool {
        &&& self.owner_names_both(caller, first, second) is Ok
        &&& self.metadata(first) is Some
        &&& self.metadata(second) is Some
        &&& self.ledger(first).is_registered(self.pool)
        &&& self.ledger(second).is_registered(self.pool)
        &&& self.ledger(first).transfer(caller, self.pool, amount_first) is Ok
        &&& self.ledger(second).transfer(caller, self.pool, amount_second) is Ok
        &&& share_checked(
            amount_first,
            amount_second,
            self.metadata(first).unwrap().decimals as nat,
            self.metadata(second).unwrap().decimals as nat,
        ) matches Ok(share) && self.ledger_lp.deposit(caller, share) is Ok
    }

    /// A deposit of liquidity by the owner.
    pub open spec fn add_liquidity(
        self,
        caller: Seq<char>,
        first: Seq<char>,
        amount_first: nat,
        second: Seq<char>,
        amount_second: nat,
    ) -> Result<PoolView, AmmError> {
        match self.owner_names_both(caller, first, second) {
            Err(e) => Err(e),
            Ok(()) => if self.metadata(first) is None || self.metadata(second) is None {
                Err(AmmError::MetadataMissing)
            } else {
                match fund(
                    self.ledger(first),
                    self.ledger(second),
                    self.ledger_lp,
                    self.pool,
                    caller,
                    amount_first,
                    amount_second,
                    self.metadata(first).unwrap().decimals as nat,
                    self.metadata(second).unwrap().decimals as nat,
                ) {
                    Err(e) => Err(e),
                    Ok((first_after, second_after, shares_after)) => Ok(
                        PoolView {
                            ledger_lp: shares_after,
                            ..self.with_ledger(first, first_after).with_ledger(second, second_after)
                        }.refresh_ratio(),
                    ),
                }
            },
        }
    }

    /// The withdrawal of the owner's whole liquidity.
    pub open spec fn remove_liquidity(
        self,
        caller: Seq<char>,
        first: Seq<char>,
        second: Seq<char>,
    ) -> Result<PoolView, AmmError> {
        match self.owner_names_both(caller, first, second) {
            Err(e) => Err(e),
            Ok(()) => match defund(
                self.ledger(first),
                self.ledger(second),
                self.ledger_lp,
                self.pool,
                caller,
            ) {
                Err(e) => Err(e),
                Ok((first_after, second_after, shares_after)) => Ok(
                    PoolView {
                        ledger_lp: shares_after,
                        ..self.with_ledger(first, first_after).with_ledger(second, second_after)
                    }.refresh_ratio(),
                ),
            },
        }
    }

    /// A withdrawal is asked for: nothing moves yet, the request is noted
    /// under the next number. Gives the pool after and that number.
    pub open spec fn request_withdraw(
        self,
        caller: Seq<char>,
        asset: Seq<char>,
        amount: nat,
    ) -> Result<(PoolView, nat), AmmError> {
        if !self.supports(asset) {
            Err(AmmError::UnsupportedAsset)
        } else if self.next_request_id >= u64::MAX {
            Err(AmmError::ArithmeticOverflow)
        } else {
            Ok(
                (
                    PoolView {
                        pending: self.pending.push(
                            withdraw_request(self.next_request_id, asset, caller, amount),
                        ),
                        next_request_id: self.next_request_id + 1,
                        ..self
                    },
                    self.next_request_id,
                ),
            )
        }
    }

    /// The answer to the withdrawal numbered `request_id`. The request is
    /// struck whatever the answer; the account is debited only where the
    /// transfer is confirmed. Gives the pool after beside what the caller is
    /// told.
    pub open spec fn resolve_withdraw(
        self,
        caller: Seq<char>,
        request_id: nat,
        outcome: TransferOutcome,
    ) -> (PoolView, Result<(), AmmError>) {
        if caller != self.pool {
            (self, Err(AmmError::Unauthorized))
        } else if !awaits_withdraw(self.pending, request_id) {
            (self, Err(AmmError::UnexpectedCallback))
        } else {
            let at = withdraw_index(self.pending, request_id);
            let request = self.pending[at];
            let struck = PoolView { pending: self.pending.remove(at), ..self };
            if outcome == TransferOutcome::Failed {
                (struck, Err(AmmError::ExternalCallFailed))
            } else if !self.supports(request.subject_asset) {
                (struck, Err(AmmError::UnsupportedAsset))
            } else {
                match self.ledger(request.subject_asset).withdraw(
                    request.subject_account,
                    request.amount,
                ) {
                    Err(e) => (struck, Err(e)),
                    Ok(debited) => (struck.with_ledger(request.subject_asset, debited), Ok(())),
                }
            }
        }
    }

    /// Tokens arrive: the ledger of the asset `token`, which makes the call,
    /// credits `sender`.
    pub open spec fn receive(self, token: Seq<char>, sender: Seq<char>, amount: nat) -> Result<
        PoolView,
        AmmError,
    > {
        if !self.supports(token) {
            Err(AmmError::UnsupportedAsset)
        } else {
            match self.ledger(token).deposit(sender, amount) {
                Err(e) => Err(e),
                Ok(credited) => Ok(self.with_ledger(token, credited)),
            }
        }
    }

    /// `account` is registered with the ledger that `token` names.
    pub open spec fn register(self, token: Seq<char>, account: Seq<char>) -> Result<
        PoolView,
        AmmError,
    > {
        match self.named_ledger(token) {
            Err(e) => Err(e),
            Ok(ledger) => Ok(self.with_named_ledger(token, ledger.register(account))),
        }
    }

    /// `account` is struck from the ledger that `token` names.
    pub open spec fn unregister(self, token: Seq<char>, account: Seq<char>, force: bool) -> Result<
        PoolView,
        AmmError,
    > {
        match self.named_ledger(token) {
            Err(e) => Err(e),
            Ok(ledger) => match ledger.unregister(account, force) {
                Err(e) => Err(e),
                Ok(struck) => Ok(self.with_named_ledger(token, struck)),
            },
        }
    }

    /// What `account` holds on the ledger that `token` names; nothing where
    /// it is not registered there.
    pub open spec fn balance(self, token: Seq<char>, account: Seq<char>) -> Result<nat, AmmError> {
        match self.named_ledger(token) {
            Err(e) => Err(e),
            Ok(ledger) => Ok(ledger.balance_or_zero(account)),
        }
    }

    /// What the pool says of itself, once it is ready.
    pub open spec fn info(self) -> Result<InfoView, AmmError> {
        if self.meta_a is None || self.meta_b is None {
            Err(AmmError::MetadataMissing)
        } else {
            Ok(
                InfoView {
                    owner: self.owner,
                    asset_a: self.asset_a,
                    asset_b: self.asset_b,
                    meta_a: self.meta_a.unwrap(),
                    meta_b: self.meta_b.unwrap(),
                    ratio: self.ratio,
                },
            )
        }
    }
}

} // verus!
