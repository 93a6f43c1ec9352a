//! What holds of the pool across several operations.

use vstd::prelude::*;
use crate::callbacks::{
    awaits_withdraw, fetch_at, fetch_index, lemma_remove_keeps_fetches, lemma_remove_keeps_order,
    lemma_remove_keeps_others, withdraw_at, withdraw_index, InitState, TransferOutcome,
};
use crate::errors::AmmError;
use crate::ledger::LedgerView;
use crate::model::{AssetMetadata, PoolView};

verus! {

/// A transfer moves what it moves and no more: the supply and the set of
/// accounts stay, the sender has `amount` less and the receiver `amount`
/// more, and every other account holds what it held.
pub proof fn lemma_transfer_conserves(
    ledger: LedgerView,
    from: Seq<char>,
    to: Seq<char>,
    amount: nat,
)
    ensures
        ledger.transfer(from, to, amount) matches Ok(after) ==> {
            &&& after.total_supply == ledger.total_supply
            &&& after.balances.dom() == ledger.balances.dom()
            &&& after.balances[from] == ledger.balances[from] - amount
            &&& after.balances[to] == ledger.balances[to] + amount
            &&& forall|other: Seq<char>|
                other != from && other != to && ledger.balances.contains_key(other)
                    ==> after.balances[other] == ledger.balances[other]
        },
{
    if ledger.transfer(from, to, amount) is Ok {
        let after = ledger.transfer(from, to, amount).unwrap();
        assert(after.balances.dom() =~= ledger.balances.dom());
    }
}

/// A pool that has just been made is sound and awaits the metadata of both
/// assets; the answer for one of them does not make it ready.
pub proof fn lemma_new_pool_awaits_metadata(
    owner: Seq<char>,
    asset_a: Seq<char>,
    asset_b: Seq<char>,
    pool: Seq<char>,
    answered: Seq<char>,
    metadata: AssetMetadata,
)
    requires
        asset_a != asset_b,
    ensures
        PoolView::initial(owner, asset_a, asset_b, pool).wf(),
        PoolView::initial(owner, asset_a, asset_b, pool).init_state()
            == (InitState::AwaitingMetadata { asset_a: true, asset_b: true }),
        PoolView::initial(owner, asset_a, asset_b, pool).resolve_metadata(pool, answered, metadata)
            matches Ok(after) ==> after.init_state() != InitState::Ready,
{
    let initial = PoolView::initial(owner, asset_a, asset_b, pool);
    assert(fetch_at(initial.pending, asset_a, 0));
    assert(fetch_at(initial.pending, asset_b, 1));
}

/// Until the metadata of both assets has arrived, the pool trades nothing:
/// a swap is refused, and one between the pool's two assets with
/// `MetadataMissing`.
pub proof fn lemma_no_trade_before_metadata(
    pool: PoolView,
    caller: Seq<char>,
    buy: Seq<char>,
    sell: Seq<char>,
    amount: nat,
)
    requires
        pool.init_state() != InitState::Ready,
    ensures
        pool.swap(caller, buy, sell, amount) is Err,
        buy != sell && pool.supports(buy) && pool.supports(sell) ==> pool.swap(
            caller,
            buy,
            sell,
            amount,
        ) == Err::<(PoolView, nat), AmmError>(AmmError::MetadataMissing),
{
}

/// The metadata of an asset is written once: after the answer to the fetch
/// has been taken, the pool holds that metadata, and a second answer for the
/// same asset is refused.
pub proof fn lemma_metadata_written_once(
    pool: PoolView,
    asset: Seq<char>,
    first: AssetMetadata,
    second: AssetMetadata,
)
    requires
        pool.wf(),
    ensures
        pool.resolve_metadata(pool.pool, asset, first) matches Ok(after) ==> {
            &&& after.wf()
            &&& after.metadata(asset) == Some(first)
            &&& after.resolve_metadata(pool.pool, asset, second) == Err::<PoolView, AmmError>(
                AmmError::UnexpectedCallback,
            )
        },
{
    if pool.resolve_metadata(pool.pool, asset, first) is Ok {
        let at = fetch_index(pool.pending, asset);
        assert(fetch_at(pool.pending, asset, at));
        lemma_remove_keeps_fetches(pool.pending, at, pool.asset_a);
        lemma_remove_keeps_fetches(pool.pending, at, pool.asset_b);
        lemma_remove_keeps_order(pool.pending, pool.next_request_id, at);
    }
}

/// Asking for a withdrawal moves nothing, and if the transfer then fails,
/// the pool is where it was before the request but for the number spent on
/// it: every balance and every other request in flight is unchanged.
pub proof fn lemma_failed_withdrawal_moves_nothing(
    pool: PoolView,
    caller: Seq<char>,
    asset: Seq<char>,
    amount: nat,
)
    requires
        pool.wf(),
        pool.request_withdraw(caller, asset, amount) is Ok,
    ensures
        ({
            let (requested, request_id) = pool.request_withdraw(caller, asset, amount).unwrap();
            let (resolved, answer) = requested.resolve_withdraw(
                pool.pool,
                request_id,
                TransferOutcome::Failed,
            );
            &&& requested.ledger_a == pool.ledger_a
            &&& requested.ledger_b == pool.ledger_b
            &&& requested.ledger_lp == pool.ledger_lp
            &&& answer == Err::<(), AmmError>(AmmError::ExternalCallFailed)
            &&& resolved == PoolView { next_request_id: pool.next_request_id + 1, ..pool }
        }),
{
    let (requested, request_id) = pool.request_withdraw(caller, asset, amount).unwrap();
    let last = pool.pending.len() as int;
    assert(withdraw_at(requested.pending, request_id, last));
    let at = withdraw_index(requested.pending, request_id);
    assert(withdraw_at(requested.pending, request_id, at));
    if at != last {
        assert(requested.pending[at] == pool.pending[at]);
    }
    assert(requested.pending.remove(last) =~= pool.pending);
}

/// A withdrawal is answered once: whatever the first answer was, a second
/// answer under the same number is refused and changes nothing.
pub proof fn lemma_withdrawal_answered_once(
    pool: PoolView,
    request_id: nat,
    first: TransferOutcome,
    second: TransferOutcome,
)
    requires
        pool.wf(),
        awaits_withdraw(pool.pending, request_id),
    ensures
        ({
            let (after, _) = pool.resolve_withdraw(pool.pool, request_id, first);
            after.resolve_withdraw(pool.pool, request_id, second) == (
                after,
                Err::<(), AmmError>(AmmError::UnexpectedCallback),
            )
        }),
{
    let (after, _) = pool.resolve_withdraw(pool.pool, request_id, first);
    let at = withdraw_index(pool.pending, request_id);
    assert(withdraw_at(pool.pending, request_id, at));
    assert(after.pending == pool.pending.remove(at));
    lemma_remove_keeps_others(pool.pending, at);
    if awaits_withdraw(after.pending, request_id) {
        let k = choose|k: int| withdraw_at(after.pending, request_id, k);
        let k0 = if k < at { k } else { k + 1 };
        assert(after.pending[k] == pool.pending[k0]);
        assert(pool.pending[k0].request_id == pool.pending[at].request_id);
    }
}

} // verus!
