//! Requests that the pool has sent out and whose answers it awaits.
//!
//! The pool asks other ledgers for two things: an asset's metadata, once
//! for each asset when the pool is made, and a transfer to an account that
//! withdraws. Each request in flight is kept as a [`PendingCallback`] until
//! its one answer arrives.

use vstd::prelude::*;

verus! {

/// What a request asked for.
#[derive(Clone, Copy, Debug, PartialEq, Eq, Structural)]
pub enum CallbackKind {
    /// The metadata of an asset.
    MetadataFetch,
    /// A transfer of an asset to the account that withdraws it.
    WithdrawTransfer,
}

/// How a transfer on another ledger ended.
#[derive(Clone, Copy, Debug, PartialEq, Eq, Structural)]
pub enum TransferOutcome {
    Confirmed,
    Failed,
}

/// Whether the pool may trade yet.
#[derive(Clone, Copy, Debug, PartialEq, Eq, Structural)]
pub enum InitState {
    /// Metadata is still awaited, of the first asset, of the second, or of
    /// both.
    AwaitingMetadata { asset_a: bool, asset_b: bool },
    /// The metadata of both assets is known.
    Ready,
}

/// A request in flight.
pub struct PendingCallback {
    /// The number under which the answer comes back.
    pub request_id: u64,
    pub kind: CallbackKind,
    /// The asset that the request is about.
    pub subject_asset: String,
    /// The account on whose behalf it was made.
    pub subject_account: String,
    /// The amount to transfer; zero for a metadata fetch.
    pub amount: u128,
}

/// A request in flight, as mathematics.
pub struct PendingView {
    pub request_id: nat,
    pub kind: CallbackKind,
    pub subject_asset: Seq<char>,
    pub subject_account: Seq<char>,
    pub amount: nat,
}

impl View for PendingCallback {
    type V = PendingView;

    open spec fn view(&self) -> PendingView {
        PendingView {
            request_id: self.request_id as nat,
            kind: self.kind,
            subject_asset: self.subject_asset@,
            subject_account: self.subject_account@,
            amount: self.amount as nat,
        }
    }
}

/// The views of a list of requests, in the same order.
pub open spec fn pending_view(pending: Seq<PendingCallback>) -> Seq<PendingView> {
    Seq::new(pending.len(), |i: int| pending[i]@)
}

/// The request is the metadata fetch for `asset`.
pub open spec fn is_fetch_for(p: PendingView, asset: Seq<char>) -> bool {
    p.kind == CallbackKind::MetadataFetch && p.subject_asset == asset
}

/// The request is the withdrawal numbered `id`.
pub open spec fn is_withdraw(p: PendingView, id: nat) -> bool {
    p.kind == CallbackKind::WithdrawTransfer && p.request_id == id
}

/// `pending[i]` is the metadata fetch for `asset`.
pub open spec fn fetch_at(pending: Seq<PendingView>, asset: Seq<char>, i: int) -> bool {
    0 <= i < pending.len() && is_fetch_for(pending[i], asset)
}

/// `pending[i]` is the withdrawal numbered `id`.
pub open spec fn withdraw_at(pending: Seq<PendingView>, id: nat, i: int) -> bool {
    0 <= i < pending.len() && is_withdraw(pending[i], id)
}

/// The metadata of `asset` has been asked for and not yet answered.
pub open spec fn awaits_fetch(pending: Seq<PendingView>, asset: Seq<char>) -> bool {
    exists|i: int| fetch_at(pending, asset, i)
}

/// The withdrawal numbered `id` has been asked for and not yet answered.
pub open spec fn awaits_withdraw(pending: Seq<PendingView>, id: nat) -> bool {
    exists|i: int| withdraw_at(pending, id, i)
}

/// Where the metadata fetch for `asset` stands.
pub open spec fn fetch_index(pending: Seq<PendingView>, asset: Seq<char>) -> int {
    choose|i: int| fetch_at(pending, asset, i)
}

/// Where the withdrawal numbered `id` stands.
pub open spec fn withdraw_index(pending: Seq<PendingView>, id: nat) -> int {
    choose|i: int| withdraw_at(pending, id, i)
}

/// No two requests in flight bear the same number, and none a number that
/// is still to be given out.
pub open spec fn ids_in_order(pending: Seq<PendingView>, next_request_id: nat) -> bool {
    &&& forall|i: int| 0 <= i < pending.len() ==> (#[trigger] pending[i]).request_id < next_request_id
    &&& forall|i: int, j: int|
        0 <= i < j < pending.len() ==> (#[trigger] pending[i]).request_id != (
        #[trigger] pending[j]).request_id
}

/// No asset's metadata is asked for twice at a time.
pub open spec fn one_fetch_each(pending: Seq<PendingView>) -> bool {
    forall|i: int, j: int|
        0 <= i < j < pending.len() && (#[trigger] pending[i]).kind == CallbackKind::MetadataFetch
            && (#[trigger] pending[j]).kind == CallbackKind::MetadataFetch
            ==> pending[i].subject_asset != pending[j].subject_asset
}

/// What is left of a list after one entry is taken out: every other entry,
/// one place down where it stood behind the one removed.
pub proof fn lemma_remove_keeps_others(pending: Seq<PendingView>, gone: int)
    requires
        0 <= gone < pending.len(),
    ensures
        pending.remove(gone).len() == pending.len() - 1,
        forall|k: int|
            0 <= k < pending.len() - 1 ==> #[trigger] pending.remove(gone)[k] == pending[if k
                < gone {
                k
            } else {
                k + 1
            }],
{
}

/// Taking a request out leaves the numbering in order.
pub proof fn lemma_remove_keeps_order(pending: Seq<PendingView>, next_request_id: nat, gone: int)
    requires
        ids_in_order(pending, next_request_id),
        one_fetch_each(pending),
        0 <= gone < pending.len(),
    ensures
        ids_in_order(pending.remove(gone), next_request_id),
        one_fetch_each(pending.remove(gone)),
{
    let after = pending.remove(gone);
    lemma_remove_keeps_others(pending, gone);
    assert forall|i: int| 0 <= i < after.len() implies (#[trigger] after[i]).request_id
        < next_request_id by {
        let i0 = if i < gone { i } else { i + 1 };
        assert(after[i] == pending[i0]);
    }
    assert forall|i: int, j: int| 0 <= i < j < after.len() implies (#[trigger] after[i]).request_id
        != (#[trigger] after[j]).request_id by {
        let i0 = if i < gone { i } else { i + 1 };
        let j0 = if j < gone { j } else { j + 1 };
        assert(after[i] == pending[i0] && after[j] == pending[j0]);
    }
    assert forall|i: int, j: int|
        0 <= i < j < after.len() && (#[trigger] after[i]).kind == CallbackKind::MetadataFetch && (
        #[trigger] after[j]).kind == CallbackKind::MetadataFetch implies after[i].subject_asset
        != after[j].subject_asset by {
        let i0 = if i < gone { i } else { i + 1 };
        let j0 = if j < gone { j } else { j + 1 };
        assert(after[i] == pending[i0] && after[j] == pending[j0]);
    }
}

/// Taking a request out leaves every fetch but the one removed in flight,
/// and brings none in.
pub proof fn lemma_remove_keeps_fetches(pending: Seq<PendingView>, gone: int, asset: Seq<char>)
    requires
        one_fetch_each(pending),
        0 <= gone < pending.len(),
    ensures
        awaits_fetch(pending.remove(gone), asset) <==> awaits_fetch(pending, asset) && !is_fetch_for(
            pending[gone],
            asset,
        ),
{
    let after = pending.remove(gone);
    lemma_remove_keeps_others(pending, gone);
    if awaits_fetch(after, asset) {
        let k = choose|k: int| fetch_at(after, asset, k);
        let k0 = if k < gone { k } else { k + 1 };
        assert(after[k] == pending[k0]);
        assert(fetch_at(pending, asset, k0));
        if is_fetch_for(pending[gone], asset) {
            if k0 < gone {
                assert(pending[k0].subject_asset != pending[gone].subject_asset);
            } else {
                assert(pending[gone].subject_asset != pending[k0].subject_asset);
            }
        }
    }
    if awaits_fetch(pending, asset) && !is_fetch_for(pending[gone], asset) {
        let k0 = choose|k: int| fetch_at(pending, asset, k);
        let k = if k0 < gone { k0 } else { k0 - 1 };
        assert(after[k] == pending[k0]);
        assert(fetch_at(after, asset, k));
    }
}

/// Adding a withdrawal leaves the fetches in flight as they were.
pub proof fn lemma_push_keeps_fetches(pending: Seq<PendingView>, added: PendingView, asset: Seq<char>)
    requires
        added.kind == CallbackKind::WithdrawTransfer,
    ensures
        awaits_fetch(pending.push(added), asset) <==> awaits_fetch(pending, asset),
{
    let after = pending.push(added);
    if awaits_fetch(after, asset) {
        let k = choose|k: int| fetch_at(after, asset, k);
        assert(after[k] == pending[k]);
        assert(fetch_at(pending, asset, k));
    }
    if awaits_fetch(pending, asset) {
        let k = choose|k: int| fetch_at(pending, asset, k);
        assert(after[k] == pending[k]);
        assert(fetch_at(after, asset, k));
    }
}

/// Where the metadata fetch for `asset` stands in `pending`, if it is in
/// flight.
pub fn find_fetch(pending: &Vec<PendingCallback>, asset: &String) -> (found: Option<usize>)
    ensures
        match found {
            Some(i) => fetch_at(pending_view(pending@), asset@, i as int),
            None => !awaits_fetch(pending_view(pending@), asset@),
        },
{
    let mut i: usize = 0;
    while i < pending.len()
        invariant
            i <= pending.len(),
            forall|k: int| 0 <= k < i ==> !fetch_at(pending_view(pending@), asset@, k),
        decreases pending.len() - i,
    {
        let is_fetch: bool = match pending[i].kind {
            CallbackKind::MetadataFetch => true,
            CallbackKind::WithdrawTransfer => false,
        };
        if is_fetch && pending[i].subject_asset == *asset {
            return Some(i);
        }
        i = i + 1;
    }
    None
}

/// Where the withdrawal numbered `id` stands in `pending`, if it is in
/// flight.
pub fn find_withdraw(pending: &Vec<PendingCallback>, id: u64) -> (found: Option<usize>)
    ensures
        match found {
            Some(i) => withdraw_at(pending_view(pending@), id as nat, i as int),
            None => !awaits_withdraw(pending_view(pending@), id as nat),
        },
{
    let mut i: usize = 0;
    while i < pending.len()
        invariant
            i <= pending.len(),
            forall|k: int| 0 <= k < i ==> !withdraw_at(pending_view(pending@), id as nat, k),
        decreases pending.len() - i,
    {
        let is_withdraw: bool = match pending[i].kind {
            CallbackKind::MetadataFetch => false,
            CallbackKind::WithdrawTransfer => true,
        };
        if is_withdraw && pending[i].request_id == id {
            return Some(i);
        }
        i = i + 1;
    }
    None
}

/// Whether the requests in `pending` are numbered apart and below
/// `next_request_id`, and no asset's metadata is asked for twice.
pub fn requests_in_order(pending: &Vec<PendingCallback>, next_request_id: u64) -> (ok: bool)
    ensures
        ok == (ids_in_order(pending_view(pending@), next_request_id as nat) && one_fetch_each(
            pending_view(pending@),
        )),
{
    let ghost views = pending_view(pending@);
    let mut j: usize = 0;
    while j < pending.len()
        invariant
            j <= pending.len(),
            views == pending_view(pending@),
            forall|a: int| 0 <= a < j ==> (#[trigger] views[a]).request_id < next_request_id,
            forall|a: int, b: int|
                0 <= a < b < j ==> (#[trigger] views[a]).request_id != (#[trigger] views[b]).request_id,
            forall|a: int, b: int|
                0 <= a < b < j && (#[trigger] views[a]).kind == CallbackKind::MetadataFetch && (
                #[trigger] views[b]).kind == CallbackKind::MetadataFetch ==> views[a].subject_asset
                    != views[b].subject_asset,
        decreases pending.len() - j,
    {
        if pending[j].request_id >= next_request_id {
            assert(views[j as int].request_id >= next_request_id);
            return false;
        }
        let fetch_behind: bool = match pending[j].kind {
            CallbackKind::MetadataFetch => true,
            CallbackKind::WithdrawTransfer => false,
        };
        let mut i: usize = 0;
        while i < j
            invariant
                i <= j < pending.len(),
                views == pending_view(pending@),
                fetch_behind == (views[j as int].kind == CallbackKind::MetadataFetch),
                forall|a: int|
                    0 <= a < i ==> (#[trigger] views[a]).request_id != views[j as int].request_id,
                forall|a: int|
                    0 <= a < i && (#[trigger] views[a]).kind == CallbackKind::MetadataFetch
                        && fetch_behind ==> views[a].subject_asset != views[j as int].subject_asset,
            decreases j - i,
        {
            if pending[i].request_id == pending[j].request_id {
                assert(views[i as int].request_id == views[j as int].request_id);
                return false;
            }
            let fetch_ahead: bool = match pending[i].kind {
                CallbackKind::MetadataFetch => true,
                CallbackKind::WithdrawTransfer => false,
            };
            if fetch_ahead && fetch_behind && pending[i].subject_asset == pending[j].subject_asset {
                assert(views[i as int].subject_asset == views[j as int].subject_asset);
                return false;
            }
            i = i + 1;
        }
        j = j + 1;
    }
    true
}

} // verus!
