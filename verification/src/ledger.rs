//! The balance store of one asset: which accounts are registered, what each
//! holds, and how much there is in all.

use vstd::prelude::*;
use crate::errors::AmmError;

verus! {

/// What a ledger holds, as mathematics: the balance of each registered
/// account, and the total supply.
#[verifier::ext_equal]
pub struct LedgerView {
    pub balances: Map<Seq<char>, nat>,
    pub total_supply: nat,
}

impl LedgerView {
    /// The ledger with no account and no supply.
    pub open spec fn empty() -> LedgerView {
        LedgerView { balances: Map::empty(), total_supply: 0 }
    }

    /// Whether `id` has an account.
    pub open spec fn is_registered(self, id: Seq<char>) -> bool {
        self.balances.contains_key(id)
    }

    /// What the account holds; nothing where it is not registered.
    pub open spec fn balance_or_zero(self, id: Seq<char>) -> nat {
        if self.balances.contains_key(id) {
            self.balances[id]
        } else {
            0
        }
    }

    /// The ledger with `id` registered: a new account starts empty, a known
    /// one keeps what it has.
    pub open spec fn register(self, id: Seq<char>) -> LedgerView {
        if self.balances.contains_key(id) {
            self
        } else {
            LedgerView { balances: self.balances.insert(id, 0), ..self }
        }
    }

    /// Credits `amount` to `id` and adds it to the supply.
    pub open spec fn deposit(self, id: Seq<char>, amount: nat) -> Result<LedgerView, AmmError> {
        if !self.balances.contains_key(id) {
            Err(AmmError::AccountNotRegistered)
        } else if self.balances[id] + amount > u128::MAX {
            Err(AmmError::ArithmeticOverflow)
        } else if self.total_supply + amount > u128::MAX {
            Err(AmmError::ArithmeticOverflow)
        } else {
            Ok(
                LedgerView {
                    balances: self.balances.insert(id, self.balances[id] + amount),
                    total_supply: self.total_supply + amount,
                },
            )
        }
    }

    /// Debits `amount` from `id` and takes it out of the supply.
    pub open spec fn withdraw(self, id: Seq<char>, amount: nat) -> Result<LedgerView, AmmError> {
        if !self.balances.contains_key(id) {
            Err(AmmError::AccountNotRegistered)
        } else if self.balances[id] < amount {
            Err(AmmError::InsufficientBalance)
        } else if self.total_supply < amount {
            Err(AmmError::ArithmeticOverflow)
        } else {
            Ok(
                LedgerView {
                    balances: self.balances.insert(id, (self.balances[id] - amount) as nat),
                    total_supply: (self.total_supply - amount) as nat,
                },
            )
        }
    }

    /// Moves `amount` from `from` to `to`: a debit, then a credit, or
    /// neither.
    pub open spec fn transfer(self, from: Seq<char>, to: Seq<char>, amount: nat) -> Result<
        LedgerView,
        AmmError,
    > {
        if from == to {
            Err(AmmError::SameAccount)
        } else if amount == 0 {
            Err(AmmError::ZeroAmount)
        } else {
            match self.withdraw(from, amount) {
                Err(e) => Err(e),
                Ok(debited) => debited.deposit(to, amount),
            }
        }
    }

    /// Strikes `id` from the ledger and burns what it held. An account that
    /// still holds something goes only under `force`.
    pub open spec fn unregister(self, id: Seq<char>, force: bool) -> Result<
        LedgerView,
        AmmError,
    > {
        if !self.balances.contains_key(id) {
            Ok(self)
        } else if self.balances[id] > 0 && !force {
            Err(AmmError::PositiveBalance)
        } else if self.total_supply < self.balances[id] {
            Err(AmmError::ArithmeticOverflow)
        } else {
            Ok(
                LedgerView {
                    balances: self.balances.remove(id),
                    total_supply: (self.total_supply - self.balances[id]) as nat,
                },
            )
        }
    }
}

/// One registered account and what it holds.
pub struct Account {
    pub id: String,
    pub balance: u128,
}

/// The balance store of one asset.
///
/// Accounts are kept in the order in which they were registered, each once.
pub struct Ledger {
    accounts: Vec<Account>,
    total_supply: u128,
}

/// No account id occurs twice.
pub open spec fn ids_distinct(accounts: Seq<Account>) -> bool {
    forall|i: int, j: int|
        0 <= i < j < accounts.len() ==> (#[trigger] accounts[i]).id@ != (#[trigger] accounts[j]).id@
}

/// Whether `accounts[i]` is the entry of `id`.
pub open spec fn entry_of(accounts: Seq<Account>, id: Seq<char>, i: int) -> bool {
    0 <= i < accounts.len() && accounts[i].id@ == id
}

/// The map from each account id in `accounts` to the balance beside it.
pub open spec fn balances_of(accounts: Seq<Account>) -> Map<Seq<char>, nat> {
    Map::new(
        |id: Seq<char>| exists|i: int| entry_of(accounts, id, i),
        |id: Seq<char>| accounts[choose|i: int| entry_of(accounts, id, i)].balance as nat,
    )
}

/// Where ids are distinct, the entry of an id is the only one, so its
/// balance is the one the map gives.
pub proof fn lemma_balances_at(accounts: Seq<Account>, i: int)
    requires
        ids_distinct(accounts),
        0 <= i < accounts.len(),
    ensures
        balances_of(accounts).contains_key(accounts[i].id@),
        balances_of(accounts)[accounts[i].id@] == accounts[i].balance,
{
    let id = accounts[i].id@;
    assert(entry_of(accounts, id, i));
    let k = choose|k: int| entry_of(accounts, id, k);
    assert(k == i);
}

/// Writing a new balance into one entry changes the map at that id only.
pub proof fn lemma_balances_update(accounts: Seq<Account>, i: int, updated: Account)
    requires
        ids_distinct(accounts),
        0 <= i < accounts.len(),
        updated.id@ == accounts[i].id@,
    ensures
        ids_distinct(accounts.update(i, updated)),
        balances_of(accounts.update(i, updated)) == balances_of(accounts).insert(
            updated.id@,
            updated.balance as nat,
        ),
{
    let after = accounts.update(i, updated);
    assert(ids_distinct(after)) by {
        assert forall|a: int, b: int| 0 <= a < b < after.len() implies (#[trigger] after[a]).id@ != (
        #[trigger] after[b]).id@ by {
            assert(after[a].id@ == accounts[a].id@);
            assert(after[b].id@ == accounts[b].id@);
        }
    }
    let lhs = balances_of(after);
    let rhs = balances_of(accounts).insert(updated.id@, updated.balance as nat);
    assert forall|id: Seq<char>| lhs.contains_key(id) <==> rhs.contains_key(id) by {
        if lhs.contains_key(id) {
            let k = choose|k: int| entry_of(after, id, k);
            assert(entry_of(accounts, id, k));
        }
        if rhs.contains_key(id) {
            if id == updated.id@ {
                assert(entry_of(after, id, i));
            } else {
                let k = choose|k: int| entry_of(accounts, id, k);
                assert(entry_of(after, id, k));
            }
        }
    }
    assert forall|id: Seq<char>| lhs.contains_key(id) implies lhs[id] == rhs[id] by {
        let k = choose|k: int| entry_of(after, id, k);
        lemma_balances_at(after, k);
        if k != i {
            assert(entry_of(accounts, id, k));
            lemma_balances_at(accounts, k);
        }
    }
    assert(lhs =~= rhs);
}

/// Appending an entry under a new id adds that id to the map.
pub proof fn lemma_balances_push(accounts: Seq<Account>, added: Account)
    requires
        ids_distinct(accounts),
        !balances_of(accounts).contains_key(added.id@),
    ensures
        ids_distinct(accounts.push(added)),
        balances_of(accounts.push(added)) == balances_of(accounts).insert(
            added.id@,
            added.balance as nat,
        ),
{
    let after = accounts.push(added);
    assert(ids_distinct(after)) by {
        assert forall|a: int, b: int| 0 <= a < b < after.len() implies (#[trigger] after[a]).id@ != (
        #[trigger] after[b]).id@ by {
            if b == accounts.len() {
                assert(entry_of(accounts, accounts[a].id@, a));
            } else {
                assert(after[a] == accounts[a] && after[b] == accounts[b]);
            }
        }
    }
    let lhs = balances_of(after);
    let rhs = balances_of(accounts).insert(added.id@, added.balance as nat);
    assert forall|id: Seq<char>| lhs.contains_key(id) <==> rhs.contains_key(id) by {
        if lhs.contains_key(id) {
            let k = choose|k: int| entry_of(after, id, k);
            if k < accounts.len() {
                assert(entry_of(accounts, id, k));
            }
        }
        if rhs.contains_key(id) {
            if id == added.id@ {
                assert(entry_of(after, id, accounts.len() as int));
            } else {
                let k = choose|k: int| entry_of(accounts, id, k);
                assert(entry_of(after, id, k));
            }
        }
    }
    assert forall|id: Seq<char>| lhs.contains_key(id) implies lhs[id] == rhs[id] by {
        let k = choose|k: int| entry_of(after, id, k);
        lemma_balances_at(after, k);
        if k < accounts.len() {
            assert(entry_of(accounts, id, k));
            lemma_balances_at(accounts, k);
        }
    }
    assert(lhs =~= rhs);
}

/// Taking an entry out takes its id out of the map.
pub proof fn lemma_balances_remove(accounts: Seq<Account>, i: int)
    requires
        ids_distinct(accounts),
        0 <= i < accounts.len(),
    ensures
        ids_distinct(accounts.remove(i)),
        balances_of(accounts.remove(i)) == balances_of(accounts).remove(accounts[i].id@),
{
    let after = accounts.remove(i);
    let gone = accounts[i].id@;
    assert forall|k: int| 0 <= k < after.len() implies #[trigger] after[k] == accounts[if k < i {
        k
    } else {
        k + 1
    }] by {}
    assert(ids_distinct(after)) by {
        assert forall|a: int, b: int| 0 <= a < b < after.len() implies (#[trigger] after[a]).id@ != (
        #[trigger] after[b]).id@ by {
            let a0 = if a < i { a } else { a + 1 };
            let b0 = if b < i { b } else { b + 1 };
            assert(after[a] == accounts[a0] && after[b] == accounts[b0]);
        }
    }
    let lhs = balances_of(after);
    let rhs = balances_of(accounts).remove(gone);
    assert forall|id: Seq<char>| lhs.contains_key(id) <==> rhs.contains_key(id) by {
        if lhs.contains_key(id) {
            let k = choose|k: int| entry_of(after, id, k);
            let k0 = if k < i { k } else { k + 1 };
            assert(after[k] == accounts[k0]);
            assert(entry_of(accounts, id, k0));
        }
        if rhs.contains_key(id) {
            let k0 = choose|k: int| entry_of(accounts, id, k);
            let k = if k0 < i { k0 } else { k0 - 1 };
            assert(after[k] == accounts[k0]);
            assert(entry_of(after, id, k));
        }
    }
    assert forall|id: Seq<char>| lhs.contains_key(id) implies lhs[id] == rhs[id] by {
        let k = choose|k: int| entry_of(after, id, k);
        let k0 = if k < i { k } else { k + 1 };
        assert(after[k] == accounts[k0]);
        lemma_balances_at(after, k);
        lemma_balances_at(accounts, k0);
    }
    assert(lhs =~= rhs);
}

/// A ledger taken apart, as it is stored between calls: the accounts in the
/// order of their registration, and the total supply.
pub struct LedgerParts {
    pub accounts: Vec<Account>,
    pub total_supply: u128,
}

impl View for LedgerParts {
    type V = LedgerView;

    open spec fn view(&self) -> LedgerView {
        LedgerView {
            balances: balances_of(self.accounts@),
            total_supply: self.total_supply as nat,
        }
    }
}

/// Whether no account id occurs twice in `accounts`.
pub fn all_ids_distinct(accounts: &Vec<Account>) -> (distinct: bool)
    ensures
        distinct == ids_distinct(accounts@),
{
    let mut j: usize = 0;
    while j < accounts.len()
        invariant
            j <= accounts.len(),
            forall|a: int, b: int|
                0 <= a < b < j ==> (#[trigger] accounts@[a]).id@ != (#[trigger] accounts@[b]).id@,
        decreases accounts.len() - j,
    {
        let mut i: usize = 0;
        while i < j
            invariant
                i <= j < accounts.len(),
                forall|a: int| 0 <= a < i ==> (#[trigger] accounts@[a]).id@ != accounts@[j as int].id@,
            decreases j - i,
        {
            if accounts[i].id == accounts[j].id {
                assert(accounts@[i as int].id@ == accounts@[j as int].id@);
                return false;
            }
            i = i + 1;
        }
        j = j + 1;
    }
    true
}

impl View for Ledger {
    type V = LedgerView;

    closed spec fn view(&self) -> LedgerView {
        LedgerView {
            balances: balances_of(self.accounts@),
            total_supply: self.total_supply as nat,
        }
    }
}

impl Ledger {
    /// The representation is sound: each account is entered once.
    pub closed spec fn wf(&self) -> bool {
        ids_distinct(self.accounts@)
    }

    /// A ledger without accounts.
    pub fn new() -> (ledger: Ledger)
        ensures
            ledger.wf(),
            ledger@ == LedgerView::empty(),
    {
        let ledger = Ledger { accounts: Vec::new(), total_supply: 0 };
        assert(ledger@.balances =~= Map::empty());
        ledger
    }

    /// Puts a ledger together from its parts. `None` where an account id
    /// occurs twice among them.
    pub fn from_parts(parts: LedgerParts) -> (r: Option<Ledger>)
        ensures
            match r {
                Some(ledger) => ids_distinct(parts.accounts@) && ledger.wf() && ledger@ == parts@,
                None => !ids_distinct(parts.accounts@),
            },
    {
        if all_ids_distinct(&parts.accounts) {
            Some(Ledger { accounts: parts.accounts, total_supply: parts.total_supply })
        } else {
            None
        }
    }

    /// Takes the ledger apart.
    pub fn into_parts(self) -> (parts: LedgerParts)
        requires
            self.wf(),
        ensures
            ids_distinct(parts.accounts@),
            parts@ == self@,
    {
        LedgerParts { accounts: self.accounts, total_supply: self.total_supply }
    }

    /// Where the entry of `id` stands, if it has one.
    fn find(&self, id: &String) -> (found: Option<usize>)
        requires
            self.wf(),
        ensures
            match found {
                Some(i) => entry_of(self.accounts@, id@, i as int) && self@.balances.contains_key(
                    id@,
                ) && self@.balances[id@] == self.accounts@[i as int].balance,
                None => !self@.balances.contains_key(id@),
            },
    {
        let mut i: usize = 0;
        while i < self.accounts.len()
            invariant
                self.wf(),
                i <= self.accounts.len(),
                forall|k: int| 0 <= k < i ==> !entry_of(self.accounts@, id@, k),
            decreases self.accounts.len() - i,
        {
            if self.accounts[i].id == *id {
                proof {
                    lemma_balances_at(self.accounts@, i as int);
                }
                return Some(i);
            }
            i = i + 1;
        }
        None
    }

    /// Whether `id` is registered.
    pub fn is_registered(&self, id: &String) -> (registered: bool)
        requires
            self.wf(),
        ensures
            registered == self@.is_registered(id@),
    {
        self.find(id).is_some()
    }

    /// What `id` holds, if it is registered.
    pub fn balance_of(&self, id: &String) -> (balance: Option<u128>)
        requires
            self.wf(),
        ensures
            match balance {
                Some(b) => self@.is_registered(id@) && self@.balances[id@] == b,
                None => !self@.is_registered(id@),
            },
    {
        match self.find(id) {
            Some(i) => Some(self.accounts[i].balance),
            None => None,
        }
    }

    /// What `id` holds; zero where it is not registered.
    pub fn ft_balance_of(&self, id: &String) -> (balance: u128)
        requires
            self.wf(),
        ensures
            balance == self@.balance_or_zero(id@),
    {
        match self.find(id) {
            Some(i) => self.accounts[i].balance,
            None => 0,
        }
    }

    /// The sum issued: deposits less withdrawals.
    pub fn total_supply(&self) -> (supply: u128)
        ensures
            supply == self@.total_supply,
    {
        self.total_supply
    }

    /// Registers `id` with an empty balance, unless it is registered already.
    /// Returns whether the account is new.
    pub fn register_account(&mut self, id: &String) -> (fresh: bool)
        requires
            old(self).wf(),
        ensures
            final(self).wf(),
            fresh == !old(self)@.is_registered(id@),
            final(self)@ == old(self)@.register(id@),
    {
        if self.find(id).is_some() {
            return false;
        }
        let added = Account { id: id.clone(), balance: 0 };
        proof {
            lemma_balances_push(self.accounts@, added);
        }
        self.accounts.push(added);
        true
    }

    /// Writes `balance` into entry `i`.
    fn set_balance(&mut self, i: usize, balance: u128)
        requires
            old(self).wf(),
            i < old(self).accounts@.len(),
        ensures
            final(self).wf(),
            final(self).total_supply == old(self).total_supply,
            final(self).accounts@ == old(self).accounts@.update(
                i as int,
                Account { id: old(self).accounts@[i as int].id, balance },
            ),
            final(self)@.balances == old(self)@.balances.insert(
                old(self).accounts@[i as int].id@,
                balance as nat,
            ),
    {
        let id: String = self.accounts[i].id.clone();
        let updated = Account { id, balance };
        proof {
            lemma_balances_update(self.accounts@, i as int, updated);
        }
        self.accounts.set(i, updated);
    }

    /// Where a credit of `amount` to `id` would be written, with the balance
    /// and the supply after it.
    fn plan_deposit(&self, id: &String, amount: u128) -> (r: Result<(usize, u128, u128), AmmError>)
        requires
            self.wf(),
        ensures
            match r {
                Ok((at, balance, supply)) => entry_of(self.accounts@, id@, at as int)
                    && self@.deposit(id@, amount as nat) == Ok::<LedgerView, AmmError>(
                    LedgerView {
                        balances: self@.balances.insert(id@, balance as nat),
                        total_supply: supply as nat,
                    },
                ),
                Err(e) => self@.deposit(id@, amount as nat) == Err::<LedgerView, AmmError>(e),
            },
    {
        let at: usize = match self.find(id) {
            Some(at) => at,
            None => {
                return Err(AmmError::AccountNotRegistered);
            },
        };
        let balance: u128 = match self.accounts[at].balance.checked_add(amount) {
            Some(balance) => balance,
            None => {
                return Err(AmmError::ArithmeticOverflow);
            },
        };
        let supply: u128 = match self.total_supply.checked_add(amount) {
            Some(supply) => supply,
            None => {
                return Err(AmmError::ArithmeticOverflow);
            },
        };
        Ok((at, balance, supply))
    }

    /// Where a debit of `amount` from `id` would be written, with the
    /// balance and the supply after it.
    fn plan_withdraw(&self, id: &String, amount: u128) -> (r: Result<(usize, u128, u128), AmmError>)
        requires
            self.wf(),
        ensures
            match r {
                Ok((at, balance, supply)) => entry_of(self.accounts@, id@, at as int)
                    && self@.withdraw(id@, amount as nat) == Ok::<LedgerView, AmmError>(
                    LedgerView {
                        balances: self@.balances.insert(id@, balance as nat),
                        total_supply: supply as nat,
                    },
                ),
                Err(e) => self@.withdraw(id@, amount as nat) == Err::<LedgerView, AmmError>(e),
            },
    {
        let at: usize = match self.find(id) {
            Some(at) => at,
            None => {
                return Err(AmmError::AccountNotRegistered);
            },
        };
        let held: u128 = self.accounts[at].balance;
        if held < amount {
            return Err(AmmError::InsufficientBalance);
        }
        if self.total_supply < amount {
            return Err(AmmError::ArithmeticOverflow);
        }
        Ok((at, held - amount, self.total_supply - amount))
    }

    /// Where a transfer of `amount` from `from` to `to` would be written:
    /// the place and new balance of the one, then of the other.
    fn plan_transfer(&self, from: &String, to: &String, amount: u128) -> (r: Result<
        (usize, u128, usize, u128),
        AmmError,
    >)
        requires
            self.wf(),
        ensures
            match r {
                Ok((debit_at, debited, credit_at, credited)) => entry_of(
                    self.accounts@,
                    from@,
                    debit_at as int,
                ) && entry_of(self.accounts@, to@, credit_at as int) && from@ != to@
                    && self@.transfer(from@, to@, amount as nat) == Ok::<LedgerView, AmmError>(
                    LedgerView {
                        balances: self@.balances.insert(from@, debited as nat).insert(
                            to@,
                            credited as nat,
                        ),
                        total_supply: self@.total_supply,
                    },
                ),
                Err(e) => self@.transfer(from@, to@, amount as nat) == Err::<LedgerView, AmmError>(
                    e,
                ),
            },
    {
        if *from == *to {
            return Err(AmmError::SameAccount);
        }
        if amount == 0 {
            return Err(AmmError::ZeroAmount);
        }
        let (debit_at, debited, _) = match self.plan_withdraw(from, amount) {
            Ok(plan) => plan,
            Err(e) => {
                return Err(e);
            },
        };
        let credit_at: usize = match self.find(to) {
            Some(at) => at,
            None => {
                return Err(AmmError::AccountNotRegistered);
            },
        };
        let credited: u128 = match self.accounts[credit_at].balance.checked_add(amount) {
            Some(credited) => credited,
            None => {
                return Err(AmmError::ArithmeticOverflow);
            },
        };
        proof {
            let after_debit = self@.withdraw(from@, amount as nat).unwrap();
            assert(after_debit.deposit(to@, amount as nat).unwrap() =~= LedgerView {
                balances: self@.balances.insert(from@, debited as nat).insert(
                    to@,
                    credited as nat,
                ),
                total_supply: self@.total_supply,
            });
        }
        Ok((debit_at, debited, credit_at, credited))
    }

    /// Whether a credit of `amount` to `id` would be accepted, and if not,
    /// why not. Changes nothing.
    pub fn check_deposit(&self, id: &String, amount: u128) -> (r: Result<(), AmmError>)
        requires
            self.wf(),
        ensures
            match r {
                Ok(()) => self@.deposit(id@, amount as nat) is Ok,
                Err(e) => self@.deposit(id@, amount as nat) == Err::<LedgerView, AmmError>(e),
            },
    {
        match self.plan_deposit(id, amount) {
            Ok(_) => Ok(()),
            Err(e) => Err(e),
        }
    }

    /// Whether a debit of `amount` from `id` would be accepted, and if not,
    /// why not. Changes nothing.
    pub fn check_withdraw(&self, id: &String, amount: u128) -> (r: Result<(), AmmError>)
        requires
            self.wf(),
        ensures
            match r {
                Ok(()) => self@.withdraw(id@, amount as nat) is Ok,
                Err(e) => self@.withdraw(id@, amount as nat) == Err::<LedgerView, AmmError>(e),
            },
    {
        match self.plan_withdraw(id, amount) {
            Ok(_) => Ok(()),
            Err(e) => Err(e),
        }
    }

    /// Whether a transfer of `amount` from `from` to `to` would be accepted,
    /// and if not, why not. Changes nothing.
    pub fn check_transfer(&self, from: &String, to: &String, amount: u128) -> (r: Result<
        (),
        AmmError,
    >)
        requires
            self.wf(),
        ensures
            match r {
                Ok(()) => self@.transfer(from@, to@, amount as nat) is Ok,
                Err(e) => self@.transfer(from@, to@, amount as nat) == Err::<LedgerView, AmmError>(
                    e,
                ),
            },
    {
        match self.plan_transfer(from, to, amount) {
            Ok(_) => Ok(()),
            Err(e) => Err(e),
        }
    }

    /// Credits `amount` to `id`.
    ///
    /// Refused with `AccountNotRegistered` where `id` is unknown, and with
    /// `ArithmeticOverflow` where the balance or the total supply would pass
    /// 128 bits.
    pub fn deposit(&mut self, id: &String, amount: u128) -> (r: Result<(), AmmError>)
        requires
            old(self).wf(),
        ensures
            final(self).wf(),
            match r {
                Ok(()) => old(self)@.deposit(id@, amount as nat) == Ok::<LedgerView, AmmError>(
                    final(self)@,
                ),
                Err(e) => old(self)@.deposit(id@, amount as nat) == Err::<LedgerView, AmmError>(e)
                    && final(self)@ == old(self)@,
            },
    {
        match self.plan_deposit(id, amount) {
            Ok((at, balance, supply)) => {
                self.set_balance(at, balance);
                self.total_supply = supply;
                Ok(())
            },
            Err(e) => Err(e),
        }
    }

    /// Debits `amount` from `id`.
    ///
    /// Refused with `AccountNotRegistered` where `id` is unknown, with
    /// `InsufficientBalance` where it holds less than `amount`, and with
    /// `ArithmeticOverflow` where the total supply is less than `amount`.
    pub fn withdraw(&mut self, id: &String, amount: u128) -> (r: Result<(), AmmError>)
        requires
            old(self).wf(),
        ensures
            final(self).wf(),
            match r {
                Ok(()) => old(self)@.withdraw(id@, amount as nat) == Ok::<LedgerView, AmmError>(
                    final(self)@,
                ),
                Err(e) => old(self)@.withdraw(id@, amount as nat) == Err::<LedgerView, AmmError>(e)
                    && final(self)@ == old(self)@,
            },
    {
        match self.plan_withdraw(id, amount) {
            Ok((at, balance, supply)) => {
                self.set_balance(at, balance);
                self.total_supply = supply;
                Ok(())
            },
            Err(e) => Err(e),
        }
    }

    /// Moves `amount` from `from` to `to`, or changes nothing.
    ///
    /// Refused with `SameAccount` where the two are one, with `ZeroAmount`
    /// where nothing is to move, and else for the reason for which the debit
    /// or, after it, the credit is refused.
    pub fn transfer(&mut self, from: &String, to: &String, amount: u128) -> (r: Result<
        (),
        AmmError,
    >)
        requires
            old(self).wf(),
        ensures
            final(self).wf(),
            match r {
                Ok(()) => old(self)@.transfer(from@, to@, amount as nat) == Ok::<
                    LedgerView,
                    AmmError,
                >(final(self)@),
                Err(e) => old(self)@.transfer(from@, to@, amount as nat) == Err::<
                    LedgerView,
                    AmmError,
                >(e) && final(self)@ == old(self)@,
            },
    {
        match self.plan_transfer(from, to, amount) {
            Ok((debit_at, debited, credit_at, credited)) => {
                self.set_balance(debit_at, debited);
                self.set_balance(credit_at, credited);
                Ok(())
            },
            Err(e) => Err(e),
        }
    }

    /// Strikes `id` from the ledger and burns what it held. Returns the
    /// balance burnt, or `None` where `id` was not registered.
    ///
    /// Refused with `PositiveBalance` where the account holds something and
    /// `force` is not set, and with `ArithmeticOverflow` where it holds more
    /// than the total supply.
    pub fn unregister(&mut self, id: &String, force: bool) -> (r: Result<Option<u128>, AmmError>)
        requires
            old(self).wf(),
        ensures
            final(self).wf(),
            match r {
                Ok(burnt) => old(self)@.unregister(id@, force) == Ok::<LedgerView, AmmError>(
                    final(self)@,
                ) && match burnt {
                    Some(b) => old(self)@.is_registered(id@) && b == old(self)@.balances[id@],
                    None => !old(self)@.is_registered(id@),
                },
                Err(e) => old(self)@.unregister(id@, force) == Err::<LedgerView, AmmError>(e)
                    && final(self)@ == old(self)@,
            },
    {
        let i: usize = match self.find(id) {
            Some(i) => i,
            None => {
                return Ok(None);
            },
        };
        let held: u128 = self.accounts[i].balance;
        if held > 0 && !force {
            return Err(AmmError::PositiveBalance);
        }
        if self.total_supply < held {
            return Err(AmmError::ArithmeticOverflow);
        }
        proof {
            lemma_balances_remove(self.accounts@, i as int);
        }
        self.accounts.remove(i);
        self.total_supply = self.total_supply - held;
        Ok(Some(held))
    }
}

/// A new ledger with `account_id` registered in it, holding nothing.
pub fn init_token(account_id: &String) -> (ledger: Ledger)
    ensures
        ledger.wf(),
        ledger@ == LedgerView::empty().register(account_id@),
{
    let mut ledger = Ledger::new();
    ledger.register_account(account_id);
    ledger
}

} // verus!
