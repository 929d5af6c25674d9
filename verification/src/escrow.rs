use vstd::prelude::*;
use crate::identity::Identity;

verus! {

/// How long the administrator must have been silent before depositors may take
/// their funds back on their own: seven days, in seconds.
pub const INACTIVITY_WINDOW: u64 = 604_800;

/// Why an operation on the escrow ledger was refused.
#[derive(Clone, Copy, Debug, PartialEq, Eq, Structural)]
pub enum EscrowError {
    /// The identity concerned has not authorized the call, or no administrator is
    /// on record.
    Unauthorized,
    /// The amount is not positive.
    InvalidAmount,
    /// The funds could not be moved into custody.
    TransferFailed,
    /// The administrator has been active within the inactivity window.
    NotYetEligible,
}

/// The funds held for one depositor.
#[derive(Clone, Copy, Debug, PartialEq, Eq, Structural)]
pub struct Account {
    pub owner: Identity,
    pub balance: i128,
}

/// The funds held in custody, depositor by depositor, and the time at which the
/// administrator was last seen.
pub struct Escrow {
    admin: Option<Identity>,
    last_active: u64,
    accounts: Vec<Account>,
}

/// What an [`Escrow`] holds, as mathematical values.
pub struct EscrowView {
    /// The administrator, once the ledger has been initialized.
    pub admin: Option<Identity>,
    /// When the administrator was last active; zero before initialization.
    pub last_active: u64,
    /// The balances on record. A depositor without a record has none.
    pub balances: Map<Identity, i128>,
}

impl EscrowView {
    /// What holds of a ledger after every operation: every balance on record is
    /// positive.
    pub open spec fn wf(self) -> bool {
        forall|user: Identity| #[trigger]
            self.balances.contains_key(user) ==> self.balances[user] > 0
    }

    /// The funds held for `user`: zero where none are on record.
    pub open spec fn balance_of(self, user: Identity) -> i128 {
        if self.balances.contains_key(user) {
            self.balances[user]
        } else {
            0
        }
    }

    /// Whether, at time `now`, the administrator has been silent for longer than
    /// the inactivity window.
    pub open spec fn admin_inactive(self, now: u64) -> bool {
        now > self.last_active + INACTIVITY_WINDOW
    }

    /// Whether the ledger may be initialized, and if not, why not.
    pub open spec fn initialize_outcome(self, authorized: bool) -> Result<(), EscrowError> {
        if authorized {
            Ok(())
        } else {
            Err(EscrowError::Unauthorized)
        }
    }

    /// The ledger after `admin` has initialized it at time `now`.
    pub open spec fn initialized(self, admin: Identity, now: u64) -> EscrowView {
        EscrowView { admin: Some(admin), last_active: now, ..self }
    }

    /// Whether the administrator's sign of life is accepted, and if not, why not.
    pub open spec fn admin_action_outcome(self, authorized: bool) -> Result<(), EscrowError> {
        if authorized && self.admin is Some {
            Ok(())
        } else {
            Err(EscrowError::Unauthorized)
        }
    }

    /// The ledger after the administrator has been seen at time `now`.
    pub open spec fn refreshed(self, now: u64) -> EscrowView {
        EscrowView { last_active: now, ..self }
    }

    /// Whether a deposit is credited, and if not, why not.
    pub open spec fn deposit_outcome(self, authorized: bool, amount: i128, transferred: bool) -> Result<
        (),
        EscrowError,
    > {
        if !authorized {
            Err(EscrowError::Unauthorized)
        } else if amount <= 0 {
            Err(EscrowError::InvalidAmount)
        } else if !transferred {
            Err(EscrowError::TransferFailed)
        } else {
            Ok(())
        }
    }

    /// The ledger after `amount` has been credited to `user`.
    pub open spec fn deposited(self, user: Identity, amount: i128) -> EscrowView {
        EscrowView {
            balances: self.balances.insert(user, (self.balance_of(user) + amount) as i128),
            ..self
        }
    }

    /// The amount that `user` takes back in an emergency at time `now`, or why
    /// nothing can be taken back.
    pub open spec fn withdraw_outcome(self, authorized: bool, user: Identity, now: u64) -> Result<
        i128,
        EscrowError,
    > {
        if !authorized {
            Err(EscrowError::Unauthorized)
        } else if !self.admin_inactive(now) {
            Err(EscrowError::NotYetEligible)
        } else {
            Ok(self.balance_of(user))
        }
    }

    /// The ledger after `user` has taken everything back.
    pub open spec fn withdrawn(self, user: Identity) -> EscrowView {
        EscrowView { balances: self.balances.remove(user), ..self }
    }

    /// The ledger after `user` has asked for an emergency withdrawal at time `now`:
    /// without the funds of `user` where the withdrawal is granted, as it was where
    /// it is refused.
    pub open spec fn after_withdrawal(self, authorized: bool, user: Identity, now: u64) -> EscrowView {
        if self.withdraw_outcome(authorized, user, now) is Ok {
            self.withdrawn(user)
        } else {
            self
        }
    }
}

/// Whether an account of `user` stands among `accounts`.
pub open spec fn has_account(accounts: Seq<Account>, user: Identity) -> bool {
    exists|i: int| 0 <= i < accounts.len() && #[trigger] accounts[i].owner == user
}

/// Where the account of `user` stands among `accounts`.
pub open spec fn account_at(accounts: Seq<Account>, user: Identity) -> int {
    choose|i: int| 0 <= i < accounts.len() && #[trigger] accounts[i].owner == user
}

/// Whether no two of `accounts` have the same owner.
pub open spec fn distinct_owners(accounts: Seq<Account>) -> bool {
    forall|i: int, j: int|
        0 <= i < accounts.len() && 0 <= j < accounts.len() && i != j ==> #[trigger] accounts[i].owner
            != #[trigger] accounts[j].owner
}

/// The balances that `accounts` record, by owner.
pub open spec fn balances_of(accounts: Seq<Account>) -> Map<Identity, i128> {
    Map::new(
        |user: Identity| has_account(accounts, user),
        |user: Identity| accounts[account_at(accounts, user)].balance,
    )
}

/// An owner's account is found where it stands.
proof fn lemma_account_at(accounts: Seq<Account>, i: int)
    requires
        distinct_owners(accounts),
        0 <= i < accounts.len(),
    ensures
        has_account(accounts, accounts[i].owner),
        account_at(accounts, accounts[i].owner) == i,
        balances_of(accounts)[accounts[i].owner] == accounts[i].balance,
{
}

impl View for Escrow {
    type V = EscrowView;

    closed spec fn view(&self) -> EscrowView {
        EscrowView {
            admin: self.admin,
            last_active: self.last_active,
            balances: balances_of(self.accounts@),
        }
    }
}

impl Escrow {
    /// What holds of a ledger after every operation: no depositor has two
    /// accounts, and every balance on record is positive.
    pub closed spec fn wf(&self) -> bool {
        &&& distinct_owners(self.accounts@)
        &&& forall|i: int| 0 <= i < self.accounts@.len() ==> (#[trigger] self.accounts@[i]).balance > 0
    }

    /// A well-formed ledger records positive balances only.
    pub proof fn lemma_wf_view(&self)
        requires
            self.wf(),
        ensures
            self@.wf(),
    {
        assert forall|user: Identity| #[trigger]
            self@.balances.contains_key(user) implies self@.balances[user] > 0 by {
            let i = account_at(self.accounts@, user);
            assert(self.accounts@[i].balance > 0);
        }
    }

    /// A ledger that has not been initialized and holds nothing.
    pub fn new() -> (escrow: Escrow)
        ensures
            escrow.wf(),
            escrow@.admin is None,
            escrow@.last_active == 0,
            escrow@.balances == Map::<Identity, i128>::empty(),
    {
        let escrow = Escrow { admin: None, last_active: 0, accounts: Vec::new() };
        assert(escrow@.balances =~= Map::<Identity, i128>::empty());
        escrow
    }

    /// The ledger with the given administrator, time and accounts, if no depositor
    /// has two of the accounts and every balance in them is positive.
    pub fn restore(admin: Option<Identity>, last_active: u64, accounts: Vec<Account>) -> (escrow:
        Option<Escrow>)
        ensures
            escrow is Some <==> {
                &&& distinct_owners(accounts@)
                &&& forall|i: int| 0 <= i < accounts@.len() ==> (#[trigger] accounts@[i]).balance > 0
            },
            escrow matches Some(e) ==> {
                &&& e.wf()
                &&& e@.admin == admin
                &&& e@.last_active == last_active
                &&& e@.balances == balances_of(accounts@)
            },
    {
        let mut i: usize = 0;
        while i < accounts.len()
            invariant
                i <= accounts@.len(),
                forall|k: int| 0 <= k < i ==> (#[trigger] accounts@[k]).balance > 0,
                forall|a: int, b: int|
                    0 <= a < b < i ==> (#[trigger] accounts@[a]).owner != (
                    #[trigger] accounts@[b]).owner,
            decreases accounts@.len() - i,
        {
            if accounts[i].balance <= 0 {
                return None;
            }
            let mut j: usize = 0;
            while j < i
                invariant
                    j <= i < accounts@.len(),
                    forall|a: int| 0 <= a < j ==> (#[trigger] accounts@[a]).owner != accounts@[i as int].owner,
                decreases i - j,
            {
                if accounts[j].owner == accounts[i].owner {
                    return None;
                }
                j += 1;
            }
            i += 1;
        }
        assert(distinct_owners(accounts@)) by {
            assert forall|a: int, b: int|
                0 <= a < accounts@.len() && 0 <= b < accounts@.len() && a != b implies (
            #[trigger] accounts@[a]).owner != (#[trigger] accounts@[b]).owner by {
                if a < b {
                } else {
                    assert(accounts@[b].owner != accounts@[a].owner);
                }
            }
        }
        Some(Escrow { admin, last_active, accounts })
    }

    /// Where the account of `user` stands, if there is one.
    fn find(&self, user: Identity) -> (found: Option<usize>)
        ensures
            match found {
                Some(i) => i < self.accounts@.len() && self.accounts@[i as int].owner == user,
                None => !has_account(self.accounts@, user),
            },
    {
        let mut i: usize = 0;
        while i < self.accounts.len()
            invariant
                i <= self.accounts@.len(),
                forall|j: int| 0 <= j < i ==> (#[trigger] self.accounts@[j]).owner != user,
            decreases self.accounts@.len() - i,
        {
            if self.accounts[i].owner == user {
                return Some(i);
            }
            i += 1;
        }
        None
    }

    /// Records `admin` as the administrator, seen at time `now`. An earlier
    /// administrator is replaced. Fails with `Unauthorized`, and changes nothing,
    /// where `admin` has not authorized the call.
    pub fn initialize(&mut self, authorized: bool, admin: Identity, now: u64) -> (outcome: Result<
        (),
        EscrowError,
    >)
        requires
            old(self).wf(),
        ensures
            outcome == old(self)@.initialize_outcome(authorized),
            outcome is Ok ==> final(self)@ == old(self)@.initialized(admin, now),
            outcome is Err ==> final(self)@ == old(self)@,
            final(self).wf(),
    {
        if !authorized {
            return Err(EscrowError::Unauthorized);
        }
        self.admin = Some(admin);
        self.last_active = now;
        Ok(())
    }

    /// Notes that the administrator is active at time `now`. Fails with
    /// `Unauthorized`, and changes nothing, where the administrator on record has
    /// not authorized the call or none is on record.
    pub fn admin_action(&mut self, authorized: bool, now: u64) -> (outcome: Result<(), EscrowError>)
        requires
            old(self).wf(),
        ensures
            outcome == old(self)@.admin_action_outcome(authorized),
            outcome is Ok ==> final(self)@ == old(self)@.refreshed(now),
            outcome is Err ==> final(self)@ == old(self)@,
            final(self).wf(),
    {
        if !authorized || self.admin.is_none() {
            return Err(EscrowError::Unauthorized);
        }
        self.last_active = now;
        Ok(())
    }

    /// Credits `amount` to `user` once the funds have been moved into custody.
    /// Fails, and changes nothing, where `user` has not authorized the call, the
    /// amount is not positive, or the funds were not moved. The time at which the
    /// administrator was last active stays as it is.
    pub fn deposit(&mut self, authorized: bool, user: Identity, amount: i128, transferred: bool) -> (outcome:
        Result<(), EscrowError>)
        requires
            old(self).wf(),
            old(self)@.deposit_outcome(authorized, amount, transferred) is Ok ==> old(
                self,
            )@.balance_of(user) + amount <= i128::MAX,
        ensures
            outcome == old(self)@.deposit_outcome(authorized, amount, transferred),
            outcome is Ok ==> final(self)@ == old(self)@.deposited(user, amount),
            outcome is Err ==> final(self)@ == old(self)@,
            final(self).wf(),
    {
        if !authorized {
            return Err(EscrowError::Unauthorized);
        }
        if amount <= 0 {
            return Err(EscrowError::InvalidAmount);
        }
        if !transferred {
            return Err(EscrowError::TransferFailed);
        }
        let ghost before = self.accounts@;
        match self.find(user) {
            Some(i) => {
                proof {
                    lemma_account_at(before, i as int);
                }
                let held = self.accounts[i].balance;
                self.accounts.set(i, Account { owner: user, balance: held + amount });
                proof {
                    let after = self.accounts@;
                    assert(distinct_owners(after)) by {
                        assert forall|a: int, b: int|
                            0 <= a < after.len() && 0 <= b < after.len() && a != b implies #[trigger] after[a].owner
                                != #[trigger] after[b].owner by {
                            assert(after[a].owner == before[a].owner);
                            assert(after[b].owner == before[b].owner);
                        }
                    }
                    assert forall|u: Identity| has_account(after, u) == has_account(before, u) by {
                        if has_account(after, u) {
                            let k = account_at(after, u);
                            assert(before[k].owner == u);
                        }
                        if has_account(before, u) {
                            let k = account_at(before, u);
                            assert(after[k].owner == u);
                        }
                    }
                    assert forall|u: Identity| has_account(after, u) implies balances_of(after)[u] == old(
                        self,
                    )@.deposited(user, amount).balances[u] by {
                        let k = account_at(after, u);
                        lemma_account_at(after, k);
                        lemma_account_at(before, k);
                    }
                    assert(self@.balances =~= old(self)@.deposited(user, amount).balances);
                }
            },
            None => {
                self.accounts.push(Account { owner: user, balance: amount });
                proof {
                    let after = self.accounts@;
                    let last = before.len() as int;
                    assert(distinct_owners(after)) by {
                        assert forall|a: int, b: int|
                            0 <= a < after.len() && 0 <= b < after.len() && a != b implies #[trigger] after[a].owner
                                != #[trigger] after[b].owner by {
                            if a < last {
                                assert(after[a].owner == before[a].owner);
                            }
                            if b < last {
                                assert(after[b].owner == before[b].owner);
                            }
                        }
                    }
                    assert forall|u: Identity|
                        has_account(after, u) == (u == user || has_account(before, u)) by {
                        if has_account(after, u) {
                            let k = account_at(after, u);
                            if k < last {
                                assert(before[k].owner == u);
                            }
                        }
                        if has_account(before, u) {
                            let k = account_at(before, u);
                            assert(after[k].owner == u);
                        }
                        if u == user {
                            assert(after[last].owner == u);
                        }
                    }
                    assert forall|u: Identity| has_account(after, u) implies balances_of(after)[u] == old(
                        self,
                    )@.deposited(user, amount).balances[u] by {
                        let k = account_at(after, u);
                        lemma_account_at(after, k);
                        if k < last {
                            lemma_account_at(before, k);
                        }
                    }
                    assert(self@.balances =~= old(self)@.deposited(user, amount).balances);
                }
            },
        }
        Ok(())
    }

    /// Releases everything held for `user` once the administrator has been silent
    /// for longer than the inactivity window, and returns the amount that is to be
    /// handed back; with nothing held, that is zero and nothing changes. Fails, and
    /// changes nothing, where `user` has not authorized the call or the window has
    /// not passed.
    pub fn emergency_withdraw(&mut self, authorized: bool, user: Identity, now: u64) -> (outcome:
        Result<i128, EscrowError>)
        requires
            old(self).wf(),
        ensures
            outcome == old(self)@.withdraw_outcome(authorized, user, now),
            final(self)@ == old(self)@.after_withdrawal(authorized, user, now),
            outcome is Ok ==> final(self)@ == old(self)@.withdrawn(user),
            outcome is Err ==> final(self)@ == old(self)@,
            final(self).wf(),
    {
        if !authorized {
            return Err(EscrowError::Unauthorized);
        }
        if now <= self.last_active || now - self.last_active <= INACTIVITY_WINDOW {
            return Err(EscrowError::NotYetEligible);
        }
        let ghost before = self.accounts@;
        match self.find(user) {
            Some(i) => {
                proof {
                    lemma_account_at(before, i as int);
                }
                let account = self.accounts.remove(i);
                proof {
                    let after = self.accounts@;
                    let gap = i as int;
                    assert forall|k: int| 0 <= k < after.len() implies after[k] == before[if k < gap {
                        k
                    } else {
                        k + 1
                    }] by {}
                    assert(distinct_owners(after)) by {
                        assert forall|a: int, b: int|
                            0 <= a < after.len() && 0 <= b < after.len() && a != b implies #[trigger] after[a].owner
                                != #[trigger] after[b].owner by {
                            let a0 = if a < gap { a } else { a + 1 };
                            let b0 = if b < gap { b } else { b + 1 };
                            assert(after[a] == before[a0]);
                            assert(after[b] == before[b0]);
                        }
                    }
                    assert forall|u: Identity|
                        has_account(after, u) == (u != user && has_account(before, u)) by {
                        if has_account(after, u) {
                            let k = account_at(after, u);
                            let k0 = if k < gap { k } else { k + 1 };
                            assert(after[k] == before[k0]);
                            assert(before[k0].owner == u);
                        }
                        if u != user && has_account(before, u) {
                            let k0 = account_at(before, u);
                            let k = if k0 < gap { k0 } else { k0 - 1 };
                            assert(after[k] == before[k0]);
                            assert(after[k].owner == u);
                        }
                    }
                    assert forall|u: Identity| has_account(after, u) implies balances_of(after)[u]
                        == balances_of(before)[u] by {
                        let k = account_at(after, u);
                        let k0 = if k < gap { k } else { k + 1 };
                        assert(after[k] == before[k0]);
                        lemma_account_at(after, k);
                        lemma_account_at(before, k0);
                    }
                    assert(self@.balances =~= old(self)@.balances.remove(user));
                    assert forall|k: int| 0 <= k < after.len() implies (#[trigger] after[k]).balance
                        > 0 by {
                        let k0 = if k < gap { k } else { k + 1 };
                        assert(after[k] == before[k0]);
                    }
                }
                Ok(account.balance)
            },
            None => {
                assert(self@.balances =~= old(self)@.balances.remove(user));
                Ok(0)
            },
        }
    }

    /// The funds held for `user`: zero where none are on record.
    pub fn get_user_balance(&self, user: Identity) -> (balance: i128)
        requires
            self.wf(),
        ensures
            balance == self@.balance_of(user),
    {
        match self.find(user) {
            Some(i) => {
                proof {
                    lemma_account_at(self.accounts@, i as int);
                }
                self.accounts[i].balance
            },
            None => 0,
        }
    }

    /// When the administrator was last active: zero before initialization.
    pub fn get_last_active_timestamp(&self) -> (at: u64)
        ensures
            at == self@.last_active,
    {
        self.last_active
    }

    /// The administrator, once the ledger has been initialized.
    pub fn admin(&self) -> (admin: Option<Identity>)
        ensures
            admin == self@.admin,
    {
        self.admin
    }
}

} // verus!
