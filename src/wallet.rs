use vstd::prelude::*;

use crate::account::AccountId;
use crate::model::{Event, LedgerError, LedgerModel, Request};

verus! {

/// One stored balance.
#[derive(Clone, Debug)]
pub struct BalanceEntry {
    pub account: AccountId,
    pub amount: i128,
}

/// What a successful operation announces; the host publishes it.
#[derive(Clone, Debug)]
pub enum Notification {
    Init { admin: AccountId },
    Credit { user: AccountId, amount: i128, new_balance: i128 },
    Debit { user: AccountId, amount: i128, new_balance: i128 },
    SetAdmin { new_admin: AccountId },
    Pause,
    Unpause,
}

impl View for Notification {
    type V = Event;

    open spec fn view(&self) -> Event {
        match *self {
            Notification::Init { admin } => Event::Init { admin: admin@ },
            Notification::Credit { user, amount, new_balance } => Event::Credit {
                user: user@,
                amount: amount as int,
                new_balance: new_balance as int,
            },
            Notification::Debit { user, amount, new_balance } => Event::Debit {
                user: user@,
                amount: amount as int,
                new_balance: new_balance as int,
            },
            Notification::SetAdmin { new_admin } => Event::SetAdmin { new_admin: new_admin@ },
            Notification::Pause => Event::Pause,
            Notification::Unpause => Event::Unpause,
        }
    }
}

/// No account appears twice in the table.
pub open spec fn keys_unique(entries: Seq<BalanceEntry>) -> bool {
    forall|i: int, j: int|
        0 <= i < j < entries.len() ==> #[trigger] entries[i].account@ != #[trigger] entries[j].account@
}

/// No stored balance is negative.
pub open spec fn amounts_non_negative(entries: Seq<BalanceEntry>) -> bool {
    forall|i: int| 0 <= i < entries.len() ==> 0 <= #[trigger] entries[i].amount
}

/// The balance stored for `u`, if any (the last entry for `u` counts).
pub open spec fn lookup(entries: Seq<BalanceEntry>, u: Seq<u8>) -> Option<int>
    decreases entries.len(),
{
    if entries.len() == 0 {
        None
    } else if entries.last().account@ == u {
        Some(entries.last().amount as int)
    } else {
        lookup(entries.drop_last(), u)
    }
}

/// The balance table that the entries stand for.
pub open spec fn table_of(entries: Seq<BalanceEntry>) -> Map<Seq<u8>, int> {
    Map::new(|u: Seq<u8>| lookup(entries, u) is Some, |u: Seq<u8>| lookup(entries, u)->0)
}

proof fn lemma_lookup_found(entries: Seq<BalanceEntry>, i: int)
    requires
        keys_unique(entries),
        0 <= i < entries.len(),
    ensures
        lookup(entries, entries[i].account@) == Some(entries[i].amount as int),
    decreases entries.len(),
{
    if i < entries.len() - 1 {
        let rest = entries.drop_last();
        assert(entries[i].account@ != entries[entries.len() - 1].account@);
        assert(rest[i] == entries[i]);
        lemma_lookup_found(rest, i);
    }
}

proof fn lemma_lookup_absent(entries: Seq<BalanceEntry>, u: Seq<u8>)
    requires
        forall|i: int| 0 <= i < entries.len() ==> #[trigger] entries[i].account@ != u,
    ensures
        lookup(entries, u) is None,
    decreases entries.len(),
{
    if entries.len() > 0 {
        let rest = entries.drop_last();
        assert(entries.last().account@ != u);
        assert forall|i: int| 0 <= i < rest.len() implies #[trigger] rest[i].account@ != u by {
            assert(rest[i] == entries[i]);
        }
        lemma_lookup_absent(rest, u);
    }
}

proof fn lemma_lookup_bounds(entries: Seq<BalanceEntry>, u: Seq<u8>)
    requires
        amounts_non_negative(entries),
    ensures
        lookup(entries, u) matches Some(v) ==> 0 <= v <= i128::MAX,
    decreases entries.len(),
{
    if entries.len() > 0 {
        let rest = entries.drop_last();
        assert(0 <= entries[entries.len() - 1].amount);
        assert forall|i: int| 0 <= i < rest.len() implies 0 <= #[trigger] rest[i].amount by {
            assert(rest[i] == entries[i]);
        }
        lemma_lookup_bounds(rest, u);
    }
}

/// Replacing the amount of one entry changes that account's balance only.
proof fn lemma_table_update(entries: Seq<BalanceEntry>, i: int, e: BalanceEntry)
    requires
        keys_unique(entries),
        0 <= i < entries.len(),
        e.account@ == entries[i].account@,
    ensures
        keys_unique(entries.update(i, e)),
        table_of(entries.update(i, e)) == table_of(entries).insert(e.account@, e.amount as int),
{
    let next = entries.update(i, e);
    assert forall|a: int, b: int| 0 <= a < b < next.len() implies #[trigger] next[a].account@
        != #[trigger] next[b].account@ by {
        assert(entries[a].account@ != entries[b].account@);
    }
    assert forall|u: Seq<u8>| lookup(next, u) == if u == e.account@ {
        Some(e.amount as int)
    } else {
        lookup(entries, u)
    } by {
        if u == e.account@ {
            lemma_lookup_found(next, i);
        } else if exists|j: int| 0 <= j < entries.len() && entries[j].account@ == u {
            let j = choose|j: int| 0 <= j < entries.len() && entries[j].account@ == u;
            lemma_lookup_found(entries, j);
            lemma_lookup_found(next, j);
        } else {
            lemma_lookup_absent(entries, u);
            assert forall|k: int| 0 <= k < next.len() implies #[trigger] next[k].account@ != u by {
                if k != i {
                    assert(entries[k].account@ != u);
                }
            }
            lemma_lookup_absent(next, u);
        }
    }
    assert(table_of(next) =~= table_of(entries).insert(e.account@, e.amount as int));
}

/// Appending an entry for a new account adds that account's balance only.
proof fn lemma_table_push(entries: Seq<BalanceEntry>, e: BalanceEntry)
    requires
        keys_unique(entries),
        forall|i: int| 0 <= i < entries.len() ==> #[trigger] entries[i].account@ != e.account@,
    ensures
        keys_unique(entries.push(e)),
        table_of(entries.push(e)) == table_of(entries).insert(e.account@, e.amount as int),
{
    let next = entries.push(e);
    assert(next.drop_last() =~= entries);
    assert forall|a: int, b: int| 0 <= a < b < next.len() implies #[trigger] next[a].account@
        != #[trigger] next[b].account@ by {
        if b == entries.len() {
            assert(entries[a].account@ != e.account@);
        } else {
            assert(entries[a].account@ != entries[b].account@);
        }
    }
    assert(table_of(next) =~= table_of(entries).insert(e.account@, e.amount as int));
}

/// The ledger that one contract instance keeps: its administrator, if
/// initialized; its balance table; its pause flag.
pub struct RentWallet {
    admin: Option<AccountId>,
    entries: Vec<BalanceEntry>,
    paused: bool,
}

impl View for RentWallet {
    type V = LedgerModel;

    closed spec fn view(&self) -> LedgerModel {
        LedgerModel {
            admin: match self.admin {
                Some(a) => Some(a@),
                None => None,
            },
            balances: table_of(self.entries@),
            paused: self.paused,
        }
    }
}

/// `r` reports `outcome` and `after` is the state that it leaves: the next
/// state on success, `before` unchanged on refusal.
pub open spec fn reports(
    before: LedgerModel,
    after: LedgerModel,
    r: Result<Notification, LedgerError>,
    outcome: Result<(LedgerModel, Event), LedgerError>,
) -> bool {
    match outcome {
        Ok((next, event)) => after == next && r is Ok && r->Ok_0@ == event,
        Err(e) => after == before && r == Err::<Notification, LedgerError>(e),
    }
}

impl RentWallet {
    #[verifier::type_invariant]
    spec fn well_formed(self) -> bool {
        &&& keys_unique(self.entries@)
        &&& amounts_non_negative(self.entries@)
    }

    /// Every stored balance of the model is between zero and `i128::MAX`.
    proof fn lemma_model_wf(&self)
        requires
            self.well_formed(),
        ensures
            self@.wf(),
    {
        assert forall|u: Seq<u8>| #[trigger] self@.balances.contains_key(u) implies 0
            <= self@.balances[u] <= i128::MAX by {
            lemma_lookup_bounds(self.entries@, u);
        }
    }

    /// A new instance: no administrator, no balances, not paused.
    pub fn new() -> (r: RentWallet)
        ensures
            r@ == LedgerModel::fresh(),
    {
        let r = RentWallet { admin: None, entries: Vec::new(), paused: false };
        assert(table_of(r.entries@) =~= Map::empty());
        r
    }

    /// Rebuilds a ledger from its stored parts. `None` when the table names an
    /// account twice or holds a negative balance.
    pub fn restore(admin: Option<AccountId>, entries: Vec<BalanceEntry>, paused: bool) -> (r: Option<
        RentWallet,
    >)
        ensures
            r is Some <==> keys_unique(entries@) && amounts_non_negative(entries@),
            r matches Some(w) ==> w@ == (LedgerModel {
                admin: match admin {
                    Some(a) => Some(a@),
                    None => None,
                },
                balances: table_of(entries@),
                paused,
            }),
    {
        let n = entries.len();
        let mut i: usize = 0;
        while i < n
            invariant
                n == entries@.len(),
                i <= n,
                keys_unique(entries@.take(i as int)),
                amounts_non_negative(entries@.take(i as int)),
            decreases n - i,
        {
            if entries[i].amount < 0 {
                assert(entries@[i as int].amount < 0);
                return None;
            }
            let mut j: usize = 0;
            while j < i
                invariant
                    n == entries@.len(),
                    j <= i < n,
                    forall|k: int| 0 <= k < j ==> #[trigger] entries@[k].account@ != entries@[i as int].account@,
                decreases i - j,
            {
                if entries[j].account == entries[i].account {
                    assert(entries@[j as int].account@ == entries@[i as int].account@);
                    return None;
                }
                j = j + 1;
            }
            let ghost before = entries@.take(i as int);
            assert(entries@.take(i + 1) =~= before.push(entries@[i as int]));
            i = i + 1;
        }
        assert(entries@.take(n as int) =~= entries@);
        Some(RentWallet { admin, entries, paused })
    }

    /// What `user` holds; zero for an account never credited. Needs no
    /// administrator and works while paused.
    pub fn balance(&self, user: &AccountId) -> (r: i128)
        ensures
            r == self@.balance_of(user@),
            r >= 0,
    {
        proof {
            use_type_invariant(self);
        }
        match self.find(user) {
            Some(i) => {
                proof {
                    lemma_lookup_found(self.entries@, i as int);
                }
                self.entries[i].amount
            },
            None => {
                proof {
                    lemma_lookup_absent(self.entries@, user@);
                }
                0
            },
        }
    }

    /// Whether credits and debits are suspended.
    pub fn is_paused(&self) -> (r: bool)
        ensures
            r == self@.paused,
    {
        self.paused
    }

    /// The current administrator, if initialized.
    pub fn admin(&self) -> (r: Option<&AccountId>)
        ensures
            r is None <==> self@.admin is None,
            r is Some ==> self@.admin == Some(r->0@),
    {
        match &self.admin {
            Some(a) => Some(a),
            None => None,
        }
    }

    /// Stores `amount` as the balance of `user`.
    fn store(&mut self, user: AccountId, amount: i128)
        requires
            amount >= 0,
        ensures
            final(self)@ == (LedgerModel {
                balances: old(self)@.balances.insert(user@, amount as int),
                ..old(self)@
            }),
    {
        proof {
            use_type_invariant(&*self);
        }
        let entry = BalanceEntry { account: user, amount };
        let found = self.find(&entry.account);
        let mut entries: Vec<BalanceEntry> = Vec::new();
        std::mem::swap(&mut entries, &mut self.entries);
        match found {
            Some(i) => {
                proof {
                    lemma_table_update(entries@, i as int, entry);
                }
                entries.set(i, entry);
            },
            None => {
                proof {
                    lemma_table_push(entries@, entry);
                }
                entries.push(entry);
            },
        }
        self.entries = entries;
    }

    /// Makes `admin` the administrator of a new instance and starts an empty
    /// balance table. Refused with `AlreadyInitialized` once an administrator
    /// exists: an instance is initialized once.
    pub fn init(&mut self, admin: AccountId) -> (r: Result<Notification, LedgerError>)
        ensures
            reports(old(self)@, final(self)@, r, old(self)@.step(admin@, (Request::Init { admin: admin@ }))),
            r is Ok <==> old(self)@.admin is None,
    {
        proof {
            use_type_invariant(&*self);
            self.lemma_model_wf();
        }
        if self.admin.is_some() {
            return Err(LedgerError::AlreadyInitialized);
        }
        let announced = admin.duplicate();
        self.admin = Some(admin);
        self.entries = Vec::new();
        assert(table_of(self.entries@) =~= Map::empty());
        Ok(Notification::Init { admin: announced })
    }

    /// The administrator check shared by every administrator-only operation.
    fn authorize(&self, caller: &AccountId) -> (r: Result<(), LedgerError>)
        ensures
            r == self@.authorize(caller@),
    {
        match &self.admin {
            None => Err(LedgerError::NotInitialized),
            Some(a) => if *a == *caller {
                Ok(())
            } else {
                Err(LedgerError::Unauthorized)
            },
        }
    }

    /// The checks of `credit` and `debit`, in order: administrator, pause
    /// switch, positive amount.
    fn admit_transfer(&self, caller: &AccountId, amount: i128) -> (r: Result<(), LedgerError>)
        ensures
            r == self@.admit_transfer(caller@, amount as int),
    {
        match self.authorize(caller) {
            Err(e) => Err(e),
            Ok(()) => if self.paused {
                Err(LedgerError::ContractPaused)
            } else if amount <= 0 {
                Err(LedgerError::InvalidAmount)
            } else {
                Ok(())
            },
        }
    }

    /// Adds `amount` to the balance of `user`, as the administrator `caller`.
    /// Refused, in this order of checks, with `NotInitialized`, `Unauthorized`,
    /// `ContractPaused`, `InvalidAmount` (zero or negative amount) and
    /// `Overflow` (the balance would pass `i128::MAX`).
    pub fn credit(&mut self, caller: &AccountId, user: AccountId, amount: i128) -> (r: Result<
        Notification,
        LedgerError,
    >)
        ensures
            reports(
                old(self)@,
                final(self)@,
                r,
                old(self)@.step(caller@, (Request::Credit { user: user@, amount: amount as int })),
            ),
            old(self)@.authorize(caller@) is Ok && !old(self)@.paused ==> (r
                == Err::<Notification, LedgerError>(LedgerError::InvalidAmount) <==> amount <= 0),
    {
        match self.admit_transfer(caller, amount) {
            Err(e) => Err(e),
            Ok(()) => {
                let current = self.balance(&user);
                if current > i128::MAX - amount {
                    return Err(LedgerError::Overflow);
                }
                let new_balance = current + amount;
                let announced = user.duplicate();
                self.store(user, new_balance);
                Ok(Notification::Credit { user: announced, amount, new_balance })
            },
        }
    }

    /// Takes `amount` from the balance of `user`, as the administrator
    /// `caller`. Refused, in this order of checks, with `NotInitialized`,
    /// `Unauthorized`, `ContractPaused`, `InvalidAmount` (zero or negative
    /// amount) and `InsufficientBalance` (more than `user` holds). Taking the
    /// whole balance leaves a stored zero.
    pub fn debit(&mut self, caller: &AccountId, user: AccountId, amount: i128) -> (r: Result<
        Notification,
        LedgerError,
    >)
        ensures
            reports(
                old(self)@,
                final(self)@,
                r,
                old(self)@.step(caller@, (Request::Debit { user: user@, amount: amount as int })),
            ),
            old(self)@.authorize(caller@) is Ok && !old(self)@.paused ==> (r
                == Err::<Notification, LedgerError>(LedgerError::InvalidAmount) <==> amount <= 0),
            old(self)@.authorize(caller@) is Ok && !old(self)@.paused ==> (r
                == Err::<Notification, LedgerError>(LedgerError::InsufficientBalance) <==> amount
                > old(self)@.balance_of(user@)),
    {
        proof {
            use_type_invariant(&*self);
            self.lemma_model_wf();
        }
        match self.admit_transfer(caller, amount) {
            Err(e) => Err(e),
            Ok(()) => {
                let current = self.balance(&user);
                if current < amount {
                    return Err(LedgerError::InsufficientBalance);
                }
                let new_balance = current - amount;
                let announced = user.duplicate();
                self.store(user, new_balance);
                Ok(Notification::Debit { user: announced, amount, new_balance })
            },
        }
    }

    /// Hands the administrator role to `new_admin`, as the administrator
    /// `caller`, at once and whether paused or not. Refused with
    /// `NotInitialized` or `Unauthorized`.
    pub fn set_admin(&mut self, caller: &AccountId, new_admin: AccountId) -> (r: Result<
        Notification,
        LedgerError,
    >)
        ensures
            reports(
                old(self)@,
                final(self)@,
                r,
                old(self)@.step(caller@, (Request::SetAdmin { new_admin: new_admin@ })),
            ),
    {
        proof {
            use_type_invariant(&*self);
            self.lemma_model_wf();
        }
        match self.authorize(caller) {
            Err(e) => Err(e),
            Ok(()) => {
                let announced = new_admin.duplicate();
                self.admin = Some(new_admin);
                Ok(Notification::SetAdmin { new_admin: announced })
            },
        }
    }

    /// Suspends credits and debits, as the administrator `caller`. Pausing a
    /// paused ledger succeeds again. Refused with `NotInitialized` or
    /// `Unauthorized`.
    pub fn pause(&mut self, caller: &AccountId) -> (r: Result<Notification, LedgerError>)
        ensures
            reports(old(self)@, final(self)@, r, old(self)@.step(caller@, Request::Pause)),
    {
        proof {
            use_type_invariant(&*self);
            self.lemma_model_wf();
        }
        match self.authorize(caller) {
            Err(e) => Err(e),
            Ok(()) => {
                self.paused = true;
                Ok(Notification::Pause)
            },
        }
    }

    /// Resumes credits and debits, as the administrator `caller`. Unpausing a
    /// running ledger succeeds again. Refused with `NotInitialized` or
    /// `Unauthorized`.
    pub fn unpause(&mut self, caller: &AccountId) -> (r: Result<Notification, LedgerError>)
        ensures
            reports(old(self)@, final(self)@, r, old(self)@.step(caller@, Request::Unpause)),
    {
        proof {
            use_type_invariant(&*self);
            self.lemma_model_wf();
        }
        match self.authorize(caller) {
            Err(e) => Err(e),
            Ok(()) => {
                self.paused = false;
                Ok(Notification::Unpause)
            },
        }
    }

    /// The index of the entry for `user`, if there is one.
    fn find(&self, user: &AccountId) -> (r: Option<usize>)
        ensures
            r matches Some(i) ==> i < self.entries@.len() && self.entries@[i as int].account@
                == user@,
            r is None ==> forall|i: int|
                0 <= i < self.entries@.len() ==> #[trigger] self.entries@[i].account@ != user@,
    {
        let mut i: usize = 0;
        while i < self.entries.len()
            invariant
                i <= self.entries@.len(),
                forall|k: int| 0 <= k < i ==> #[trigger] self.entries@[k].account@ != user@,
            decreases self.entries@.len() - i,
        {
            if self.entries[i].account == *user {
                return Some(i);
            }
            i = i + 1;
        }
        None
    }
}

} // verus!
