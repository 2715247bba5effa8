use vstd::prelude::*;

verus! {

/// Why an operation on the ledger was refused. A refused operation changes
/// nothing.
#[derive(Debug, Clone, Copy, PartialEq, Eq, Structural)]
pub enum LedgerError {
    /// `init` on a ledger that already has an administrator.
    AlreadyInitialized,
    /// An administrator-only operation before `init`.
    NotInitialized,
    /// The caller is not the current administrator.
    Unauthorized,
    /// `credit` or `debit` while the ledger is paused.
    ContractPaused,
    /// `credit` or `debit` of an amount that is zero or negative.
    InvalidAmount,
    /// `debit` of more than the account holds.
    InsufficientBalance,
    /// `credit` that would take a balance past `i128::MAX`.
    Overflow,
}

/// The three independently stored pieces of ledger state: the administrator,
/// the balance table and the pause flag.
#[derive(Debug, Clone, Copy, PartialEq, Eq, Structural)]
pub enum DataKey {
    Admin,
    Balances,
    Paused,
}

/// The ledger as a mathematical value. Accounts are named by their key bytes.
/// An account missing from `balances` holds zero.
pub struct LedgerModel {
    pub admin: Option<Seq<u8>>,
    pub balances: Map<Seq<u8>, int>,
    pub paused: bool,
}

/// One operation of the ledger, with its arguments.
pub enum Request {
    Init { admin: Seq<u8> },
    Credit { user: Seq<u8>, amount: int },
    Debit { user: Seq<u8>, amount: int },
    SetAdmin { new_admin: Seq<u8> },
    Pause,
    Unpause,
}

/// The notification that a successful operation publishes.
pub enum Event {
    Init { admin: Seq<u8> },
    Credit { user: Seq<u8>, amount: int, new_balance: int },
    Debit { user: Seq<u8>, amount: int, new_balance: int },
    SetAdmin { new_admin: Seq<u8> },
    Pause,
    Unpause,
}

/// An operation together with the identity that the host proved for its
/// caller.
pub struct Call {
    pub caller: Seq<u8>,
    pub request: Request,
}

impl Request {
    /// Operations that only the current administrator may perform.
    pub open spec fn is_admin_gated(self) -> bool {
        !(self is Init)
    }

    /// Operations that the pause switch suspends.
    pub open spec fn moves_funds(self) -> bool {
        self is Credit || self is Debit
    }
}

impl LedgerModel {
    /// A new instance: no administrator, no balances, not paused.
    pub open spec fn fresh() -> LedgerModel {
        LedgerModel { admin: None, balances: Map::empty(), paused: false }
    }

    /// Every stored balance is between zero and `i128::MAX`.
    pub open spec fn wf(self) -> bool {
        forall|u: Seq<u8>|
            #[trigger] self.balances.contains_key(u) ==> 0 <= self.balances[u] <= i128::MAX
    }

    /// What `u` holds: its stored balance, or zero when it has none.
    pub open spec fn balance_of(self, u: Seq<u8>) -> int {
        if self.balances.contains_key(u) {
            self.balances[u]
        } else {
            0
        }
    }

    /// The administrator check: there is an administrator and it is `caller`.
    pub open spec fn authorize(self, caller: Seq<u8>) -> Result<(), LedgerError> {
        match self.admin {
            None => Err(LedgerError::NotInitialized),
            Some(a) => if a == caller {
                Ok(())
            } else {
                Err(LedgerError::Unauthorized)
            },
        }
    }

    /// The checks that `credit` and `debit` make, in order: administrator,
    /// pause switch, positive amount.
    pub open spec fn admit_transfer(self, caller: Seq<u8>, amount: int) -> Result<(), LedgerError> {
        match self.authorize(caller) {
            Err(e) => Err(e),
            Ok(_) => if self.paused {
                Err(LedgerError::ContractPaused)
            } else if amount <= 0 {
                Err(LedgerError::InvalidAmount)
            } else {
                Ok(())
            },
        }
    }

    /// `init`: sets the administrator and an empty balance table, once.
    pub open spec fn init(self, admin: Seq<u8>) -> Result<(LedgerModel, Event), LedgerError> {
        if self.admin is Some {
            Err(LedgerError::AlreadyInitialized)
        } else {
            Ok(
                (
                    LedgerModel { admin: Some(admin), balances: Map::empty(), paused: self.paused },
                    Event::Init { admin },
                ),
            )
        }
    }

    /// `credit`: adds a positive amount to `user`, as the administrator,
    /// while not paused, as long as the balance stays within `i128`.
    pub open spec fn credit(self, caller: Seq<u8>, user: Seq<u8>, amount: int) -> Result<
        (LedgerModel, Event),
        LedgerError,
    > {
        match self.admit_transfer(caller, amount) {
            Err(e) => Err(e),
            Ok(_) => {
                let new_balance = self.balance_of(user) + amount;
                if new_balance > i128::MAX {
                    Err(LedgerError::Overflow)
                } else {
                    Ok(
                        (
                            LedgerModel {
                                balances: self.balances.insert(user, new_balance),
                                ..self
                            },
                            Event::Credit { user, amount, new_balance },
                        ),
                    )
                }
            },
        }
    }

    /// `debit`: takes a positive amount of at most what `user` holds, as the
    /// administrator, while not paused.
    pub open spec fn debit(self, caller: Seq<u8>, user: Seq<u8>, amount: int) -> Result<
        (LedgerModel, Event),
        LedgerError,
    > {
        match self.admit_transfer(caller, amount) {
            Err(e) => Err(e),
            Ok(_) => {
                if amount > self.balance_of(user) {
                    Err(LedgerError::InsufficientBalance)
                } else {
                    let new_balance = self.balance_of(user) - amount;
                    Ok(
                        (
                            LedgerModel {
                                balances: self.balances.insert(user, new_balance),
                                ..self
                            },
                            Event::Debit { user, amount, new_balance },
                        ),
                    )
                }
            },
        }
    }

    /// `set_admin`: hands the role to `new_admin`, as the administrator.
    pub open spec fn set_admin(self, caller: Seq<u8>, new_admin: Seq<u8>) -> Result<
        (LedgerModel, Event),
        LedgerError,
    > {
        match self.authorize(caller) {
            Err(e) => Err(e),
            Ok(_) => Ok(
                (LedgerModel { admin: Some(new_admin), ..self }, Event::SetAdmin { new_admin }),
            ),
        }
    }

    /// `pause` (`paused` true) and `unpause` (false), as the administrator.
    pub open spec fn set_paused(self, caller: Seq<u8>, paused: bool) -> Result<
        (LedgerModel, Event),
        LedgerError,
    > {
        match self.authorize(caller) {
            Err(e) => Err(e),
            Ok(_) => Ok(
                (
                    LedgerModel { paused, ..self },
                    if paused {
                        Event::Pause
                    } else {
                        Event::Unpause
                    },
                ),
            ),
        }
    }

    /// What one operation does: the next state and the notification, or the
    /// error that refuses it.
    pub open spec fn step(self, caller: Seq<u8>, request: Request) -> Result<
        (LedgerModel, Event),
        LedgerError,
    > {
        match request {
            Request::Init { admin } => self.init(admin),
            Request::Credit { user, amount } => self.credit(caller, user, amount),
            Request::Debit { user, amount } => self.debit(caller, user, amount),
            Request::SetAdmin { new_admin } => self.set_admin(caller, new_admin),
            Request::Pause => self.set_paused(caller, true),
            Request::Unpause => self.set_paused(caller, false),
        }
    }

    /// The state after one call: the next state if the operation succeeds,
    /// this state unchanged if it is refused.
    pub open spec fn after(self, call: Call) -> LedgerModel {
        match self.step(call.caller, call.request) {
            Ok((next, _)) => next,
            Err(_) => self,
        }
    }

    /// The state after a sequence of calls, made one after another.
    pub open spec fn run(self, calls: Seq<Call>) -> LedgerModel
        decreases calls.len(),
    {
        if calls.len() == 0 {
            self
        } else {
            self.run(calls.drop_last()).after(calls.last())
        }
    }
}

} // verus!
