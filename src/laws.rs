//! Properties of the ledger that relate several operations, proved over the
//! model that every operation of `RentWallet` is specified against.
use vstd::prelude::*;

use crate::model::{Call, Event, LedgerError, LedgerModel, Request};

verus! {

/// The sum of the amounts of the credits to `u` among `calls`.
pub open spec fn credited(calls: Seq<Call>, u: Seq<u8>) -> int
    decreases calls.len(),
{
    if calls.len() == 0 {
        0
    } else {
        credited(calls.drop_last(), u) + match calls.last().request {
            Request::Credit { user, amount } => if user == u {
                amount
            } else {
                0
            },
            _ => 0,
        }
    }
}

/// The sum of the amounts of the debits from `u` among `calls`.
pub open spec fn debited(calls: Seq<Call>, u: Seq<u8>) -> int
    decreases calls.len(),
{
    if calls.len() == 0 {
        0
    } else {
        debited(calls.drop_last(), u) + match calls.last().request {
            Request::Debit { user, amount } => if user == u {
                amount
            } else {
                0
            },
            _ => 0,
        }
    }
}

/// Every one of `calls`, made in turn from `s`, succeeds.
pub open spec fn all_succeed(s: LedgerModel, calls: Seq<Call>) -> bool
    decreases calls.len(),
{
    if calls.len() == 0 {
        true
    } else {
        &&& all_succeed(s, calls.drop_last())
        &&& s.run(calls.drop_last()).step(calls.last().caller, calls.last().request) is Ok
    }
}

/// Call `k` of `calls`, made in turn from `s`, is a credit to `u` that
/// succeeds.
pub open spec fn credits_at(s: LedgerModel, calls: Seq<Call>, k: int, u: Seq<u8>) -> bool {
    &&& calls[k].request matches Request::Credit { user, .. } && user == u
    &&& s.run(calls.take(k)).step(calls[k].caller, calls[k].request) is Ok
}

/// An operation never takes a balance below zero or above `i128::MAX`.
pub proof fn step_keeps_balances_in_range(s: LedgerModel, caller: Seq<u8>, request: Request)
    requires
        s.wf(),
    ensures
        s.step(caller, request) matches Ok((next, _)) ==> next.wf(),
        s.after((Call { caller, request })).wf(),
{
}

/// Balances stay between zero and `i128::MAX` whatever calls are made.
pub proof fn run_keeps_balances_in_range(s: LedgerModel, calls: Seq<Call>)
    requires
        s.wf(),
    ensures
        s.run(calls).wf(),
    decreases calls.len(),
{
    if calls.len() > 0 {
        run_keeps_balances_in_range(s, calls.drop_last());
        step_keeps_balances_in_range(
            s.run(calls.drop_last()),
            calls.last().caller,
            calls.last().request,
        );
    }
}

/// Along any credits and debits that all succeed, the balance of every
/// account moves by exactly what was credited to it minus what was debited
/// from it, and it is never negative. From a ledger just initialized, where
/// every balance is zero, the balance is the credits minus the debits.
pub proof fn balance_is_credits_minus_debits(s: LedgerModel, calls: Seq<Call>, u: Seq<u8>)
    requires
        s.wf(),
        forall|k: int| 0 <= k < calls.len() ==> (#[trigger] calls[k].request).moves_funds(),
        all_succeed(s, calls),
    ensures
        s.run(calls).balance_of(u) == s.balance_of(u) + credited(calls, u) - debited(calls, u),
        s.run(calls).balance_of(u) >= 0,
    decreases calls.len(),
{
    run_keeps_balances_in_range(s, calls);
    if calls.len() > 0 {
        let rest = calls.drop_last();
        balance_is_credits_minus_debits(s, rest, u);
        run_keeps_balances_in_range(s, rest);
        let mid = s.run(rest);
        assert(forall|k: int| 0 <= k < rest.len() ==> rest[k] == calls[k]);
        assert(calls[calls.len() - 1].request.moves_funds());
    }
}

proof fn lemma_untouched_stays_empty(s: LedgerModel, calls: Seq<Call>, u: Seq<u8>)
    requires
        s.wf(),
        s.balance_of(u) == 0,
        forall|k: int| 0 <= k < calls.len() ==> !credits_at(s, calls, k, u),
    ensures
        s.run(calls).balance_of(u) == 0,
    decreases calls.len(),
{
    if calls.len() > 0 {
        let n = calls.len() - 1;
        let rest = calls.drop_last();
        assert forall|k: int| 0 <= k < rest.len() implies !credits_at(s, rest, k, u) by {
            assert(rest.take(k) =~= calls.take(k));
            assert(!credits_at(s, calls, k, u));
        }
        lemma_untouched_stays_empty(s, rest, u);
        run_keeps_balances_in_range(s, rest);
        assert(calls.take(n) =~= rest);
        assert(!credits_at(s, calls, n, u));
    }
}

/// An account that no call has credited holds nothing, whatever else was
/// done to the ledger since it was created.
pub proof fn never_credited_holds_nothing(calls: Seq<Call>, u: Seq<u8>)
    requires
        forall|k: int| 0 <= k < calls.len() ==> !credits_at(LedgerModel::fresh(), calls, k, u),
    ensures
        LedgerModel::fresh().run(calls).balance_of(u) == 0,
{
    lemma_untouched_stays_empty(LedgerModel::fresh(), calls, u);
}

proof fn lemma_paused_stays_paused(p: LedgerModel, calls: Seq<Call>)
    requires
        p.paused,
        p.admin is Some,
        forall|k: int| 0 <= k < calls.len() ==> !(#[trigger] calls[k].request is Unpause),
    ensures
        p.run(calls).paused,
        p.run(calls).admin is Some,
        p.run(calls).balances == p.balances,
    decreases calls.len(),
{
    if calls.len() > 0 {
        let rest = calls.drop_last();
        assert(forall|k: int| 0 <= k < rest.len() ==> rest[k] == calls[k]);
        lemma_paused_stays_paused(p, rest);
        assert(!(calls[calls.len() - 1].request is Unpause));
    }
}

/// Once `pause` has succeeded, and as long as no `unpause` follows, every
/// credit and debit is refused: with `ContractPaused` when the administrator
/// asks, with `Unauthorized` when anyone else does. Meanwhile the pause flag
/// reads true and every balance reads as it did when the pause began.
pub proof fn pause_blocks_transfers(
    s: LedgerModel,
    admin: Seq<u8>,
    calls: Seq<Call>,
    caller: Seq<u8>,
    request: Request,
)
    requires
        s.step(admin, Request::Pause) is Ok,
        forall|k: int| 0 <= k < calls.len() ==> !(#[trigger] calls[k].request is Unpause),
        request.moves_funds(),
    ensures
        ({
            let p = s.after((Call { caller: admin, request: Request::Pause }));
            let t = p.run(calls);
            &&& t.paused
            &&& t.balances == p.balances
            &&& t.admin == Some(caller) ==> t.step(caller, request) == Err::<
                (LedgerModel, Event),
                LedgerError,
            >(LedgerError::ContractPaused)
            &&& t.admin != Some(caller) ==> t.step(caller, request) == Err::<
                (LedgerModel, Event),
                LedgerError,
            >(LedgerError::Unauthorized)
        }),
{
    let p = s.after((Call { caller: admin, request: Request::Pause }));
    lemma_paused_stays_paused(p, calls);
}

proof fn lemma_initialized_stays_initialized(s: LedgerModel, calls: Seq<Call>)
    requires
        s.admin is Some,
    ensures
        s.run(calls).admin is Some,
    decreases calls.len(),
{
    if calls.len() > 0 {
        lemma_initialized_stays_initialized(s, calls.drop_last());
    }
}

/// `init` succeeds on a new instance, and after it, whatever calls follow,
/// every further `init` is refused with `AlreadyInitialized`.
pub proof fn init_succeeds_exactly_once(
    caller: Seq<u8>,
    admin: Seq<u8>,
    calls: Seq<Call>,
    later_caller: Seq<u8>,
    later_admin: Seq<u8>,
)
    ensures
        LedgerModel::fresh().step(caller, (Request::Init { admin })) is Ok,
        LedgerModel::fresh().after((Call { caller, request: Request::Init { admin } })).run(
            calls,
        ).step(later_caller, (Request::Init { admin: later_admin })) == Err::<
            (LedgerModel, Event),
            LedgerError,
        >(LedgerError::AlreadyInitialized),
{
    let s = LedgerModel::fresh().after((Call { caller, request: Request::Init { admin } }));
    lemma_initialized_stays_initialized(s, calls);
}

/// Of an initialized ledger, an administrator-only operation succeeds only
/// when the caller is the current administrator; anyone else is refused with
/// `Unauthorized`.
pub proof fn only_the_admin_is_authorized(s: LedgerModel, caller: Seq<u8>, request: Request)
    requires
        s.admin is Some,
        request.is_admin_gated(),
    ensures
        s.step(caller, request) is Ok ==> s.admin == Some(caller),
        s.admin != Some(caller) ==> s.step(caller, request) == Err::<
            (LedgerModel, Event),
            LedgerError,
        >(LedgerError::Unauthorized),
{
}

/// Right after `set_admin(new_admin)` succeeds, the previous administrator
/// (if it is another identity) is refused every administrator-only
/// operation with `Unauthorized`, and `new_admin` passes the administrator
/// check: `set_admin`, `pause` and `unpause` succeed for it.
pub proof fn set_admin_hands_over(
    s: LedgerModel,
    old_admin: Seq<u8>,
    new_admin: Seq<u8>,
    request: Request,
)
    requires
        s.step(old_admin, (Request::SetAdmin { new_admin })) is Ok,
        request.is_admin_gated(),
    ensures
        ({
            let t = s.after((Call { caller: old_admin, request: Request::SetAdmin { new_admin } }));
            &&& old_admin != new_admin ==> t.step(old_admin, request) == Err::<
                (LedgerModel, Event),
                LedgerError,
            >(LedgerError::Unauthorized)
            &&& t.authorize(new_admin) is Ok
            &&& t.step(new_admin, request) != Err::<(LedgerModel, Event), LedgerError>(
                LedgerError::Unauthorized,
            )
            &&& t.step(new_admin, request) != Err::<(LedgerModel, Event), LedgerError>(
                LedgerError::NotInitialized,
            )
            &&& !request.moves_funds() ==> t.step(new_admin, request) is Ok
        }),
{
}

} // verus!
