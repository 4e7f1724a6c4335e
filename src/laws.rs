use vstd::prelude::*;

use crate::account::{AccountView, LedgerEntry, TxState};
use crate::amount::{fits, lemma_zero_fits};
use crate::record::{Transaction, TransactionTypes};
use crate::transactor::applied;

verus! {

/// Every account in `m` is valid.
pub open spec fn all_valid(m: Map<u16, AccountView>) -> bool {
    forall|c: u16| #[trigger] m.contains_key(c) ==> m[c].is_valid()
}

/// Conservation: applying any processable record to accounts whose totals are
/// what is available plus what is held keeps that so for every account.
pub proof fn conservation(m: Map<u16, AccountView>, r: Transaction)
    requires
        all_valid(m),
        r.is_processable(),
        r.is_monetary() ==> fits(r.amount->0@),
    ensures
        all_valid(applied(m, r)),
        forall|c: u16| #[trigger]
            applied(m, r).contains_key(c) ==> applied(m, r)[c].total == applied(m, r)[c].available
                + applied(m, r)[c].held,
{
    let m2 = applied(m, r);
    lemma_zero_fits();
    assert forall|c: u16| #[trigger] m2.contains_key(c) implies m2[c].is_valid() by {
        if c == r.client_id() && m.contains_key(c) {
            assert(m[c].is_valid());
        }
    }
}

/// Duplicate suppression: once a deposit or withdrawal id is in a client's
/// ledger, a second deposit or withdrawal under the same id changes nothing.
pub proof fn duplicate_suppressed(m: Map<u16, AccountView>, first: Transaction, second: Transaction)
    requires
        first.is_processable(),
        second.is_processable(),
        first.is_monetary(),
        second.is_monetary(),
        first.client_id() == second.client_id(),
        first.tx_id() == second.tx_id(),
        applied(m, first).contains_key(first.client_id()),
        applied(m, first)[first.client_id()].ledger.contains_key(first.tx_id()),
    ensures
        applied(applied(m, first), second) == applied(m, first),
{
    let m1 = applied(m, first);
    assert(applied(m1, second) =~= m1);
}

/// Insufficient funds: a withdrawal of more than is available changes nothing.
pub proof fn insufficient_funds_ignored(m: Map<u16, AccountView>, r: Transaction)
    requires
        r.is_processable(),
        r.kind() == TransactionTypes::Withdrawal,
        m.contains_key(r.client_id()),
        m[r.client_id()].available < r.amount->0@,
    ensures
        applied(m, r) == m,
{
    assert(applied(m, r) =~= m);
}

/// Withdrawal outcome: for a new id on an existing account, a withdrawal of more
/// than is available changes nothing; otherwise, when the balances stay in
/// range, it lowers available and total funds by the amount and records it,
/// leaving held funds, the lock flag and every other account alone.
pub proof fn withdrawal_outcome(m: Map<u16, AccountView>, r: Transaction, other: u16)
    requires
        r.is_processable(),
        r.kind() == TransactionTypes::Withdrawal,
        m.contains_key(r.client_id()),
        !m[r.client_id()].ledger.contains_key(r.tx_id()),
        other != r.client_id(),
    ensures
        ({
            let a = m[r.client_id()];
            let b = applied(m, r)[r.client_id()];
            let x = r.amount->0;
            &&& a.available < x@ ==> applied(m, r) == m
            &&& a.available >= x@ && fits(a.available - x@) && fits(a.total - x@) ==> {
                &&& b.available == a.available - x@
                &&& b.total == a.total - x@
                &&& b.held == a.held
                &&& b.locked == a.locked
                &&& b.ledger == a.ledger.insert(
                    r.tx_id(),
                    LedgerEntry {
                        kind: TransactionTypes::Withdrawal,
                        amount: x,
                        state: TxState::Recorded,
                    },
                )
            }
            &&& applied(m, r).contains_key(other) == m.contains_key(other)
            &&& m.contains_key(other) ==> applied(m, r)[other] == m[other]
        }),
{
    if m[r.client_id()].available < r.amount->0@ {
        assert(applied(m, r) =~= m);
    }
}

/// Deposit outcome: a deposit for a client without an account opens one holding
/// just that deposit, even for zero; for a new id on an existing account, when
/// the balances stay in range, it raises available and total funds by the
/// amount and records it. Every other account is left alone.
pub proof fn deposit_outcome(m: Map<u16, AccountView>, r: Transaction, other: u16)
    requires
        r.is_processable(),
        r.kind() == TransactionTypes::Deposit,
        other != r.client_id(),
    ensures
        ({
            let c = r.client_id();
            let x = r.amount->0;
            let b = applied(m, r)[c];
            &&& applied(m, r).contains_key(c)
            &&& !m.contains_key(c) ==> b == AccountView::opened(r.tx_id(), x)
            &&& m.contains_key(c) && !m[c].ledger.contains_key(r.tx_id()) && fits(
                m[c].available + x@,
            ) && fits(m[c].total + x@) ==> {
                &&& b.available == m[c].available + x@
                &&& b.total == m[c].total + x@
                &&& b.held == m[c].held
                &&& b.locked == m[c].locked
                &&& b.ledger == m[c].ledger.insert(
                    r.tx_id(),
                    LedgerEntry {
                        kind: TransactionTypes::Deposit,
                        amount: x,
                        state: TxState::Recorded,
                    },
                )
            }
            &&& applied(m, r).contains_key(other) == m.contains_key(other)
            &&& m.contains_key(other) ==> applied(m, r)[other] == m[other]
        }),
{
}

/// Dispute effect: disputing a recorded, undisputed transaction, when the
/// balances stay in range, moves its amount from available to held funds,
/// keeps the total and the lock flag, and adds the id to the disputed set.
pub proof fn dispute_effect(m: Map<u16, AccountView>, r: Transaction)
    requires
        r.is_processable(),
        r.kind() == TransactionTypes::Dispute,
        m.contains_key(r.client_id()),
        m[r.client_id()].in_state(r.tx_id(), TxState::Recorded),
        fits(m[r.client_id()].available - m[r.client_id()].ledger[r.tx_id()].amount@),
        fits(m[r.client_id()].held + m[r.client_id()].ledger[r.tx_id()].amount@),
    ensures
        ({
            let a = m[r.client_id()];
            let b = applied(m, r)[r.client_id()];
            let x = a.ledger[r.tx_id()].amount@;
            &&& b.available == a.available - x
            &&& b.held == a.held + x
            &&& b.total == a.total
            &&& b.locked == a.locked
            &&& b.disputed() == a.disputed().insert(r.tx_id())
            &&& b.ledger.dom() == a.ledger.dom()
        }),
{
    let a = m[r.client_id()];
    let b = applied(m, r)[r.client_id()];
    assert(b.disputed() =~= a.disputed().insert(r.tx_id()));
    assert(b.ledger.dom() =~= a.ledger.dom());
}

/// Dispute then resolve: on a valid account where the transaction is not already
/// under dispute, a dispute followed by a resolve of the same transaction leaves
/// every account exactly as it was.
pub proof fn dispute_resolve_round_trip(
    m: Map<u16, AccountView>,
    dispute: Transaction,
    resolve: Transaction,
)
    requires
        dispute.is_processable(),
        resolve.is_processable(),
        dispute.kind() == TransactionTypes::Dispute,
        resolve.kind() == TransactionTypes::Resolve,
        dispute.client_id() == resolve.client_id(),
        dispute.tx_id() == resolve.tx_id(),
        m.contains_key(dispute.client_id()) ==> m[dispute.client_id()].is_valid(),
        m.contains_key(dispute.client_id()) ==> !m[dispute.client_id()].in_state(
            dispute.tx_id(),
            TxState::Disputed,
        ),
    ensures
        applied(applied(m, dispute), resolve) == m,
{
    let c = dispute.client_id();
    let tx = dispute.tx_id();
    if m.contains_key(c) {
        let a = m[c];
        let a1 = a.after_dispute(tx);
        if a.in_state(tx, TxState::Recorded) && a1 != a {
            assert(a1.ledger_with(tx, TxState::Recorded) =~= a.ledger);
        }
        assert(a1.after_resolve(tx) == a);
        assert(applied(applied(m, dispute), resolve) =~= m);
    } else {
        assert(applied(applied(m, dispute), resolve) =~= m);
    }
}

/// Chargeback: taking back a disputed transaction lowers held and total funds by
/// its amount, leaves available funds alone, locks the account and ends the
/// transaction's lifecycle.
pub proof fn chargeback_effect(m: Map<u16, AccountView>, r: Transaction)
    requires
        r.is_processable(),
        r.kind() == TransactionTypes::Chargeback,
        m.contains_key(r.client_id()),
        m[r.client_id()].in_state(r.tx_id(), TxState::Disputed),
        fits(m[r.client_id()].held - m[r.client_id()].ledger[r.tx_id()].amount@),
        fits(m[r.client_id()].total - m[r.client_id()].ledger[r.tx_id()].amount@),
    ensures
        ({
            let before = m[r.client_id()];
            let after = applied(m, r)[r.client_id()];
            let amount = before.ledger[r.tx_id()].amount@;
            &&& after.held == before.held - amount
            &&& after.total == before.total - amount
            &&& after.available == before.available
            &&& after.locked
            &&& after.in_state(r.tx_id(), TxState::ChargedBack)
        }),
{
}

/// A charged-back transaction is terminal: a later dispute, resolve or
/// chargeback of it changes nothing.
pub proof fn chargeback_is_terminal(m: Map<u16, AccountView>, r: Transaction)
    requires
        r.is_processable(),
        !r.is_monetary(),
        m.contains_key(r.client_id()),
        m[r.client_id()].in_state(r.tx_id(), TxState::ChargedBack),
    ensures
        applied(m, r) == m,
{
    assert(applied(m, r) =~= m);
}

/// No orphan accounts: a withdrawal, dispute, resolve or chargeback for a client
/// without an account changes nothing.
pub proof fn no_orphan_accounts(m: Map<u16, AccountView>, r: Transaction)
    requires
        r.is_processable(),
        r.kind() != TransactionTypes::Deposit,
        !m.contains_key(r.client_id()),
    ensures
        applied(m, r) == m,
{
}

/// Disputing the same transaction twice in a row does what disputing it once does.
pub proof fn dispute_idempotent(m: Map<u16, AccountView>, r: Transaction)
    requires
        r.is_processable(),
        r.kind() == TransactionTypes::Dispute,
    ensures
        applied(applied(m, r), r) == applied(m, r),
{
    let c = r.client_id();
    if m.contains_key(c) {
        assert(applied(applied(m, r), r) =~= applied(m, r));
    }
}

/// A record touches only its own client's account: a dispute naming another
/// client's transaction cannot reach it.
pub proof fn other_clients_untouched(m: Map<u16, AccountView>, r: Transaction, c: u16)
    requires
        r.is_processable(),
        c != r.client_id(),
    ensures
        applied(m, r).contains_key(c) == m.contains_key(c),
        m.contains_key(c) ==> applied(m, r)[c] == m[c],
{
}

} // verus!
