use std::collections::HashMap;
use std::collections::HashSet;

use vstd::prelude::*;

use crate::amount::{fits, Amount};
use crate::record::{Transaction, TransactionTypes};

verus! {

/// Where a recorded transaction stands in the dispute lifecycle.
#[derive(Clone, Copy, Debug, PartialEq, Eq, Structural)]
pub enum TxState {
    Recorded,
    Disputed,
    ChargedBack,
}

/// A deposit or withdrawal that changed an account, with its dispute state.
#[derive(Clone, Copy, Debug, PartialEq, Eq, Structural)]
pub struct LedgerEntry {
    pub kind: TransactionTypes,
    pub amount: Amount,
    pub state: TxState,
}

/// The mathematical state of an account; balances are in units of `10^-28`.
pub struct AccountView {
    pub available: int,
    pub held: int,
    pub total: int,
    pub locked: bool,
    pub ledger: Map<u32, LedgerEntry>,
}

impl AccountView {
    /// The account that a first deposit opens.
    pub open spec fn opened(tx: u32, amount: Amount) -> AccountView {
        AccountView {
            available: amount@,
            held: 0,
            total: amount@,
            locked: false,
            ledger: Map::empty().insert(
                tx,
                LedgerEntry { kind: TransactionTypes::Deposit, amount, state: TxState::Recorded },
            ),
        }
    }

    /// The ids of the transactions under dispute.
    pub open spec fn disputed(self) -> Set<u32> {
        Set::new(
            |t: u32| self.ledger.contains_key(t) && self.ledger[t].state == TxState::Disputed,
        )
    }

    /// `tx` is in the ledger and in state `s`.
    pub open spec fn in_state(self, tx: u32, s: TxState) -> bool {
        self.ledger.contains_key(tx) && self.ledger[tx].state == s
    }

    /// Balances in range, and the total is what is available plus what is held.
    pub open spec fn is_valid(self) -> bool {
        &&& fits(self.available)
        &&& fits(self.held)
        &&& fits(self.total)
        &&& self.total == self.available + self.held
    }

    /// The ledger with `tx` moved to state `s`.
    pub open spec fn ledger_with(self, tx: u32, s: TxState) -> Map<u32, LedgerEntry> {
        self.ledger.insert(tx, LedgerEntry { state: s, ..self.ledger[tx] })
    }

    /// A deposit: applied unless `tx` is already recorded or a balance would leave the range.
    pub open spec fn after_deposit(self, tx: u32, amount: Amount) -> AccountView {
        if self.ledger.contains_key(tx) || !fits(self.available + amount@) || !fits(
            self.total + amount@,
        ) {
            self
        } else {
            AccountView {
                available: self.available + amount@,
                total: self.total + amount@,
                ledger: self.ledger.insert(
                    tx,
                    LedgerEntry {
                        kind: TransactionTypes::Deposit,
                        amount,
                        state: TxState::Recorded,
                    },
                ),
                ..self
            }
        }
    }

    /// A withdrawal: applied unless `tx` is already recorded, the available funds
    /// fall short, or a balance would leave the range.
    pub open spec fn after_withdrawal(self, tx: u32, amount: Amount) -> AccountView {
        if self.ledger.contains_key(tx) || self.available < amount@ || !fits(
            self.available - amount@,
        ) || !fits(self.total - amount@) {
            self
        } else {
            AccountView {
                available: self.available - amount@,
                total: self.total - amount@,
                ledger: self.ledger.insert(
                    tx,
                    LedgerEntry {
                        kind: TransactionTypes::Withdrawal,
                        amount,
                        state: TxState::Recorded,
                    },
                ),
                ..self
            }
        }
    }

    /// A dispute: holds the amount of a recorded, undisputed `tx`.
    pub open spec fn after_dispute(self, tx: u32) -> AccountView {
        if !self.in_state(tx, TxState::Recorded) {
            self
        } else {
            let amount = self.ledger[tx].amount@;
            if !fits(self.available - amount) || !fits(self.held + amount) {
                self
            } else {
                AccountView {
                    available: self.available - amount,
                    held: self.held + amount,
                    ledger: self.ledger_with(tx, TxState::Disputed),
                    ..self
                }
            }
        }
    }

    /// A resolve: releases the held amount of a disputed `tx`.
    pub open spec fn after_resolve(self, tx: u32) -> AccountView {
        if !self.in_state(tx, TxState::Disputed) {
            self
        } else {
            let amount = self.ledger[tx].amount@;
            if !fits(self.available + amount) || !fits(self.held - amount) {
                self
            } else {
                AccountView {
                    available: self.available + amount,
                    held: self.held - amount,
                    ledger: self.ledger_with(tx, TxState::Recorded),
                    ..self
                }
            }
        }
    }

    /// A chargeback: takes the held amount of a disputed `tx` out of the account
    /// for good, and locks the account.
    pub open spec fn after_chargeback(self, tx: u32) -> AccountView {
        if !self.in_state(tx, TxState::Disputed) {
            self
        } else {
            let amount = self.ledger[tx].amount@;
            if !fits(self.held - amount) || !fits(self.total - amount) {
                self
            } else {
                AccountView {
                    held: self.held - amount,
                    total: self.total - amount,
                    locked: true,
                    ledger: self.ledger_with(tx, TxState::ChargedBack),
                    ..self
                }
            }
        }
    }

    /// The account after a processable record addressed to it.
    pub open spec fn after(self, r: Transaction) -> AccountView {
        match r.kind() {
            TransactionTypes::Deposit => self.after_deposit(r.tx_id(), r.amount->0),
            TransactionTypes::Withdrawal => self.after_withdrawal(r.tx_id(), r.amount->0),
            TransactionTypes::Dispute => self.after_dispute(r.tx_id()),
            TransactionTypes::Resolve => self.after_resolve(r.tx_id()),
            TransactionTypes::Chargeback => self.after_chargeback(r.tx_id()),
        }
    }
}

/// One client's balances, lock flag, ledger and open disputes.
pub struct Account {
    available: Amount,
    held: Amount,
    total: Amount,
    locked: bool,
    transactions: HashMap<u32, LedgerEntry>,
    disputes: HashSet<u32>,
}

impl View for Account {
    type V = AccountView;

    closed spec fn view(&self) -> AccountView {
        AccountView {
            available: self.available@,
            held: self.held@,
            total: self.total@,
            locked: self.locked,
            ledger: self.transactions@,
        }
    }
}

impl Account {
    /// The view is valid and the dispute set is the set of disputed ledger entries.
    pub closed spec fn wf(&self) -> bool {
        &&& self@.is_valid()
        &&& self.disputes@ == self@.disputed()
    }

    /// What a well-formed account guarantees of its view.
    pub proof fn lemma_wf(&self)
        requires
            self.wf(),
        ensures
            self@.is_valid(),
    {
    }

    /// The account opened by a first deposit of `amount` under `tx`.
    pub fn open(tx: u32, amount: Amount) -> (r: Account)
        ensures
            r.wf(),
            r@ == AccountView::opened(tx, amount),
    {
        proof {
            use_type_invariant(&amount);
            amount.lemma_in_range();
            crate::amount::lemma_zero_fits();
        }
        let mut transactions = HashMap::new();
        transactions.insert(
            tx,
            LedgerEntry { kind: TransactionTypes::Deposit, amount, state: TxState::Recorded },
        );
        let r = Account {
            available: amount,
            held: Amount::zero(),
            total: amount,
            locked: false,
            transactions,
            disputes: HashSet::new(),
        };
        assert(r@.ledger =~= AccountView::opened(tx, amount).ledger);
        assert(r.disputes@ =~= r@.disputed());
        r
    }

    /// Funds usable for withdrawal.
    pub fn available(&self) -> (r: Amount)
        ensures
            r@ == self@.available,
    {
        self.available
    }

    /// Funds frozen by open disputes.
    pub fn held(&self) -> (r: Amount)
        ensures
            r@ == self@.held,
    {
        self.held
    }

    /// Funds owned by the client.
    pub fn total(&self) -> (r: Amount)
        ensures
            r@ == self@.total,
    {
        self.total
    }

    /// Set for good by a chargeback.
    pub fn locked(&self) -> (r: bool)
        ensures
            r == self@.locked,
    {
        self.locked
    }

    /// The ids of the transactions under dispute.
    pub fn disputes(&self) -> (r: &HashSet<u32>)
        requires
            self.wf(),
        ensures
            r@ == self@.disputed(),
    {
        &self.disputes
    }

    /// The ledger entry recorded under `tx`, if any.
    pub fn entry(&self, tx: u32) -> (r: Option<LedgerEntry>)
        ensures
            r is Some <==> self@.ledger.contains_key(tx),
            r is Some ==> r->0 == self@.ledger[tx],
    {
        match self.transactions.get(&tx) {
            Some(e) => Some(*e),
            None => None,
        }
    }

    /// Applies a deposit of `amount` under `tx`.
    pub fn deposit(&mut self, tx: u32, amount: Amount)
        requires
            old(self).wf(),
        ensures
            final(self).wf(),
            final(self)@ == old(self)@.after_deposit(tx, amount),
    {
        if self.transactions.contains_key(&tx) {
            return;
        }
        let available = match self.available.checked_add(amount) {
            Some(a) => a,
            None => return ,
        };
        let total = match self.total.checked_add(amount) {
            Some(a) => a,
            None => return ,
        };
        let ghost before = self@;
        self.available = available;
        self.total = total;
        self.transactions.insert(
            tx,
            LedgerEntry { kind: TransactionTypes::Deposit, amount, state: TxState::Recorded },
        );
        assert(self@.disputed() =~= before.disputed());
    }

    /// Applies a withdrawal of `amount` under `tx`.
    pub fn withdraw(&mut self, tx: u32, amount: Amount)
        requires
            old(self).wf(),
        ensures
            final(self).wf(),
            final(self)@ == old(self)@.after_withdrawal(tx, amount),
    {
        if self.transactions.contains_key(&tx) {
            return;
        }
        if !self.available.covers(&amount) {
            return;
        }
        let available = match self.available.checked_sub(amount) {
            Some(a) => a,
            None => return ,
        };
        let total = match self.total.checked_sub(amount) {
            Some(a) => a,
            None => return ,
        };
        let ghost before = self@;
        self.available = available;
        self.total = total;
        self.transactions.insert(
            tx,
            LedgerEntry { kind: TransactionTypes::Withdrawal, amount, state: TxState::Recorded },
        );
        assert(self@.disputed() =~= before.disputed());
    }

    /// Opens a dispute on `tx`.
    pub fn dispute(&mut self, tx: u32)
        requires
            old(self).wf(),
        ensures
            final(self).wf(),
            final(self)@ == old(self)@.after_dispute(tx),
    {
        let entry = match self.transactions.get(&tx) {
            Some(e) => *e,
            None => return ,
        };
        match entry.state {
            TxState::Recorded => {},
            _ => return ,
        }
        let available = match self.available.checked_sub(entry.amount) {
            Some(a) => a,
            None => return ,
        };
        let held = match self.held.checked_add(entry.amount) {
            Some(a) => a,
            None => return ,
        };
        let ghost before = self@;
        self.available = available;
        self.held = held;
        self.transactions.insert(tx, LedgerEntry { state: TxState::Disputed, ..entry });
        self.disputes.insert(tx);
        assert(self@.ledger =~= before.ledger_with(tx, TxState::Disputed));
        assert(self.disputes@ =~= self@.disputed());
    }

    /// Resolves the dispute on `tx`.
    pub fn resolve(&mut self, tx: u32)
        requires
            old(self).wf(),
        ensures
            final(self).wf(),
            final(self)@ == old(self)@.after_resolve(tx),
    {
        let entry = match self.transactions.get(&tx) {
            Some(e) => *e,
            None => return ,
        };
        match entry.state {
            TxState::Disputed => {},
            _ => return ,
        }
        let available = match self.available.checked_add(entry.amount) {
            Some(a) => a,
            None => return ,
        };
        let held = match self.held.checked_sub(entry.amount) {
            Some(a) => a,
            None => return ,
        };
        let ghost before = self@;
        self.available = available;
        self.held = held;
        self.transactions.insert(tx, LedgerEntry { state: TxState::Recorded, ..entry });
        self.disputes.remove(&tx);
        assert(self@.ledger =~= before.ledger_with(tx, TxState::Recorded));
        assert(self.disputes@ =~= self@.disputed());
    }

    /// Charges back the disputed `tx` and locks the account.
    pub fn chargeback(&mut self, tx: u32)
        requires
            old(self).wf(),
        ensures
            final(self).wf(),
            final(self)@ == old(self)@.after_chargeback(tx),
    {
        let entry = match self.transactions.get(&tx) {
            Some(e) => *e,
            None => return ,
        };
        match entry.state {
            TxState::Disputed => {},
            _ => return ,
        }
        let held = match self.held.checked_sub(entry.amount) {
            Some(a) => a,
            None => return ,
        };
        let total = match self.total.checked_sub(entry.amount) {
            Some(a) => a,
            None => return ,
        };
        let ghost before = self@;
        self.held = held;
        self.total = total;
        self.locked = true;
        self.transactions.insert(tx, LedgerEntry { state: TxState::ChargedBack, ..entry });
        self.disputes.remove(&tx);
        assert(self@.ledger =~= before.ledger_with(tx, TxState::ChargedBack));
        assert(self.disputes@ =~= self@.disputed());
    }

    /// Applies a processable record addressed to this account.
    pub fn apply(&mut self, r: Transaction)
        requires
            old(self).wf(),
            r.is_processable(),
        ensures
            final(self).wf(),
            final(self)@ == old(self)@.after(r),
    {
        let tx = r.tx.unwrap();
        match r.transaction_type.unwrap() {
            TransactionTypes::Deposit => self.deposit(tx, r.amount.unwrap()),
            TransactionTypes::Withdrawal => self.withdraw(tx, r.amount.unwrap()),
            TransactionTypes::Dispute => self.dispute(tx),
            TransactionTypes::Resolve => self.resolve(tx),
            TransactionTypes::Chargeback => self.chargeback(tx),
        }
    }
}

} // verus!
