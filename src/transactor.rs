use std::collections::HashMap;

use vstd::prelude::*;

use crate::account::{Account, AccountView};
use crate::amount::Amount;
use crate::record::{Transaction, TransactionTypes};

verus! {

/// The accounts after a processable record: only the addressed client's account
/// changes, and only a deposit opens one.
pub open spec fn applied(m: Map<u16, AccountView>, r: Transaction) -> Map<u16, AccountView> {
    let c = r.client_id();
    if m.contains_key(c) {
        m.insert(c, m[c].after(r))
    } else if r.kind() == TransactionTypes::Deposit {
        m.insert(c, AccountView::opened(r.tx_id(), r.amount->0))
    } else {
        m
    }
}

/// One exported line of account state, with the exact stored amounts; rounding
/// them for display is left to whoever prints the row.
#[derive(Clone, Copy, Debug, PartialEq, Eq, Structural)]
pub struct AccountRow {
    pub client: u16,
    pub available: Amount,
    pub held: Amount,
    pub total: Amount,
    pub locked: bool,
}

impl AccountRow {
    /// The row shows the balances and lock flag of `a`.
    pub open spec fn shows(self, a: AccountView) -> bool {
        &&& self.available@ == a.available
        &&& self.held@ == a.held
        &&& self.total@ == a.total
        &&& self.locked == a.locked
    }
}

/// The ledger engine: every client's account, keyed by client id.
pub struct Transactor {
    client_accounts: HashMap<u16, Account>,
    clients: Vec<u16>,
}

impl View for Transactor {
    type V = Map<u16, AccountView>;

    closed spec fn view(&self) -> Map<u16, AccountView> {
        Map::new(
            |c: u16| self.client_accounts@.contains_key(c),
            |c: u16| self.client_accounts@[c]@,
        )
    }
}

impl Default for Transactor {
    fn default() -> (r: Self)
        ensures
            r.wf(),
            r@ == Map::<u16, AccountView>::empty(),
    {
        Self::new()
    }
}

impl Transactor {
    /// Every account is well formed, and `clients` lists each client once, in
    /// the order their accounts were opened.
    pub closed spec fn wf(&self) -> bool {
        &&& forall|c: u16| #[trigger]
            self.client_accounts@.contains_key(c) ==> self.client_accounts@[c].wf()
        &&& self.clients@.no_duplicates()
        &&& forall|c: u16| #[trigger]
            self.clients@.contains(c) <==> self.client_accounts@.contains_key(c)
    }

    /// What a well-formed engine guarantees of its view.
    pub proof fn lemma_wf(&self)
        requires
            self.wf(),
        ensures
            forall|c: u16| #[trigger] self@.contains_key(c) ==> self@[c].is_valid(),
    {
        assert forall|c: u16| #[trigger] self@.contains_key(c) implies self@[c].is_valid() by {
            self.client_accounts@[c].lemma_wf();
        }
    }

    /// An engine with no accounts.
    pub fn new() -> (r: Transactor)
        ensures
            r.wf(),
            r@ == Map::<u16, AccountView>::empty(),
    {
        let r = Transactor { client_accounts: HashMap::new(), clients: Vec::new() };
        assert(r@ =~= Map::<u16, AccountView>::empty());
        r
    }

    /// Only kind, client id and transaction id must be present.
    pub fn is_record_valid(record: &Transaction) -> (r: bool)
        ensures
            r == record.is_well_formed(),
    {
        record.transaction_type.is_some() && record.client.is_some() && record.tx.is_some()
    }

    /// Applies one record. A record that cannot apply (duplicate id, short funds,
    /// unknown or wrongly placed transaction, no account, a balance out of range)
    /// changes nothing. A locked account still takes records.
    pub fn process_a_record(&mut self, record: Transaction)
        requires
            old(self).wf(),
            record.is_processable(),
        ensures
            final(self).wf(),
            final(self)@ == applied(old(self)@, record),
            forall|c: u16| #[trigger]
                final(self)@.contains_key(c) ==> final(self)@[c].is_valid(),
    {
        let client = record.client.unwrap();
        let ghost before = self@;
        let ghost old_accounts = self.client_accounts@;
        match self.client_accounts.remove(&client) {
            Some(mut account) => {
                account.apply(record);
                self.client_accounts.insert(client, account);
                assert(self.client_accounts@ =~= old_accounts.insert(client, account));
                assert(self@ =~= applied(before, record));
                proof {
                    self.lemma_wf();
                }
            },
            None => {
                match record.transaction_type.unwrap() {
                    TransactionTypes::Deposit => {
                        let account = Account::open(record.tx.unwrap(), record.amount.unwrap());
                        self.client_accounts.insert(client, account);
                        assert(!self.clients@.contains(client));
                        let ghost old_clients = self.clients@;
                        self.clients.push(client);
                        assert(self.client_accounts@ =~= old_accounts.insert(client, account));
                        assert forall|c: u16| #[trigger]
                            self.clients@.contains(c) <==> self.client_accounts@.contains_key(
                                c,
                            ) by {
                            assert(self.clients@ == old_clients.push(client));
                            assert(self.clients@[old_clients.len() as int] == client);
                            if self.clients@.contains(c) && c != client {
                                let i = choose|i: int|
                                    0 <= i < self.clients@.len() && self.clients@[i] == c;
                                assert(old_clients[i] == c);
                            }
                            if old_clients.contains(c) {
                                let i = choose|i: int|
                                    0 <= i < old_clients.len() && old_clients[i] == c;
                                assert(self.clients@[i] == c);
                            }
                        }
                        assert(self@ =~= applied(before, record));
                        proof {
                            self.lemma_wf();
                        }
                    },
                    _ => {
                        assert(self.client_accounts@ =~= old_accounts);
                        assert(self@ =~= before);
                        proof {
                            self.lemma_wf();
                        }
                    },
                }
            },
        }
    }

    /// Read-only access to the accounts.
    pub fn client_accounts(&self) -> (r: &HashMap<u16, Account>)
        requires
            self.wf(),
        ensures
            forall|c: u16| #[trigger] r@.contains_key(c) <==> self@.contains_key(c),
            forall|c: u16| #[trigger]
                r@.contains_key(c) ==> r@[c]@ == self@[c] && r@[c].wf(),
    {
        &self.client_accounts
    }

    /// One row per account, each client exactly once.
    pub fn snapshot(&self) -> (r: Vec<AccountRow>)
        requires
            self.wf(),
        ensures
            forall|i: int|
                0 <= i < r@.len() ==> self@.contains_key(#[trigger] r@[i].client) && r@[i].shows(
                    self@[r@[i].client],
                ),
            forall|c: u16|
                self@.contains_key(c) ==> exists|i: int|
                    0 <= i < r@.len() && #[trigger] r@[i].client == c,
            forall|i: int, j: int|
                0 <= i < j < r@.len() ==> #[trigger] r@[i].client != #[trigger] r@[j].client,
    {
        let mut rows: Vec<AccountRow> = Vec::new();
        let n = self.clients.len();
        for k in 0..n
            invariant
                n == self.clients@.len(),
                self.wf(),
                rows@.len() == k,
                forall|i: int|
                    0 <= i < k ==> #[trigger] rows@[i].client == self.clients@[i]
                        && self@.contains_key(rows@[i].client) && rows@[i].shows(
                        self@[rows@[i].client],
                    ),
        {
            let c = self.clients[k];
            assert(self.clients@.contains(c));
            match self.client_accounts.get(&c) {
                Some(a) => {
                    rows.push(
                        AccountRow {
                            client: c,
                            available: a.available(),
                            held: a.held(),
                            total: a.total(),
                            locked: a.locked(),
                        },
                    );
                },
                None => {},
            }
        }
        assert forall|c: u16| self@.contains_key(c) implies exists|i: int|
            0 <= i < rows@.len() && #[trigger] rows@[i].client == c by {
            assert(self.clients@.contains(c));
            let i = choose|i: int| 0 <= i < self.clients@.len() && self.clients@[i] == c;
            assert(rows@[i].client == c);
        }
        assert forall|i: int, j: int| 0 <= i < j < rows@.len() implies #[trigger] rows@[i].client
            != #[trigger] rows@[j].client by {
            assert(rows@[i].client == self.clients@[i]);
            assert(rows@[j].client == self.clients@[j]);
        }
        rows
    }
}

} // verus!
