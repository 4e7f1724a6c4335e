use vstd::prelude::*;

use crate::amount::Amount;

verus! {

/// The five kinds of transaction record.
#[derive(Clone, Copy, Debug, PartialEq, Eq, Structural)]
pub enum TransactionTypes {
    Deposit,
    Withdrawal,
    Dispute,
    Resolve,
    Chargeback,
}

/// One input record. Any field may be missing in the source it was read from.
#[derive(Clone, Copy, Debug, PartialEq, Eq, Structural)]
pub struct Transaction {
    pub transaction_type: Option<TransactionTypes>,
    pub client: Option<u16>,
    pub tx: Option<u32>,
    pub amount: Option<Amount>,
}

impl Transaction {
    /// Kind, client id and transaction id are all present.
    pub open spec fn is_well_formed(self) -> bool {
        &&& self.transaction_type is Some
        &&& self.client is Some
        &&& self.tx is Some
    }

    /// A deposit or a withdrawal, the kinds that carry an amount.
    pub open spec fn is_monetary(self) -> bool {
        self.transaction_type == Some(TransactionTypes::Deposit) || self.transaction_type
            == Some(TransactionTypes::Withdrawal)
    }

    /// What the ledger accepts: a well-formed record, with an amount where its kind needs one.
    pub open spec fn is_processable(self) -> bool {
        &&& self.is_well_formed()
        &&& self.is_monetary() ==> self.amount is Some
    }

    /// The record's kind, for a well-formed record.
    pub open spec fn kind(self) -> TransactionTypes {
        self.transaction_type->0
    }

    /// The record's client id, for a well-formed record.
    pub open spec fn client_id(self) -> u16 {
        self.client->0
    }

    /// The record's transaction id, for a well-formed record.
    pub open spec fn tx_id(self) -> u32 {
        self.tx->0
    }
}

} // verus!
