pub mod account;
pub mod amount;
pub mod laws;
pub mod record;
pub mod transactor;

pub use account::{Account, AccountView, LedgerEntry, TxState};
pub use amount::Amount;
pub use record::{Transaction, TransactionTypes};
pub use transactor::{AccountRow, Transactor};
