//! A reward-accrual ledger: payments are recorded once per transaction id,
//! each earns a fixed-rate reward, and running totals are kept.
//!
//! Records live in a key-addressed store under addresses derived from a kind
//! tag and a natural key, so that creating a record is at the same time the
//! guard against a replayed transaction id.
//!
//! - `identity`: identities of principals and assets, and the authority check.
//! - `keys`: record addresses and their derivation.
//! - `store`: the record store with create-if-absent, mutate and read.
//! - `reward`: the reward that an amount earns.
//! - `records`: the state record, the transaction record, the errors.
//! - `model`: the ledger as a sequence of records, and what each operation
//!   does to it.
//! - `ledger`: the ledger itself and its operations.
//! - `invariants`: the ledger's invariant under each operation.
//! - `history`: sequences of calls.
//! - `laws`: what holds of every history.

pub mod history;
pub mod identity;
pub mod invariants;
pub mod keys;
pub mod laws;
pub mod ledger;
pub mod model;
pub mod records;
pub mod reward;
pub mod store;

pub use crate::identity::Identity;
pub use crate::keys::Address;
pub use crate::ledger::{
    get_transaction, initialize, process_payment, settle_payment, update_authority, Ledger,
};
pub use crate::model::{
    CreditRequest, GetTransaction, Initialize, ProcessPayment, UpdateAuthority,
};
pub use crate::records::{CreditOutcome, LyptoError, ProgramState, Transaction};
