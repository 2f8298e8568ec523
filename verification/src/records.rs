//! The records that the ledger keeps, and the errors it reports.

use vstd::prelude::*;
use vstd::utf8::encode_utf8;
use crate::identity::Identity;
use crate::reward::spec_reward;

verus! {

/// Longest transaction id that is accepted, in bytes.
pub const MAX_TRANSACTION_ID_LEN: usize = 64;

/// The singleton state record.
#[derive(Clone, Copy, Debug, PartialEq, Eq)]
pub struct ProgramState {
    /// The principal allowed to rotate the authority.
    pub authority: Identity,
    /// The asset in which rewards are credited.
    pub lypto_mint: Identity,
    /// Sum of the rewards of all credited payments.
    pub total_rewards_minted: u64,
    /// Number of credited payments.
    pub total_transactions: u64,
    /// Derivation salt of the record's address, kept as given.
    pub bump: u8,
}

/// The state record after one more credited payment with the given reward.
pub open spec fn spec_advanced(state: ProgramState, reward: u64) -> ProgramState {
    ProgramState {
        total_rewards_minted: (state.total_rewards_minted + reward) as u64,
        total_transactions: (state.total_transactions + 1) as u64,
        ..state
    }
}

impl ProgramState {
    /// Size of the persisted record in bytes: two identities, two counters
    /// and the salt.
    pub const LEN: usize = 32 + 32 + 8 + 8 + 1;

    /// Whether both counters have room for one more payment with the given
    /// reward.
    pub fn can_credit(&self, reward: u64) -> (room: bool)
        ensures
            room == (self.total_rewards_minted + reward <= u64::MAX && self.total_transactions + 1
                <= u64::MAX),
    {
        reward <= u64::MAX - self.total_rewards_minted && self.total_transactions < u64::MAX
    }

    /// The state after one more credited payment: the reward is added to the
    /// total, and the payment is counted.
    pub fn credited(&self, reward: u64) -> (next: ProgramState)
        requires
            self.total_rewards_minted + reward <= u64::MAX,
            self.total_transactions + 1 <= u64::MAX,
        ensures
            next == spec_advanced(*self, reward),
            next.total_rewards_minted == self.total_rewards_minted + reward,
            next.total_transactions == self.total_transactions + 1,
    {
        ProgramState {
            authority: self.authority,
            lypto_mint: self.lypto_mint,
            total_rewards_minted: self.total_rewards_minted + reward,
            total_transactions: self.total_transactions + 1,
            bump: self.bump,
        }
    }

    /// The state under a new authority; nothing else changes.
    pub fn with_authority(&self, new_authority: Identity) -> (next: ProgramState)
        ensures
            next == (ProgramState { authority: new_authority, ..*self }),
    {
        ProgramState {
            authority: new_authority,
            lypto_mint: self.lypto_mint,
            total_rewards_minted: self.total_rewards_minted,
            total_transactions: self.total_transactions,
            bump: self.bump,
        }
    }
}

/// The record of one payment. It is written once and never changed.
#[derive(Debug, PartialEq, Eq)]
pub struct Transaction {
    /// The caller's id of the payment: the uniqueness key.
    pub transaction_id: String,
    /// Who receives the reward.
    pub customer: Identity,
    /// Who submitted the payment.
    pub merchant: Identity,
    /// The amount paid, in cents.
    pub amount: u64,
    /// The reward earned, in reward units.
    pub reward: u64,
    /// When the record was written, as the caller's clock gave it.
    pub timestamp: i64,
    /// Derivation salt of the record's address, kept as given.
    pub bump: u8,
}

/// Whether a transaction id has an accepted length: 1 to 64 bytes of UTF-8.
pub open spec fn spec_valid_transaction_id(transaction_id: Seq<char>) -> bool {
    1 <= encode_utf8(transaction_id).len() <= MAX_TRANSACTION_ID_LEN
}

impl Transaction {
    /// Size of the persisted record in bytes: the id with its length prefix,
    /// two identities, amount, reward, timestamp and the salt.
    pub const LEN: usize = 68 + 32 + 32 + 8 + 8 + 8 + 1;

    /// What holds of every payment record: a positive amount, an id of
    /// accepted length, and the reward that the amount earns.
    pub open spec fn valid(&self) -> bool {
        &&& self.amount > 0
        &&& spec_valid_transaction_id(self.transaction_id@)
        &&& self.reward as nat == spec_reward(self.amount as nat)
    }

    /// Number of bytes that the persisted record takes: four bytes for the
    /// length of the id, the id, and the fixed fields.
    pub open spec fn spec_persisted_len(&self) -> nat {
        4 + encode_utf8(self.transaction_id@).len() + 32 + 32 + 8 + 8 + 8 + 1
    }

    /// A valid record fits into `LEN` bytes: this is what the limit on the
    /// id's length is for.
    pub proof fn law_valid_record_fits(&self)
        requires
            self.valid(),
        ensures
            self.spec_persisted_len() <= Transaction::LEN,
    {
    }
}

impl Clone for Transaction {
    fn clone(&self) -> (copy: Self)
        ensures
            copy == *self,
    {
        Transaction {
            transaction_id: self.transaction_id.clone(),
            customer: self.customer,
            merchant: self.merchant,
            amount: self.amount,
            reward: self.reward,
            timestamp: self.timestamp,
            bump: self.bump,
        }
    }
}

/// What the external credit mechanism answered to a credit request.
#[derive(Clone, Copy, Debug, PartialEq, Eq, Structural)]
pub enum CreditOutcome {
    /// The customer's balance was increased by the reward.
    Credited,
    /// The mechanism refused; no balance changed.
    Rejected,
}

/// Why the ledger refused an operation.
#[derive(Clone, Copy, Debug, PartialEq, Eq, Structural)]
pub enum LyptoError {
    /// The amount is zero.
    InvalidAmount,
    /// The transaction id is empty or longer than 64 bytes.
    InvalidTransactionId,
    /// The caller is not the recorded authority.
    Unauthorized,
    /// A payment with this transaction id was recorded before.
    DuplicateTransaction,
    /// The external credit mechanism refused the credit.
    CreditFailure,
    /// The state record does not exist yet.
    GlobalStateMissing,
    /// The state record exists already.
    AlreadyInitialized,
    /// No record occupies the address.
    NotFound,
}

impl LyptoError {
    /// The message of each error.
    pub open spec fn spec_message(self) -> Seq<char> {
        match self {
            LyptoError::InvalidAmount => "Invalid amount: must be greater than 0"@,
            LyptoError::InvalidTransactionId => "Invalid transaction ID: must be 1 to 64 bytes"@,
            LyptoError::Unauthorized => "Unauthorized: only admin can perform this action"@,
            LyptoError::DuplicateTransaction => "Duplicate transaction: this ID was recorded before"@,
            LyptoError::CreditFailure => "Credit failure: the reward could not be credited"@,
            LyptoError::GlobalStateMissing => "Program state missing: initialize first"@,
            LyptoError::AlreadyInitialized => "Already initialized: program state exists"@,
            LyptoError::NotFound => "Not found: no record at this address"@,
        }
    }

    /// A message for people.
    pub fn message(&self) -> (text: &'static str)
        ensures
            text@ == self.spec_message(),
    {
        match self {
            LyptoError::InvalidAmount => "Invalid amount: must be greater than 0",
            LyptoError::InvalidTransactionId => "Invalid transaction ID: must be 1 to 64 bytes",
            LyptoError::Unauthorized => "Unauthorized: only admin can perform this action",
            LyptoError::DuplicateTransaction => "Duplicate transaction: this ID was recorded before",
            LyptoError::CreditFailure => "Credit failure: the reward could not be credited",
            LyptoError::GlobalStateMissing => "Program state missing: initialize first",
            LyptoError::AlreadyInitialized => "Already initialized: program state exists",
            LyptoError::NotFound => "Not found: no record at this address",
        }
    }
}

} // verus!
