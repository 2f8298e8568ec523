//! The ledger as a mathematical object: the sequence of its records, what
//! makes it well formed, and what each operation does to it.

use vstd::prelude::*;
use crate::identity::Identity;
use crate::keys::{spec_program_state_address, spec_transaction_address, Address};
use crate::records::{
    spec_advanced, spec_valid_transaction_id, CreditOutcome, LyptoError, ProgramState,
    Transaction,
};
use crate::reward::spec_reward;
use crate::store::{lemma_slot_is, spec_occupied, spec_slot, spec_unique, spec_value};

verus! {

/// A payment record as the store holds it: the immutable transaction, and
/// whether its reward has been credited and counted.
#[derive(Debug, PartialEq, Eq)]
pub struct Payment {
    pub transaction: Transaction,
    pub credited: bool,
}

/// What the store holds at an address.
#[derive(Debug, PartialEq, Eq)]
pub enum Record {
    /// The singleton state record.
    State(ProgramState),
    /// One payment.
    Payment(Payment),
}

impl Clone for Payment {
    fn clone(&self) -> (copy: Self)
        ensures
            copy == *self,
    {
        Payment { transaction: self.transaction.clone(), credited: self.credited }
    }
}

impl Clone for Record {
    fn clone(&self) -> (copy: Self)
        ensures
            copy == *self,
    {
        match self {
            Record::State(state) => Record::State(*state),
            Record::Payment(payment) => Record::Payment(payment.clone()),
        }
    }
}

/// The records of a ledger, in the order of their creation, each with its
/// address.
pub type Records = Seq<(Seq<u8>, Record)>;

/// What `initialize` is given: the authority, the reward asset, and the
/// derivation salt of the state record.
#[derive(Clone, Copy, Debug, PartialEq, Eq)]
pub struct Initialize {
    pub authority: Identity,
    pub lypto_mint: Identity,
    pub bump: u8,
}

/// What `process_payment` is given besides amount and id: the two parties,
/// the time of writing, and the derivation salt of the transaction record.
#[derive(Clone, Copy, Debug, PartialEq, Eq)]
pub struct ProcessPayment {
    pub customer: Identity,
    pub merchant: Identity,
    pub timestamp: i64,
    pub bump: u8,
}

/// What `get_transaction` is given: the address of a transaction record.
#[derive(Debug, PartialEq, Eq)]
pub struct GetTransaction {
    pub transaction: Address,
}

/// What `update_authority` is given besides the new authority: the identity
/// of the caller.
#[derive(Clone, Copy, Debug, PartialEq, Eq)]
pub struct UpdateAuthority {
    pub authority: Identity,
}

/// The credit that a recorded payment asks of the external credit
/// mechanism: `amount` reward units of the asset `mint` to `customer`.
#[derive(Debug, PartialEq, Eq)]
pub struct CreditRequest {
    pub transaction_id: String,
    pub customer: Identity,
    pub mint: Identity,
    pub amount: u64,
}

/// The state record, where it exists.
pub open spec fn spec_state(records: Records) -> Option<ProgramState> {
    let address = spec_program_state_address();
    if spec_occupied(records, address) {
        match spec_value(records, address) {
            Record::State(state) => Some(state),
            Record::Payment(_) => None,
        }
    } else {
        None
    }
}

/// The payment recorded under a transaction id, where there is one.
pub open spec fn spec_payment(records: Records, transaction_id: Seq<char>) -> Option<Payment> {
    spec_payment_at(records, spec_transaction_address(transaction_id))
}

/// The payment recorded at an address, where there is one.
pub open spec fn spec_payment_at(records: Records, address: Seq<u8>) -> Option<Payment> {
    if spec_occupied(records, address) {
        match spec_value(records, address) {
            Record::State(_) => None,
            Record::Payment(payment) => Some(payment),
        }
    } else {
        None
    }
}

/// What one record adds to the number of credited payments.
pub open spec fn spec_counts(record: Record) -> nat {
    match record {
        Record::State(_) => 0,
        Record::Payment(payment) => if payment.credited {
            1
        } else {
            0
        },
    }
}

/// What one record adds to the sum of credited rewards.
pub open spec fn spec_adds(record: Record) -> nat {
    match record {
        Record::State(_) => 0,
        Record::Payment(payment) => if payment.credited {
            payment.transaction.reward as nat
        } else {
            0
        },
    }
}

/// The number of payments whose reward has been credited.
pub open spec fn spec_credited_count(records: Records) -> nat
    decreases records.len(),
{
    if records.len() == 0 {
        0
    } else {
        spec_credited_count(records.drop_last()) + spec_counts(records.last().1)
    }
}

/// The sum of the rewards of the payments whose reward has been credited.
pub open spec fn spec_credited_rewards(records: Records) -> nat
    decreases records.len(),
{
    if records.len() == 0 {
        0
    } else {
        spec_credited_rewards(records.drop_last()) + spec_adds(records.last().1)
    }
}

/// A record sits at the address derived from its own key, and a payment
/// record is valid.
pub open spec fn spec_placed(entry: (Seq<u8>, Record)) -> bool {
    match entry.1 {
        Record::State(_) => entry.0 == spec_program_state_address(),
        Record::Payment(payment) => {
            &&& entry.0 == spec_transaction_address(payment.transaction.transaction_id@)
            &&& payment.transaction.valid()
        },
    }
}

/// The shape of a ledger: no address occurs twice, every record sits at its
/// own address, and the state record was created before any payment.
pub open spec fn spec_shaped(records: Records) -> bool {
    &&& spec_unique(records)
    &&& forall|i: int| 0 <= i < records.len() ==> spec_placed(#[trigger] records[i])
    &&& records.len() > 0 ==> records[0].1 is State
}

/// The counters of the state record are exactly the number and the reward
/// sum of the credited payments.
pub open spec fn spec_conserved(records: Records) -> bool {
    match spec_state(records) {
        Some(state) => {
            &&& state.total_transactions as nat == spec_credited_count(records)
            &&& state.total_rewards_minted as nat == spec_credited_rewards(records)
        },
        None => true,
    }
}

/// A well-formed ledger.
pub open spec fn spec_well_formed(records: Records) -> bool {
    spec_shaped(records) && spec_conserved(records)
}

/// The state record of a ledger that has just been initialized.
pub open spec fn spec_fresh_state(ctx: Initialize) -> ProgramState {
    ProgramState {
        authority: ctx.authority,
        lypto_mint: ctx.lypto_mint,
        total_rewards_minted: 0,
        total_transactions: 0,
        bump: ctx.bump,
    }
}

/// A payment record, marked as credited; a state record, as it is.
pub open spec fn spec_marked(record: Record) -> Record {
    match record {
        Record::State(state) => Record::State(state),
        Record::Payment(payment) => Record::Payment(
            Payment { transaction: payment.transaction, credited: true },
        ),
    }
}

/// A state record, advanced by one credited payment; a payment record, as it
/// is.
pub open spec fn spec_counted(record: Record, reward: u64) -> Record {
    match record {
        Record::State(state) => Record::State(spec_advanced(state, reward)),
        Record::Payment(payment) => Record::Payment(payment),
    }
}

/// A state record, under a new authority; a payment record, as it is.
pub open spec fn spec_rotated(record: Record, new_authority: Identity) -> Record {
    match record {
        Record::State(state) => Record::State(ProgramState { authority: new_authority, ..state }),
        Record::Payment(payment) => Record::Payment(payment),
    }
}

impl Record {
    /// A payment record, marked as credited; a state record, as it is.
    pub fn marked(&self) -> (next: Record)
        ensures
            next == spec_marked(*self),
    {
        match self {
            Record::State(state) => Record::State(*state),
            Record::Payment(payment) => Record::Payment(
                Payment { transaction: payment.transaction.clone(), credited: true },
            ),
        }
    }

    /// A state record, advanced by one credited payment with the given
    /// reward; a payment record, as it is.
    pub fn counted(&self, reward: u64) -> (next: Record)
        requires
            self matches Record::State(state) ==> state.total_rewards_minted + reward <= u64::MAX
                && state.total_transactions + 1 <= u64::MAX,
        ensures
            next == spec_counted(*self, reward),
    {
        match self {
            Record::State(state) => Record::State(state.credited(reward)),
            Record::Payment(payment) => Record::Payment(payment.clone()),
        }
    }

    /// A state record, under a new authority; a payment record, as it is.
    pub fn rotated(&self, new_authority: Identity) -> (next: Record)
        ensures
            next == spec_rotated(*self, new_authority),
    {
        match self {
            Record::State(state) => Record::State(state.with_authority(new_authority)),
            Record::Payment(payment) => Record::Payment(payment.clone()),
        }
    }
}

/// The transaction record of a payment.
pub open spec fn spec_transaction(
    ctx: ProcessPayment,
    amount_in_cents: u64,
    transaction_id: String,
) -> Transaction {
    Transaction {
        transaction_id,
        customer: ctx.customer,
        merchant: ctx.merchant,
        amount: amount_in_cents,
        reward: spec_reward(amount_in_cents as nat) as u64,
        timestamp: ctx.timestamp,
        bump: ctx.bump,
    }
}

/// Which error, if any, the inputs of a payment earn by themselves: a zero
/// amount first, then an id of the wrong length.
pub open spec fn spec_validate_payment(amount_in_cents: u64, transaction_id: Seq<char>) -> Result<
    (),
    LyptoError,
> {
    if amount_in_cents == 0 {
        Err(LyptoError::InvalidAmount)
    } else if !spec_valid_transaction_id(transaction_id) {
        Err(LyptoError::InvalidTransactionId)
    } else {
        Ok(())
    }
}

/// `initialize`: the ledger afterwards, and what is returned.
pub open spec fn spec_initialize(records: Records, ctx: Initialize) -> (
    Records,
    Result<ProgramState, LyptoError>,
) {
    let address = spec_program_state_address();
    if spec_occupied(records, address) {
        (records, Err(LyptoError::AlreadyInitialized))
    } else {
        (
            records.push((address, Record::State(spec_fresh_state(ctx)))),
            Ok(spec_fresh_state(ctx)),
        )
    }
}

/// `process_payment`: the ledger afterwards, and what is returned.
pub open spec fn spec_process_payment(
    records: Records,
    ctx: ProcessPayment,
    amount_in_cents: u64,
    transaction_id: String,
) -> (Records, Result<CreditRequest, LyptoError>) {
    let address = spec_transaction_address(transaction_id@);
    match spec_validate_payment(amount_in_cents, transaction_id@) {
        Err(error) => (records, Err(error)),
        Ok(_) => match spec_state(records) {
            None => (records, Err(LyptoError::GlobalStateMissing)),
            Some(state) => if spec_occupied(records, address) {
                (records, Err(LyptoError::DuplicateTransaction))
            } else {
                let transaction = spec_transaction(ctx, amount_in_cents, transaction_id);
                (
                    records.push(
                        (address, Record::Payment(Payment { transaction, credited: false })),
                    ),
                    Ok(
                        CreditRequest {
                            transaction_id,
                            customer: ctx.customer,
                            mint: state.lypto_mint,
                            amount: transaction.reward,
                        },
                    ),
                )
            },
        },
    }
}

/// `settle_payment`: the ledger afterwards, and what is returned.
pub open spec fn spec_settle_payment(
    records: Records,
    transaction_id: Seq<char>,
    outcome: CreditOutcome,
) -> (Records, Result<Transaction, LyptoError>) {
    let address = spec_transaction_address(transaction_id);
    let home = spec_program_state_address();
    match spec_payment(records, transaction_id) {
        None => (records, Err(LyptoError::NotFound)),
        Some(payment) => if payment.credited {
            (records, Err(LyptoError::DuplicateTransaction))
        } else if outcome == CreditOutcome::Rejected {
            (records, Err(LyptoError::CreditFailure))
        } else {
            match spec_state(records) {
                None => (records, Err(LyptoError::GlobalStateMissing)),
                Some(state) => (
                    records.update(
                        spec_slot(records, address),
                        (
                            address,
                            Record::Payment(
                                Payment { transaction: payment.transaction, credited: true },
                            ),
                        ),
                    ).update(
                        spec_slot(records, home),
                        (home, Record::State(spec_advanced(state, payment.transaction.reward))),
                    ),
                    Ok(payment.transaction),
                ),
            }
        },
    }
}

/// Whether the reward total has room for what `settle_payment` would add:
/// the one limit that a 64-bit counter puts on it.
pub open spec fn spec_reward_fits(
    records: Records,
    transaction_id: Seq<char>,
    outcome: CreditOutcome,
) -> bool {
    match (spec_payment(records, transaction_id), spec_state(records)) {
        (Some(payment), Some(state)) => !payment.credited && outcome == CreditOutcome::Credited
            ==> state.total_rewards_minted + payment.transaction.reward <= u64::MAX,
        _ => true,
    }
}

/// Whether both counters have room for what `settle_payment` would add. In
/// a well-formed ledger of at most `u64::MAX` records the payment count
/// always has.
pub open spec fn spec_settle_fits(
    records: Records,
    transaction_id: Seq<char>,
    outcome: CreditOutcome,
) -> bool {
    &&& spec_reward_fits(records, transaction_id, outcome)
    &&& match (spec_payment(records, transaction_id), spec_state(records)) {
        (Some(payment), Some(state)) => !payment.credited && outcome == CreditOutcome::Credited
            ==> state.total_transactions + 1 <= u64::MAX,
        _ => true,
    }
}

/// `update_authority`: the ledger afterwards, and what is returned.
pub open spec fn spec_update_authority(
    records: Records,
    ctx: UpdateAuthority,
    new_authority: Identity,
) -> (Records, Result<ProgramState, LyptoError>) {
    let home = spec_program_state_address();
    match spec_state(records) {
        None => (records, Err(LyptoError::GlobalStateMissing)),
        Some(state) => if ctx.authority != state.authority {
            (records, Err(LyptoError::Unauthorized))
        } else {
            let next = ProgramState { authority: new_authority, ..state };
            (records.update(spec_slot(records, home), (home, Record::State(next))), Ok(next))
        },
    }
}

/// `get_transaction`: what is returned.
pub open spec fn spec_get_transaction(records: Records, address: Seq<u8>) -> Result<
    Transaction,
    LyptoError,
> {
    match spec_payment_at(records, address) {
        Some(payment) => Ok(payment.transaction),
        None => Err(LyptoError::NotFound),
    }
}

/// In a ledger of the right shape the state record, where there is one, is
/// the first record, and there is one as soon as there is any record.
pub proof fn lemma_state_is_first(records: Records)
    requires
        spec_shaped(records),
    ensures
        records.len() == 0 ==> spec_state(records) is None && !spec_occupied(
            records,
            spec_program_state_address(),
        ),
        records.len() > 0 ==> spec_occupied(records, spec_program_state_address()) && spec_slot(
            records,
            spec_program_state_address(),
        ) == 0 && spec_state(records) == Some(records[0].1->State_0),
{
    if records.len() > 0 {
        assert(spec_placed(records[0]));
        lemma_slot_is(records, spec_program_state_address(), 0);
    }
}

/// In a ledger of the right shape a payment is never the first record, and
/// the record at the address of a transaction id is a payment with that id.
pub proof fn lemma_payment_is_later(records: Records, address: Seq<u8>)
    requires
        spec_shaped(records),
        spec_payment_at(records, address) is Some,
    ensures
        0 < spec_slot(records, address) < records.len(),
        records[spec_slot(records, address)].0 == address,
        records[spec_slot(records, address)].1 == Record::Payment(
            spec_payment_at(records, address)->Some_0,
        ),
        address == spec_transaction_address(
            spec_payment_at(records, address)->Some_0.transaction.transaction_id@,
        ),
        spec_payment_at(records, address)->Some_0.transaction.valid(),
{
    let i = spec_slot(records, address);
    assert(0 <= i < records.len() && records[i].0 == address);
    assert(spec_placed(records[i]));
}

/// A new record adds its own share to the totals.
pub proof fn lemma_totals_push(records: Records, entry: (Seq<u8>, Record))
    ensures
        spec_credited_count(records.push(entry)) == spec_credited_count(records) + spec_counts(
            entry.1,
        ),
        spec_credited_rewards(records.push(entry)) == spec_credited_rewards(records) + spec_adds(
            entry.1,
        ),
{
    assert(records.push(entry).drop_last() =~= records);
}

/// Replacing a record takes its old share out of the totals and puts its
/// new share in.
pub proof fn lemma_totals_update(records: Records, i: int, entry: (Seq<u8>, Record))
    requires
        0 <= i < records.len(),
    ensures
        spec_credited_count(records.update(i, entry)) + spec_counts(records[i].1)
            == spec_credited_count(records) + spec_counts(entry.1),
        spec_credited_rewards(records.update(i, entry)) + spec_adds(records[i].1)
            == spec_credited_rewards(records) + spec_adds(entry.1),
    decreases records.len(),
{
    let changed = records.update(i, entry);
    if i == records.len() - 1 {
        assert(changed.drop_last() =~= records.drop_last());
    } else {
        assert(changed.drop_last() =~= records.drop_last().update(i, entry));
        lemma_totals_update(records.drop_last(), i, entry);
    }
}

/// No more payments are counted than there are records that count.
pub proof fn lemma_count_bound(records: Records)
    ensures
        spec_credited_count(records) <= records.len(),
        records.len() > 0 && records[0].1 is State ==> spec_credited_count(records) + 1
            <= records.len(),
    decreases records.len(),
{
    if records.len() > 0 {
        lemma_count_bound(records.drop_last());
        if records.len() > 1 {
            assert(records.drop_last()[0] == records[0]);
        }
    }
}

} // verus!
