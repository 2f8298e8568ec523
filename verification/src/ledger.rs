//! The ledger engine: the state record, the payments, and the four
//! operations on them.
//!
//! Crediting a reward is the work of an external mechanism, so a payment
//! takes two calls: `process_payment` records it and says what to credit,
//! and `settle_payment` takes the mechanism's answer and, where the credit
//! was made, counts the payment.

use vstd::prelude::*;
use crate::identity::{check, Identity};
use crate::keys::{program_state_address, spec_program_state_address, transaction_address};
use crate::invariants::{
    lemma_initialize_keeps_well_formed, lemma_process_payment_keeps_well_formed,
    lemma_settle_payment_keeps_well_formed, lemma_update_authority_keeps_well_formed,
};
use crate::model::{
    lemma_count_bound, lemma_payment_is_later, lemma_state_is_first, spec_counted,
    spec_fresh_state, spec_get_transaction, spec_initialize, spec_marked, spec_process_payment,
    spec_reward_fits, spec_rotated, spec_settle_payment, spec_state, spec_transaction,
    spec_update_authority, spec_validate_payment, spec_well_formed, CreditRequest, GetTransaction,
    Initialize, Payment, ProcessPayment, Record, Records, UpdateAuthority,
};
use crate::records::{
    CreditOutcome, LyptoError, ProgramState, Transaction, MAX_TRANSACTION_ID_LEN,
};
use crate::reward::{lemma_reward_bounded, reward_for};
use crate::store::{lemma_slot_is, RecordStore};

verus! {

/// The state record of a ledger that is being initialized: the given
/// authority, asset and salt, and both counters at zero.
pub fn fresh_state(ctx: &Initialize) -> (state: ProgramState)
    ensures
        state == spec_fresh_state(*ctx),
{
    ProgramState {
        authority: ctx.authority,
        lypto_mint: ctx.lypto_mint,
        total_rewards_minted: 0,
        total_transactions: 0,
        bump: ctx.bump,
    }
}

/// Checks the inputs of a payment: a zero amount is `InvalidAmount`; else an
/// id that is empty or longer than 64 bytes is `InvalidTransactionId`.
pub fn validate_payment(amount_in_cents: u64, transaction_id: &str) -> (checked: Result<
    (),
    LyptoError,
>)
    ensures
        checked == spec_validate_payment(amount_in_cents, transaction_id@),
{
    if amount_in_cents == 0 {
        return Err(LyptoError::InvalidAmount);
    }
    let len = transaction_id.as_bytes().len();
    if len == 0 || len > MAX_TRANSACTION_ID_LEN {
        return Err(LyptoError::InvalidTransactionId);
    }
    Ok(())
}

/// The transaction record of a payment, with the reward that its amount
/// earns.
pub fn new_transaction(ctx: &ProcessPayment, amount_in_cents: u64, transaction_id: String) -> (
    transaction: Transaction
)
    ensures
        transaction == spec_transaction(*ctx, amount_in_cents, transaction_id),
{
    proof {
        lemma_reward_bounded(amount_in_cents as nat);
    }
    Transaction {
        transaction_id,
        customer: ctx.customer,
        merchant: ctx.merchant,
        amount: amount_in_cents,
        reward: reward_for(amount_in_cents),
        timestamp: ctx.timestamp,
        bump: ctx.bump,
    }
}

/// The ledger: one record store that holds the state record and the
/// payments.
pub struct Ledger {
    store: RecordStore<Record>,
}

impl View for Ledger {
    type V = Records;

    closed spec fn view(&self) -> Records {
        self.store@
    }
}

impl Ledger {
    /// The ledger's invariant: it is well formed.
    pub open spec fn wf(&self) -> bool {
        spec_well_formed(self@)
    }

    /// A ledger without records.
    pub fn new() -> (ledger: Ledger)
        ensures
            ledger@ == Records::empty(),
            ledger.wf(),
    {
        let ledger = Ledger { store: RecordStore::new() };
        proof {
            lemma_state_is_first(ledger@);
        }
        ledger
    }

    /// Whether the reward total has room for the reward of the payment
    /// recorded under the id: what `settle_payment` asks before it counts a
    /// payment. There is room too where nothing would be counted.
    pub fn has_room(&self, transaction_id: &str) -> (room: bool)
        requires
            self.wf(),
        ensures
            room == spec_reward_fits(self@, transaction_id@, CreditOutcome::Credited),
    {
        let state = match self.state() {
            Some(state) => state,
            None => {
                return true;
            },
        };
        match self.store.read(&transaction_address(transaction_id)) {
            Ok(Record::Payment(payment)) => payment.credited || payment.transaction.reward
                <= u64::MAX - state.total_rewards_minted,
            _ => true,
        }
    }

    /// The state record, where the ledger has been initialized.
    pub fn state(&self) -> (state: Option<ProgramState>)
        requires
            self.wf(),
        ensures
            state == spec_state(self@),
    {
        match self.store.read(&program_state_address()) {
            Ok(Record::State(state)) => Some(*state),
            _ => None,
        }
    }
}

/// Creates the state record with both counters at zero and returns it. A
/// ledger that has a state record is left as it is, and the call fails with
/// `AlreadyInitialized`.
pub fn initialize(ledger: &mut Ledger, ctx: Initialize) -> (created: Result<
    ProgramState,
    LyptoError,
>)
    requires
        old(ledger).wf(),
    ensures
        final(ledger).wf(),
        final(ledger)@ == spec_initialize(old(ledger)@, ctx).0,
        created == spec_initialize(old(ledger)@, ctx).1,
{
    proof {
        lemma_initialize_keeps_well_formed(ledger@, ctx);
    }
    let state = fresh_state(&ctx);
    match ledger.store.create_if_absent(program_state_address(), Record::State(state)) {
        Ok(_) => Ok(state),
        Err(_) => Err(LyptoError::AlreadyInitialized),
    }
}

/// Records a payment and says what is to be credited for it.
///
/// The inputs are checked first (`InvalidAmount`, then
/// `InvalidTransactionId`), then the state record must exist
/// (`GlobalStateMissing`), and then the transaction record is created at
/// the address of its id: an id that was recorded before is refused with
/// `DuplicateTransaction`. A refused call changes nothing. The counters do
/// not move before `settle_payment` is told that the credit was made.
pub fn process_payment(
    ledger: &mut Ledger,
    ctx: ProcessPayment,
    amount_in_cents: u64,
    transaction_id: String,
) -> (recorded: Result<CreditRequest, LyptoError>)
    requires
        old(ledger).wf(),
    ensures
        final(ledger).wf(),
        final(ledger)@ == spec_process_payment(
            old(ledger)@,
            ctx,
            amount_in_cents,
            transaction_id,
        ).0,
        recorded == spec_process_payment(old(ledger)@, ctx, amount_in_cents, transaction_id).1,
{
    proof {
        lemma_process_payment_keeps_well_formed(ledger@, ctx, amount_in_cents, transaction_id);
    }
    if let Err(error) = validate_payment(amount_in_cents, transaction_id.as_str()) {
        return Err(error);
    }
    let state = match ledger.state() {
        Some(state) => state,
        None => {
            return Err(LyptoError::GlobalStateMissing);
        },
    };
    let address = transaction_address(transaction_id.as_str());
    let request_id = transaction_id.clone();
    let transaction = new_transaction(&ctx, amount_in_cents, transaction_id);
    let reward = transaction.reward;
    let payment = Record::Payment(Payment { transaction, credited: false });
    match ledger.store.create_if_absent(address, payment) {
        Err(_) => Err(LyptoError::DuplicateTransaction),
        Ok(_) => Ok(
            CreditRequest {
                transaction_id: request_id,
                customer: ctx.customer,
                mint: state.lypto_mint,
                amount: reward,
            },
        ),
    }
}

/// Takes the answer of the credit mechanism for a recorded payment.
///
/// Where no payment is recorded under the id the call fails with
/// `NotFound`; where the payment has been counted already, with
/// `DuplicateTransaction`; where the credit was rejected, with
/// `CreditFailure`. In all three cases nothing changes: a payment whose
/// credit was rejected stays recorded and uncounted, so that its id cannot
/// be used again, while its credit can be tried again and settled later.
/// Where the credit was made, the payment is marked as credited, its reward
/// is added to the total and the payment count goes up by one, and the
/// transaction record is returned.
///
/// The reward total must have room for the reward (see `Ledger::has_room`);
/// the payment count always has.
pub fn settle_payment(ledger: &mut Ledger, transaction_id: &str, outcome: CreditOutcome) -> (settled:
    Result<Transaction, LyptoError>)
    requires
        old(ledger).wf(),
        spec_reward_fits(old(ledger)@, transaction_id@, outcome),
    ensures
        final(ledger).wf(),
        final(ledger)@ == spec_settle_payment(old(ledger)@, transaction_id@, outcome).0,
        settled == spec_settle_payment(old(ledger)@, transaction_id@, outcome).1,
{
    let address = transaction_address(transaction_id);
    let transaction = match ledger.store.read(&address) {
        Ok(Record::Payment(payment)) => {
            if payment.credited {
                return Err(LyptoError::DuplicateTransaction);
            }
            payment.transaction.clone()
        },
        _ => {
            return Err(LyptoError::NotFound);
        },
    };
    match outcome {
        CreditOutcome::Rejected => {
            return Err(LyptoError::CreditFailure);
        },
        CreditOutcome::Credited => {},
    }
    let reward = transaction.reward;
    let ghost before = ledger@;
    proof {
        ledger.store.lemma_len_bounded();
        lemma_payment_is_later(before, address@);
        lemma_state_is_first(before);
        lemma_count_bound(before);
        lemma_settle_payment_keeps_well_formed(before, transaction_id@, outcome);
    }
    let mark = |record: &Record| -> (next: Record)
        ensures
            next == spec_marked(*record),
        { record.marked() };
    if ledger.store.mutate(&address, mark).is_err() {
        return Err(LyptoError::NotFound);
    }
    proof {
        assert(ledger@[0] == before[0]);
        lemma_slot_is(ledger@, spec_program_state_address(), 0);
    }
    let count = |record: &Record| -> (next: Record)
        requires
            record matches Record::State(state) ==> state.total_rewards_minted + reward
                <= u64::MAX && state.total_transactions + 1 <= u64::MAX,
        ensures
            next == spec_counted(*record, reward),
        { record.counted(reward) };
    match ledger.store.mutate(&program_state_address(), count) {
        Ok(_) => Ok(transaction),
        Err(_) => Err(LyptoError::GlobalStateMissing),
    }
}

/// The transaction record at an address, or `NotFound` where no payment is
/// recorded there.
pub fn get_transaction(ledger: &Ledger, ctx: GetTransaction) -> (found: Result<
    Transaction,
    LyptoError,
>)
    requires
        ledger.wf(),
    ensures
        found == spec_get_transaction(ledger@, ctx.transaction@),
{
    match ledger.store.read(&ctx.transaction) {
        Ok(Record::Payment(payment)) => Ok(payment.transaction.clone()),
        _ => Err(LyptoError::NotFound),
    }
}

/// Replaces the authority, where the caller is the recorded authority, and
/// returns the new state record. A ledger without state record refuses with
/// `GlobalStateMissing`, any other caller is refused with `Unauthorized`,
/// and a refused call changes nothing. The counters are not touched.
pub fn update_authority(ledger: &mut Ledger, ctx: UpdateAuthority, new_authority: Identity) -> (
    updated: Result<ProgramState, LyptoError>
)
    requires
        old(ledger).wf(),
    ensures
        final(ledger).wf(),
        final(ledger)@ == spec_update_authority(old(ledger)@, ctx, new_authority).0,
        updated == spec_update_authority(old(ledger)@, ctx, new_authority).1,
{
    let state = match ledger.state() {
        Some(state) => state,
        None => {
            return Err(LyptoError::GlobalStateMissing);
        },
    };
    if !check(&ctx.authority, &state.authority) {
        return Err(LyptoError::Unauthorized);
    }
    proof {
        lemma_state_is_first(ledger@);
        lemma_update_authority_keeps_well_formed(ledger@, ctx, new_authority);
    }
    let rotate = |record: &Record| -> (changed: Record)
        ensures
            changed == spec_rotated(*record, new_authority),
        { record.rotated(new_authority) };
    match ledger.store.mutate(&program_state_address(), rotate) {
        Ok(Record::State(next)) => Ok(*next),
        _ => Err(LyptoError::GlobalStateMissing),
    }
}

} // verus!
