//! Histories: what a ledger becomes under a sequence of calls, in whatever
//! order they arrive.

use vstd::prelude::*;
use crate::identity::Identity;
use crate::model::{
    spec_initialize, spec_payment, spec_process_payment, spec_settle_fits, spec_settle_payment,
    spec_state, spec_transaction, spec_update_authority, spec_well_formed, Initialize, Payment,
    ProcessPayment, Record, Records, UpdateAuthority,
};
use crate::records::{CreditOutcome, ProgramState};
use crate::reward::spec_reward;

verus! {

/// One call of an operation that can change the ledger, with what it was
/// given.
#[allow(inconsistent_fields)]
pub enum Call {
    Initialize { ctx: Initialize },
    ProcessPayment { ctx: ProcessPayment, amount_in_cents: u64, transaction_id: String },
    SettlePayment { transaction_id: String, outcome: CreditOutcome },
    UpdateAuthority { ctx: UpdateAuthority, new_authority: Identity },
}

/// The ledger after one call: what the operation of that name makes of it.
/// The definition is hidden from the solver until it is revealed.
#[verifier::opaque]
pub open spec fn spec_step(records: Records, call: Call) -> Records {
    match call {
        Call::Initialize { ctx } => spec_initialize(records, ctx).0,
        Call::ProcessPayment { ctx, amount_in_cents, transaction_id } => spec_process_payment(
            records,
            ctx,
            amount_in_cents,
            transaction_id,
        ).0,
        Call::SettlePayment { transaction_id, outcome } => spec_settle_payment(
            records,
            transaction_id@,
            outcome,
        ).0,
        Call::UpdateAuthority { ctx, new_authority } => spec_update_authority(
            records,
            ctx,
            new_authority,
        ).0,
    }
}

/// Whether a call succeeds.
pub open spec fn spec_succeeds(records: Records, call: Call) -> bool {
    match call {
        Call::Initialize { ctx } => spec_initialize(records, ctx).1 is Ok,
        Call::ProcessPayment { ctx, amount_in_cents, transaction_id } => spec_process_payment(
            records,
            ctx,
            amount_in_cents,
            transaction_id,
        ).1 is Ok,
        Call::SettlePayment { transaction_id, outcome } => spec_settle_payment(
            records,
            transaction_id@,
            outcome,
        ).1 is Ok,
        Call::UpdateAuthority { ctx, new_authority } => spec_update_authority(
            records,
            ctx,
            new_authority,
        ).1 is Ok,
    }
}

/// Whether the counters have room for what a call would add. The
/// definition is hidden from the solver until it is revealed.
#[verifier::opaque]
pub open spec fn spec_call_fits(records: Records, call: Call) -> bool {
    match call {
        Call::SettlePayment { transaction_id, outcome } => spec_settle_fits(
            records,
            transaction_id@,
            outcome,
        ),
        _ => true,
    }
}

/// The ledger after a sequence of calls, made one after the other.
pub open spec fn spec_run(records: Records, calls: Seq<Call>) -> Records
    decreases calls.len(),
{
    if calls.len() == 0 {
        records
    } else {
        spec_step(spec_run(records, calls.drop_last()), calls.last())
    }
}

/// Whether the counters have room for every call of a sequence, at the
/// moment it is made.
pub open spec fn spec_run_fits(records: Records, calls: Seq<Call>) -> bool
    decreases calls.len(),
{
    if calls.len() == 0 {
        true
    } else {
        &&& spec_run_fits(records, calls.drop_last())
        &&& spec_call_fits(spec_run(records, calls.drop_last()), calls.last())
    }
}

/// The reward that a call has counted: that of the payment, where the call
/// is a settlement that succeeds, and nothing else. The definition is hidden
/// from the solver until it is revealed.
#[verifier::opaque]
pub open spec fn spec_counted_reward(records: Records, call: Call) -> Option<u64> {
    match call {
        Call::SettlePayment { transaction_id, outcome } => if spec_succeeds(records, call) {
            Some(spec_payment(records, transaction_id@)->Some_0.transaction.reward)
        } else {
            None
        },
        _ => None,
    }
}

/// The number of payments that a sequence of calls has counted.
pub open spec fn spec_settled_count(records: Records, calls: Seq<Call>) -> nat
    decreases calls.len(),
{
    if calls.len() == 0 {
        0
    } else {
        spec_settled_count(records, calls.drop_last()) + match spec_counted_reward(
            spec_run(records, calls.drop_last()),
            calls.last(),
        ) {
            Some(_) => 1nat,
            None => 0nat,
        }
    }
}

/// The sum of the rewards that a sequence of calls has counted.
pub open spec fn spec_settled_rewards(records: Records, calls: Seq<Call>) -> nat
    decreases calls.len(),
{
    if calls.len() == 0 {
        0
    } else {
        spec_settled_rewards(records, calls.drop_last()) + match spec_counted_reward(
            spec_run(records, calls.drop_last()),
            calls.last(),
        ) {
            Some(reward) => reward as nat,
            None => 0nat,
        }
    }
}

/// The payment count of a ledger; zero before it is initialized.
pub open spec fn spec_total_transactions(records: Records) -> nat {
    match spec_state(records) {
        Some(state) => state.total_transactions as nat,
        None => 0,
    }
}

/// The reward total of a ledger; zero before it is initialized.
pub open spec fn spec_total_rewards(records: Records) -> nat {
    match spec_state(records) {
        Some(state) => state.total_rewards_minted as nat,
        None => 0,
    }
}

/// What may become of a record: a state record keeps its asset and its
/// salt, and its counters never go down; a payment keeps its transaction,
/// and once credited it stays credited.
pub open spec fn spec_record_extends(before: Record, after: Record) -> bool {
    match (before, after) {
        (Record::State(a), Record::State(b)) => {
            &&& a.lypto_mint == b.lypto_mint
            &&& a.bump == b.bump
            &&& a.total_rewards_minted <= b.total_rewards_minted
            &&& a.total_transactions <= b.total_transactions
        },
        (Record::Payment(a), Record::Payment(b)) => {
            &&& a.transaction == b.transaction
            &&& a.credited ==> b.credited
        },
        _ => false,
    }
}

/// What may become of a ledger: every record stays in its place at its
/// address, and changes only as a record may.
pub open spec fn spec_extends(before: Records, after: Records) -> bool {
    &&& before.len() <= after.len()
    &&& forall|i: int|
        0 <= i < before.len() ==> (#[trigger] after[i]).0 == before[i].0 && spec_record_extends(
            before[i].1,
            after[i].1,
        )
}

/// The orders in which two payments can arrive when each is recorded before
/// it is settled and nothing else is known: the two recordings and the two
/// settlements, interleaved in each of the six possible ways.
pub open spec fn spec_interleaves(
    order: Seq<Call>,
    record_a: Call,
    settle_a: Call,
    record_b: Call,
    settle_b: Call,
) -> bool {
    ||| order == seq![record_a, settle_a, record_b, settle_b]
    ||| order == seq![record_a, record_b, settle_a, settle_b]
    ||| order == seq![record_a, record_b, settle_b, settle_a]
    ||| order == seq![record_b, settle_b, record_a, settle_a]
    ||| order == seq![record_b, record_a, settle_b, settle_a]
    ||| order == seq![record_b, record_a, settle_a, settle_b]
}

/// What it means that two payments have both been recorded and counted:
/// both records are there and credited, and the state record has the
/// rewards of both in its total and both in its payment count, and is
/// otherwise as before.
pub open spec fn spec_both_counted(
    before: Records,
    after: Records,
    ctx_a: ProcessPayment,
    amount_a: u64,
    id_a: String,
    ctx_b: ProcessPayment,
    amount_b: u64,
    id_b: String,
) -> bool {
    let state = spec_state(before)->Some_0;
    &&& spec_well_formed(after)
    &&& spec_payment(after, id_a@) == Some(
        Payment { transaction: spec_transaction(ctx_a, amount_a, id_a), credited: true },
    )
    &&& spec_payment(after, id_b@) == Some(
        Payment { transaction: spec_transaction(ctx_b, amount_b, id_b), credited: true },
    )
    &&& spec_state(after) == Some(
        ProgramState {
            total_rewards_minted: (state.total_rewards_minted + spec_reward(amount_a as nat)
                + spec_reward(amount_b as nat)) as u64,
            total_transactions: (state.total_transactions + 2) as u64,
            ..state
        },
    )
}

} // verus!
