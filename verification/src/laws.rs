//! The laws of the ledger: what holds of every history of calls, in
//! whatever order they arrive.

use vstd::prelude::*;
use vstd::utf8::encode_utf8;
use crate::history::{
    spec_both_counted, spec_call_fits, spec_counted_reward, spec_extends, spec_interleaves,
    spec_record_extends, spec_run, spec_run_fits, spec_settled_count, spec_settled_rewards,
    spec_step, spec_succeeds, spec_total_rewards, spec_total_transactions, Call,
};
use crate::identity::Identity;
use crate::invariants::{
    lemma_initialize_keeps_well_formed, lemma_process_payment_effect,
    lemma_process_payment_keeps_well_formed, lemma_settle_payment_effect,
    lemma_settle_payment_keeps_well_formed, lemma_update_authority_keeps_well_formed,
};
use crate::keys::{
    lemma_transaction_address_injective, spec_program_state_address, spec_transaction_address,
};
use crate::model::{
    lemma_payment_is_later, lemma_state_is_first, spec_credited_count, spec_credited_rewards,
    spec_fresh_state, spec_initialize, spec_payment, spec_placed, spec_process_payment,
    spec_settle_payment, spec_state, spec_transaction, spec_update_authority,
    spec_validate_payment, spec_well_formed, CreditRequest, Initialize, Payment, ProcessPayment,
    Record, Records, UpdateAuthority,
};
use crate::records::{
    spec_advanced, CreditOutcome, LyptoError, ProgramState, Transaction,
};
use crate::reward::{lemma_reward_bounded, spec_reward};
use crate::store::{
    lemma_lookup_after_create, lemma_lookup_after_replace, lemma_slot_is, spec_occupied, spec_slot,
};

verus! {

/// Every call keeps a well-formed ledger well formed, wherever the counters
/// have room for what it adds.
pub proof fn law_step_keeps_well_formed(records: Records, call: Call)
    requires
        spec_well_formed(records),
        spec_call_fits(records, call),
    ensures
        spec_well_formed(spec_step(records, call)),
{
    reveal(spec_step);
    reveal(spec_call_fits);
    match call {
        Call::Initialize { ctx } => {
            lemma_initialize_keeps_well_formed(records, ctx);
        },
        Call::ProcessPayment { ctx, amount_in_cents, transaction_id } => {
            lemma_process_payment_keeps_well_formed(records, ctx, amount_in_cents, transaction_id);
        },
        Call::SettlePayment { transaction_id, outcome } => {
            lemma_settle_payment_keeps_well_formed(records, transaction_id@, outcome);
        },
        Call::UpdateAuthority { ctx, new_authority } => {
            lemma_update_authority_keeps_well_formed(records, ctx, new_authority);
        },
    }
}

/// Whatever calls arrive in whatever order, a well-formed ledger stays well
/// formed: in particular its counters are at every moment the number and
/// the reward sum of the credited payments.
pub proof fn law_run_keeps_well_formed(records: Records, calls: Seq<Call>)
    requires
        spec_well_formed(records),
        spec_run_fits(records, calls),
    ensures
        spec_well_formed(spec_run(records, calls)),
    decreases calls.len(),
{
    if calls.len() > 0 {
        law_run_keeps_well_formed(records, calls.drop_last());
        law_step_keeps_well_formed(spec_run(records, calls.drop_last()), calls.last());
    }
}

/// In a well-formed ledger the counters of the state record are the number
/// of credited payments and the sum of their rewards.
pub proof fn law_counters_match_credited_payments(records: Records)
    requires
        spec_well_formed(records),
        spec_state(records) is Some,
    ensures
        spec_state(records)->Some_0.total_transactions == spec_credited_count(records),
        spec_state(records)->Some_0.total_rewards_minted == spec_credited_rewards(records),
{
}

/// No call removes or moves a record, changes a transaction, changes the
/// reward asset, or lowers a counter.
pub proof fn law_step_extends(records: Records, call: Call)
    requires
        spec_well_formed(records),
        spec_call_fits(records, call),
    ensures
        spec_extends(records, spec_step(records, call)),
{
    reveal(spec_step);
    reveal(spec_call_fits);
    let after = spec_step(records, call);
    lemma_state_is_first(records);
    match call {
        Call::SettlePayment { transaction_id, outcome } => {
            if spec_settle_payment(records, transaction_id@, outcome).1 is Ok {
                lemma_payment_is_later(records, spec_transaction_address(transaction_id@));
            }
        },
        _ => {},
    }
    assert forall|k: int| 0 <= k < records.len() implies (#[trigger] after[k]).0 == records[k].0
        && spec_record_extends(records[k].1, after[k].1) by {
        assert(spec_placed(records[k]));
    }
}

/// Whatever calls arrive in whatever order, no record is ever removed or
/// moved, no transaction is ever changed, and no counter ever goes down.
pub proof fn law_run_extends(records: Records, calls: Seq<Call>)
    requires
        spec_well_formed(records),
        spec_run_fits(records, calls),
    ensures
        spec_extends(records, spec_run(records, calls)),
    decreases calls.len(),
{
    if calls.len() == 0 {
        assert forall|k: int| 0 <= k < records.len() implies spec_record_extends(
            (#[trigger] records[k]).1,
            records[k].1,
        ) by {}
    } else {
        let before = spec_run(records, calls.drop_last());
        let after = spec_run(records, calls);
        law_run_extends(records, calls.drop_last());
        law_run_keeps_well_formed(records, calls.drop_last());
        law_step_extends(before, calls.last());
        assert forall|k: int| 0 <= k < records.len() implies (#[trigger] after[k]).0
            == records[k].0 && spec_record_extends(records[k].1, after[k].1) by {
            assert(before[k].0 == records[k].0);
            assert(spec_record_extends(records[k].1, before[k].1));
            assert(spec_record_extends(before[k].1, after[k].1));
        }
    }
}

/// What one call does to the counters: a settlement that succeeds adds the
/// payment's reward to the total and one to the payment count, and no other
/// call moves either.
pub proof fn law_step_counters(records: Records, call: Call)
    requires
        spec_well_formed(records),
        spec_call_fits(records, call),
    ensures
        spec_total_transactions(spec_step(records, call)) == spec_total_transactions(records)
            + match spec_counted_reward(records, call) {
            Some(_) => 1nat,
            None => 0nat,
        },
        spec_total_rewards(spec_step(records, call)) == spec_total_rewards(records)
            + match spec_counted_reward(records, call) {
            Some(reward) => reward as nat,
            None => 0nat,
        },
{
    reveal(spec_step);
    reveal(spec_call_fits);
    reveal(spec_counted_reward);
    let home = spec_program_state_address();
    match call {
        Call::Initialize { ctx } => {
            if spec_initialize(records, ctx).1 is Ok {
                lemma_state_is_first(records);
                lemma_lookup_after_create(
                    records,
                    (home, Record::State(spec_fresh_state(ctx))),
                    home,
                );
            }
        },
        Call::ProcessPayment { ctx, amount_in_cents, transaction_id } => {
            if spec_process_payment(records, ctx, amount_in_cents, transaction_id).1 is Ok {
                lemma_process_payment_effect(
                    records,
                    ctx,
                    amount_in_cents,
                    transaction_id,
                    transaction_id@,
                );
            }
        },
        Call::SettlePayment { transaction_id, outcome } => {
            if spec_settle_payment(records, transaction_id@, outcome).1 is Ok {
                lemma_settle_payment_effect(records, transaction_id@, outcome, transaction_id@);
            }
        },
        Call::UpdateAuthority { ctx, new_authority } => {
            if spec_update_authority(records, ctx, new_authority).1 is Ok {
                lemma_state_is_first(records);
                let state = spec_state(records)->Some_0;
                let next = ProgramState { authority: new_authority, ..state };
                lemma_lookup_after_replace(records, 0, (home, Record::State(next)), home);
            }
        },
    }
}

/// The authority changes by `update_authority` alone, the reward asset and
/// the salt by nothing: every other call, and every call that is refused,
/// leaves the state record's authority as it was.
pub proof fn law_step_authority(records: Records, call: Call)
    requires
        spec_well_formed(records),
        spec_call_fits(records, call),
        spec_state(records) is Some,
    ensures
        spec_state(spec_step(records, call)) is Some,
        spec_state(spec_step(records, call))->Some_0.lypto_mint == spec_state(
            records,
        )->Some_0.lypto_mint,
        spec_state(spec_step(records, call))->Some_0.bump == spec_state(records)->Some_0.bump,
        !(call is UpdateAuthority && spec_succeeds(records, call)) ==> spec_state(
            spec_step(records, call),
        )->Some_0.authority == spec_state(records)->Some_0.authority,
        call matches Call::UpdateAuthority { new_authority, .. } ==> (spec_succeeds(records, call)
            ==> spec_state(spec_step(records, call))->Some_0.authority == new_authority),
{
    law_step_keeps_well_formed(records, call);
    law_step_extends(records, call);
    lemma_state_is_first(records);
    lemma_state_is_first(spec_step(records, call));
    reveal(spec_step);
    match call {
        Call::SettlePayment { transaction_id, outcome } => {
            if spec_settle_payment(records, transaction_id@, outcome).1 is Ok {
                lemma_settle_payment_effect(records, transaction_id@, outcome, transaction_id@);
            }
        },
        _ => {},
    }
}

/// Conservation: after any sequence of calls in any order, the payment
/// count has grown by the number of settlements that succeeded, and the
/// reward total by the sum of their rewards, and by nothing else.
pub proof fn law_conservation(records: Records, calls: Seq<Call>)
    requires
        spec_well_formed(records),
        spec_run_fits(records, calls),
    ensures
        spec_total_transactions(spec_run(records, calls)) == spec_total_transactions(records)
            + spec_settled_count(records, calls),
        spec_total_rewards(spec_run(records, calls)) == spec_total_rewards(records)
            + spec_settled_rewards(records, calls),
    decreases calls.len(),
{
    if calls.len() > 0 {
        law_conservation(records, calls.drop_last());
        law_run_keeps_well_formed(records, calls.drop_last());
        law_step_counters(spec_run(records, calls.drop_last()), calls.last());
    }
}

/// Replay protection: once a payment has been recorded under a transaction
/// id, then whatever calls follow, another payment under the same id is
/// refused and changes nothing. It is refused with `DuplicateTransaction`
/// unless its amount is zero, which is `InvalidAmount` as for any id. So at
/// most one payment per id is ever recorded.
pub proof fn law_replay_is_refused(
    records: Records,
    ctx: ProcessPayment,
    amount_in_cents: u64,
    transaction_id: String,
    calls: Seq<Call>,
    replay_ctx: ProcessPayment,
    replay_amount: u64,
    replay_id: String,
)
    requires
        spec_well_formed(records),
        spec_process_payment(records, ctx, amount_in_cents, transaction_id).1 is Ok,
        replay_id@ == transaction_id@,
        spec_run_fits(
            spec_process_payment(records, ctx, amount_in_cents, transaction_id).0,
            calls,
        ),
    ensures
        ({
            let recorded = spec_process_payment(records, ctx, amount_in_cents, transaction_id).0;
            let later = spec_run(recorded, calls);
            let replay = spec_process_payment(later, replay_ctx, replay_amount, replay_id);
            &&& replay.0 == later
            &&& replay.1 == Err::<CreditRequest, LyptoError>(
                if replay_amount == 0 {
                    LyptoError::InvalidAmount
                } else {
                    LyptoError::DuplicateTransaction
                },
            )
            &&& spec_payment(later, transaction_id@) is Some
            &&& spec_payment(later, transaction_id@)->Some_0.transaction == spec_transaction(
                ctx,
                amount_in_cents,
                transaction_id,
            )
        }),
{
    let address = spec_transaction_address(transaction_id@);
    let recorded = spec_process_payment(records, ctx, amount_in_cents, transaction_id).0;
    let later = spec_run(recorded, calls);
    lemma_process_payment_keeps_well_formed(records, ctx, amount_in_cents, transaction_id);
    law_run_keeps_well_formed(recorded, calls);
    law_run_extends(recorded, calls);
    let i = records.len() as int;
    assert(recorded[i].0 == address);
    assert(later[i].0 == address);
    assert(spec_record_extends(recorded[i].1, later[i].1));
    lemma_slot_is(later, address, i);
    lemma_state_is_first(later);
}

/// A payment counts exactly once: recorded and then settled with the credit
/// made, it adds its reward to the total and one to the payment count, and
/// a second settlement is refused with `DuplicateTransaction` and changes
/// nothing.
pub proof fn law_payment_counts_once(
    records: Records,
    ctx: ProcessPayment,
    amount_in_cents: u64,
    transaction_id: String,
    again: CreditOutcome,
)
    requires
        spec_well_formed(records),
        spec_process_payment(records, ctx, amount_in_cents, transaction_id).1 is Ok,
        spec_state(records)->Some_0.total_rewards_minted + spec_reward(amount_in_cents as nat)
            <= u64::MAX,
        spec_state(records)->Some_0.total_transactions + 1 <= u64::MAX,
    ensures
        ({
            let recorded = spec_process_payment(records, ctx, amount_in_cents, transaction_id).0;
            let settled = spec_settle_payment(recorded, transaction_id@, CreditOutcome::Credited);
            let state = spec_state(records)->Some_0;
            &&& settled.1 == Ok::<Transaction, LyptoError>(
                spec_transaction(ctx, amount_in_cents, transaction_id),
            )
            &&& spec_state(settled.0) == Some(
                ProgramState {
                    total_rewards_minted: (state.total_rewards_minted + spec_reward(
                        amount_in_cents as nat,
                    )) as u64,
                    total_transactions: (state.total_transactions + 1) as u64,
                    ..state
                },
            )
            &&& spec_settle_payment(settled.0, transaction_id@, again) == (
                settled.0,
                Err::<Transaction, LyptoError>(LyptoError::DuplicateTransaction),
            )
        }),
{
    let recorded = spec_process_payment(records, ctx, amount_in_cents, transaction_id).0;
    lemma_reward_bounded(amount_in_cents as nat);
    lemma_process_payment_keeps_well_formed(records, ctx, amount_in_cents, transaction_id);
    lemma_process_payment_effect(records, ctx, amount_in_cents, transaction_id, transaction_id@);
    lemma_settle_payment_effect(
        recorded,
        transaction_id@,
        CreditOutcome::Credited,
        transaction_id@,
    );
}

/// Validation comes first and changes nothing: a zero amount is
/// `InvalidAmount` whatever else is given, and with a positive amount an
/// empty transaction id, or one of more than 64 bytes, is
/// `InvalidTransactionId`. No record is created in either case.
pub proof fn law_invalid_payment_is_refused(
    records: Records,
    ctx: ProcessPayment,
    amount_in_cents: u64,
    transaction_id: String,
)
    ensures
        amount_in_cents == 0 ==> spec_process_payment(
            records,
            ctx,
            amount_in_cents,
            transaction_id,
        ) == (records, Err::<CreditRequest, LyptoError>(LyptoError::InvalidAmount)),
        amount_in_cents != 0 && (transaction_id@.len() == 0 || encode_utf8(transaction_id@).len()
            > 64) ==> spec_process_payment(records, ctx, amount_in_cents, transaction_id) == (
            records,
            Err::<CreditRequest, LyptoError>(LyptoError::InvalidTransactionId),
        ),
{
    if transaction_id@.len() == 0 {
        assert(transaction_id@ =~= Seq::<char>::empty());
        assert(encode_utf8(Seq::<char>::empty()).len() == 0) by {
            reveal_with_fuel(encode_utf8, 1);
        }
    }
}

/// Only the recorded authority rotates the authority. Any other caller is
/// refused with `Unauthorized` and changes nothing. The recorded authority
/// succeeds: the new authority is recorded and nothing else changes, and
/// from then on the old authority, where it differs from the new one, is
/// refused as any other caller is.
pub proof fn law_authority_is_guarded(
    records: Records,
    ctx: UpdateAuthority,
    new_authority: Identity,
    later_choice: Identity,
)
    requires
        spec_well_formed(records),
        spec_state(records) is Some,
    ensures
        ({
            let state = spec_state(records)->Some_0;
            let updated = spec_update_authority(records, ctx, new_authority);
            let stale = UpdateAuthority { authority: state.authority };
            &&& ctx.authority != state.authority ==> updated == (
                records,
                Err::<ProgramState, LyptoError>(LyptoError::Unauthorized),
            )
            &&& ctx.authority == state.authority ==> {
                &&& updated.1 == Ok::<ProgramState, LyptoError>(
                    ProgramState { authority: new_authority, ..state },
                )
                &&& spec_state(updated.0) == Some(
                    ProgramState { authority: new_authority, ..state },
                )
                &&& new_authority != state.authority ==> spec_update_authority(
                    updated.0,
                    stale,
                    later_choice,
                ) == (updated.0, Err::<ProgramState, LyptoError>(LyptoError::Unauthorized))
            }
        }),
{
    let state = spec_state(records)->Some_0;
    if ctx.authority == state.authority {
        let home = spec_program_state_address();
        let next = ProgramState { authority: new_authority, ..state };
        lemma_state_is_first(records);
        lemma_lookup_after_replace(records, 0, (home, Record::State(next)), home);
    }
}

/// Initialization happens once: after a first `initialize` has succeeded,
/// then whatever calls follow, another `initialize` is refused with
/// `AlreadyInitialized` and changes nothing.
pub proof fn law_initialize_once(
    records: Records,
    first: Initialize,
    calls: Seq<Call>,
    second: Initialize,
)
    requires
        spec_well_formed(records),
        spec_initialize(records, first).1 is Ok,
        spec_run_fits(spec_initialize(records, first).0, calls),
    ensures
        ({
            let created = spec_initialize(records, first).0;
            let later = spec_run(created, calls);
            &&& spec_state(created) == Some(spec_fresh_state(first))
            &&& spec_initialize(later, second) == (
                later,
                Err::<ProgramState, LyptoError>(LyptoError::AlreadyInitialized),
            )
        }),
{
    let home = spec_program_state_address();
    let created = spec_initialize(records, first).0;
    lemma_initialize_keeps_well_formed(records, first);
    lemma_state_is_first(records);
    lemma_state_is_first(created);
    law_run_keeps_well_formed(created, calls);
    law_run_extends(created, calls);
    lemma_state_is_first(spec_run(created, calls));
}

/// A sequence of four calls is the four calls made one after the other.
proof fn lemma_run_of_four(records: Records, c0: Call, c1: Call, c2: Call, c3: Call)
    ensures
        spec_run(records, seq![c0, c1, c2, c3]) == spec_step(
            spec_step(spec_step(spec_step(records, c0), c1), c2),
            c3,
        ),
        spec_run_fits(records, seq![c0, c1, c2, c3]) == {
            &&& spec_call_fits(records, c0)
            &&& spec_call_fits(spec_step(records, c0), c1)
            &&& spec_call_fits(spec_step(spec_step(records, c0), c1), c2)
            &&& spec_call_fits(spec_step(spec_step(spec_step(records, c0), c1), c2), c3)
        },
{
    let none = Seq::<Call>::empty();
    let one = seq![c0];
    let two = seq![c0, c1];
    let three = seq![c0, c1, c2];
    let four = seq![c0, c1, c2, c3];
    assert(one.drop_last() =~= none);
    assert(two.drop_last() =~= one);
    assert(three.drop_last() =~= two);
    assert(four.drop_last() =~= three);
    assert(spec_run(records, none) == records);
    assert(spec_run(records, one) == spec_step(records, c0));
    assert(spec_run(records, two) == spec_step(spec_run(records, one), c1));
    assert(spec_run(records, three) == spec_step(spec_run(records, two), c2));
    assert(spec_run(records, four) == spec_step(spec_run(records, three), c3));
    assert(spec_run_fits(records, none));
    assert(spec_run_fits(records, one) == spec_call_fits(records, c0));
    assert(spec_run_fits(records, two) == (spec_run_fits(records, one) && spec_call_fits(
        spec_run(records, one),
        c1,
    )));
    assert(spec_run_fits(records, three) == (spec_run_fits(records, two) && spec_call_fits(
        spec_run(records, two),
        c2,
    )));
    assert(spec_run_fits(records, four) == (spec_run_fits(records, three) && spec_call_fits(
        spec_run(records, three),
        c3,
    )));
}

/// Recording a valid payment under a free id in an initialized ledger
/// succeeds, and touches neither the state record nor any other payment.
proof fn lemma_record_step(
    records: Records,
    ctx: ProcessPayment,
    amount_in_cents: u64,
    transaction_id: String,
    other: Seq<char>,
)
    requires
        spec_well_formed(records),
        spec_validate_payment(amount_in_cents, transaction_id@) is Ok,
        spec_state(records) is Some,
        spec_payment(records, transaction_id@) is None,
        other != transaction_id@,
    ensures
        ({
            let call = Call::ProcessPayment { ctx, amount_in_cents, transaction_id };
            let after = spec_step(records, call);
            &&& spec_succeeds(records, call)
            &&& spec_call_fits(records, call)
            &&& spec_well_formed(after)
            &&& spec_state(after) == spec_state(records)
            &&& spec_payment(after, transaction_id@) == Some(
                Payment {
                    transaction: spec_transaction(ctx, amount_in_cents, transaction_id),
                    credited: false,
                },
            )
            &&& spec_payment(after, other) == spec_payment(records, other)
        }),
{
    reveal(spec_step);
    reveal(spec_call_fits);
    let address = spec_transaction_address(transaction_id@);
    if spec_occupied(records, address) {
        let i = spec_slot(records, address);
        assert(0 <= i < records.len() && records[i].0 == address);
        assert(spec_placed(records[i]));
        lemma_transaction_address_injective(transaction_id@, transaction_id@);
    }
    lemma_process_payment_keeps_well_formed(records, ctx, amount_in_cents, transaction_id);
    lemma_process_payment_effect(records, ctx, amount_in_cents, transaction_id, other);
}

/// Settling a recorded, uncredited payment with the credit made succeeds
/// where the counters have room, advances the state record by that payment,
/// and touches no other payment.
proof fn lemma_settle_step(records: Records, transaction_id: String, other: Seq<char>)
    requires
        spec_well_formed(records),
        spec_state(records) is Some,
        spec_payment(records, transaction_id@) is Some,
        !spec_payment(records, transaction_id@)->Some_0.credited,
        spec_state(records)->Some_0.total_rewards_minted + spec_payment(
            records,
            transaction_id@,
        )->Some_0.transaction.reward <= u64::MAX,
        spec_state(records)->Some_0.total_transactions + 1 <= u64::MAX,
        other != transaction_id@,
    ensures
        ({
            let call = Call::SettlePayment { transaction_id, outcome: CreditOutcome::Credited };
            let after = spec_step(records, call);
            let payment = spec_payment(records, transaction_id@)->Some_0;
            &&& spec_succeeds(records, call)
            &&& spec_call_fits(records, call)
            &&& spec_well_formed(after)
            &&& spec_state(after) == Some(
                spec_advanced(spec_state(records)->Some_0, payment.transaction.reward),
            )
            &&& spec_payment(after, transaction_id@) == Some(
                Payment { transaction: payment.transaction, credited: true },
            )
            &&& spec_payment(after, other) == spec_payment(records, other)
        }),
{
    reveal(spec_step);
    reveal(spec_call_fits);
    lemma_settle_payment_keeps_well_formed(records, transaction_id@, CreditOutcome::Credited);
    lemma_settle_payment_effect(records, transaction_id@, CreditOutcome::Credited, other);
}

/// What is known of two payments at some moment of their processing.
#[verifier::opaque]
spec fn spec_progress(
    records: Records,
    state: ProgramState,
    id_a: Seq<char>,
    payment_a: Option<Payment>,
    id_b: Seq<char>,
    payment_b: Option<Payment>,
) -> bool {
    &&& spec_well_formed(records)
    &&& spec_state(records) == Some(state)
    &&& spec_payment(records, id_a) == payment_a
    &&& spec_payment(records, id_b) == payment_b
}

/// Recording the first of two payments while the second is in any state.
proof fn lemma_progress_record(
    records: Records,
    state: ProgramState,
    ctx: ProcessPayment,
    amount_in_cents: u64,
    transaction_id: String,
    other: Seq<char>,
    other_payment: Option<Payment>,
)
    requires
        spec_progress(records, state, transaction_id@, None, other, other_payment),
        spec_validate_payment(amount_in_cents, transaction_id@) is Ok,
        other != transaction_id@,
    ensures
        spec_call_fits(
            records,
            Call::ProcessPayment { ctx, amount_in_cents, transaction_id },
        ),
        spec_progress(
            spec_step(records, Call::ProcessPayment { ctx, amount_in_cents, transaction_id }),
            state,
            transaction_id@,
            Some(
                Payment {
                    transaction: spec_transaction(ctx, amount_in_cents, transaction_id),
                    credited: false,
                },
            ),
            other,
            other_payment,
        ),
{
    reveal(spec_progress);
    lemma_record_step(records, ctx, amount_in_cents, transaction_id, other);
}

/// Settling the first of two payments while the second is in any state.
proof fn lemma_progress_settle(
    records: Records,
    state: ProgramState,
    transaction_id: String,
    transaction: Transaction,
    other: Seq<char>,
    other_payment: Option<Payment>,
)
    requires
        spec_progress(
            records,
            state,
            transaction_id@,
            Some(Payment { transaction, credited: false }),
            other,
            other_payment,
        ),
        state.total_rewards_minted + transaction.reward <= u64::MAX,
        state.total_transactions + 1 <= u64::MAX,
        other != transaction_id@,
    ensures
        spec_call_fits(
            records,
            Call::SettlePayment { transaction_id, outcome: CreditOutcome::Credited },
        ),
        spec_progress(
            spec_step(
                records,
                Call::SettlePayment { transaction_id, outcome: CreditOutcome::Credited },
            ),
            spec_advanced(state, transaction.reward),
            transaction_id@,
            Some(Payment { transaction, credited: true }),
            other,
            other_payment,
        ),
{
    reveal(spec_progress);
    lemma_settle_step(records, transaction_id, other);
}

/// A payment that would be accepted has valid inputs and a free id, and the
/// ledger is initialized.
proof fn lemma_accepted(
    records: Records,
    ctx: ProcessPayment,
    amount_in_cents: u64,
    transaction_id: String,
)
    requires
        spec_well_formed(records),
        spec_process_payment(records, ctx, amount_in_cents, transaction_id).1 is Ok,
    ensures
        spec_validate_payment(amount_in_cents, transaction_id@) is Ok,
        spec_state(records) is Some,
        spec_payment(records, transaction_id@) is None,
        spec_transaction(ctx, amount_in_cents, transaction_id).reward == spec_reward(
            amount_in_cents as nat,
        ),
{
    lemma_reward_bounded(amount_in_cents as nat);
}

/// Two payments under different ids, the first recorded first: the three
/// orders in which the rest can follow.
proof fn lemma_first_recorded_first(
    records: Records,
    ctx_a: ProcessPayment,
    amount_a: u64,
    id_a: String,
    ctx_b: ProcessPayment,
    amount_b: u64,
    id_b: String,
    order: int,
)
    requires
        spec_well_formed(records),
        id_a@ != id_b@,
        spec_process_payment(records, ctx_a, amount_a, id_a).1 is Ok,
        spec_process_payment(records, ctx_b, amount_b, id_b).1 is Ok,
        spec_state(records)->Some_0.total_rewards_minted + spec_reward(amount_a as nat)
            + spec_reward(amount_b as nat) <= u64::MAX,
        spec_state(records)->Some_0.total_transactions + 2 <= u64::MAX,
        0 <= order < 3,
    ensures
        spec_run_fits(
            records,
            spec_first_recorded_first(ctx_a, amount_a, id_a, ctx_b, amount_b, id_b, order),
        ),
        spec_both_counted(
            records,
            spec_run(
                records,
                spec_first_recorded_first(ctx_a, amount_a, id_a, ctx_b, amount_b, id_b, order),
            ),
            ctx_a,
            amount_a,
            id_a,
            ctx_b,
            amount_b,
            id_b,
        ),
{
    let record_a = Call::ProcessPayment {
        ctx: ctx_a,
        amount_in_cents: amount_a,
        transaction_id: id_a,
    };
    let record_b = Call::ProcessPayment {
        ctx: ctx_b,
        amount_in_cents: amount_b,
        transaction_id: id_b,
    };
    let settle_a = Call::SettlePayment { transaction_id: id_a, outcome: CreditOutcome::Credited };
    let settle_b = Call::SettlePayment { transaction_id: id_b, outcome: CreditOutcome::Credited };
    let state = spec_state(records)->Some_0;
    let ta = spec_transaction(ctx_a, amount_a, id_a);
    let tb = spec_transaction(ctx_b, amount_b, id_b);
    let open_a = Some(Payment { transaction: ta, credited: false });
    let open_b = Some(Payment { transaction: tb, credited: false });
    let done_a = Some(Payment { transaction: ta, credited: true });
    let done_b = Some(Payment { transaction: tb, credited: true });
    lemma_accepted(records, ctx_a, amount_a, id_a);
    lemma_accepted(records, ctx_b, amount_b, id_b);
    assert(spec_progress(records, state, id_a@, None, id_b@, None)) by {
        reveal(spec_progress);
    }
    lemma_progress_record(records, state, ctx_a, amount_a, id_a, id_b@, None);
    let r1 = spec_step(records, record_a);
    let sa = spec_advanced(state, ta.reward);
    let sb = spec_advanced(state, tb.reward);
    let calls = spec_first_recorded_first(ctx_a, amount_a, id_a, ctx_b, amount_b, id_b, order);
    let end = spec_run(records, calls);
    if order == 0 {
        lemma_run_of_four(records, record_a, settle_a, record_b, settle_b);
        lemma_progress_settle(r1, state, id_a, ta, id_b@, None);
        let r2 = spec_step(r1, settle_a);
        assert(spec_progress(r2, sa, id_b@, None, id_a@, done_a)) by {
            reveal(spec_progress);
        }
        lemma_progress_record(r2, sa, ctx_b, amount_b, id_b, id_a@, done_a);
        let r3 = spec_step(r2, record_b);
        lemma_progress_settle(r3, sa, id_b, tb, id_a@, done_a);
        assert(spec_progress(end, spec_advanced(sa, tb.reward), id_b@, done_b, id_a@, done_a));
    } else {
        assert(spec_progress(r1, state, id_b@, None, id_a@, open_a)) by {
            reveal(spec_progress);
        }
        lemma_progress_record(r1, state, ctx_b, amount_b, id_b, id_a@, open_a);
        let r2 = spec_step(r1, record_b);
        if order == 1 {
            lemma_run_of_four(records, record_a, record_b, settle_a, settle_b);
            assert(spec_progress(r2, state, id_a@, open_a, id_b@, open_b)) by {
                reveal(spec_progress);
            }
            lemma_progress_settle(r2, state, id_a, ta, id_b@, open_b);
            let r3 = spec_step(r2, settle_a);
            assert(spec_progress(r3, sa, id_b@, open_b, id_a@, done_a)) by {
                reveal(spec_progress);
            }
            lemma_progress_settle(r3, sa, id_b, tb, id_a@, done_a);
            assert(spec_progress(end, spec_advanced(sa, tb.reward), id_b@, done_b, id_a@, done_a));
        } else {
            lemma_run_of_four(records, record_a, record_b, settle_b, settle_a);
            lemma_progress_settle(r2, state, id_b, tb, id_a@, open_a);
            let r3 = spec_step(r2, settle_b);
            assert(spec_progress(r3, sb, id_a@, open_a, id_b@, done_b)) by {
                reveal(spec_progress);
            }
            lemma_progress_settle(r3, sb, id_a, ta, id_b@, done_b);
            assert(spec_progress(end, spec_advanced(sb, ta.reward), id_b@, done_b, id_a@, done_a))
                by {
                reveal(spec_progress);
            }
        }
    }
    assert(spec_both_counted(records, end, ctx_a, amount_a, id_a, ctx_b, amount_b, id_b)) by {
        reveal(spec_progress);
    }
}

/// The three orders in which two payments can arrive when the first is
/// recorded first.
spec fn spec_first_recorded_first(
    ctx_a: ProcessPayment,
    amount_a: u64,
    id_a: String,
    ctx_b: ProcessPayment,
    amount_b: u64,
    id_b: String,
    order: int,
) -> Seq<Call> {
    let record_a = Call::ProcessPayment {
        ctx: ctx_a,
        amount_in_cents: amount_a,
        transaction_id: id_a,
    };
    let record_b = Call::ProcessPayment {
        ctx: ctx_b,
        amount_in_cents: amount_b,
        transaction_id: id_b,
    };
    let settle_a = Call::SettlePayment { transaction_id: id_a, outcome: CreditOutcome::Credited };
    let settle_b = Call::SettlePayment { transaction_id: id_b, outcome: CreditOutcome::Credited };
    if order == 0 {
        seq![record_a, settle_a, record_b, settle_b]
    } else if order == 1 {
        seq![record_a, record_b, settle_a, settle_b]
    } else {
        seq![record_a, record_b, settle_b, settle_a]
    }
}

/// Concurrent payments under different ids do not disturb each other: where
/// each of the two would be accepted by itself and the counters have room
/// for both, then in whichever of the six orders their recordings and
/// settlements arrive, both are recorded, both are counted, and the
/// counters show both. The customers may be the same or not.
pub proof fn law_concurrent_payments_both_count(
    records: Records,
    ctx_a: ProcessPayment,
    amount_a: u64,
    id_a: String,
    ctx_b: ProcessPayment,
    amount_b: u64,
    id_b: String,
    order: Seq<Call>,
)
    requires
        spec_well_formed(records),
        id_a@ != id_b@,
        spec_process_payment(records, ctx_a, amount_a, id_a).1 is Ok,
        spec_process_payment(records, ctx_b, amount_b, id_b).1 is Ok,
        spec_state(records)->Some_0.total_rewards_minted + spec_reward(amount_a as nat)
            + spec_reward(amount_b as nat) <= u64::MAX,
        spec_state(records)->Some_0.total_transactions + 2 <= u64::MAX,
        spec_interleaves(
            order,
            Call::ProcessPayment { ctx: ctx_a, amount_in_cents: amount_a, transaction_id: id_a },
            Call::SettlePayment { transaction_id: id_a, outcome: CreditOutcome::Credited },
            Call::ProcessPayment { ctx: ctx_b, amount_in_cents: amount_b, transaction_id: id_b },
            Call::SettlePayment { transaction_id: id_b, outcome: CreditOutcome::Credited },
        ),
    ensures
        spec_run_fits(records, order),
        spec_both_counted(
            records,
            spec_run(records, order),
            ctx_a,
            amount_a,
            id_a,
            ctx_b,
            amount_b,
            id_b,
        ),
        spec_settled_count(records, order) == 2,
        spec_settled_rewards(records, order) == spec_reward(amount_a as nat) + spec_reward(
            amount_b as nat,
        ),
{
    let record_a = Call::ProcessPayment {
        ctx: ctx_a,
        amount_in_cents: amount_a,
        transaction_id: id_a,
    };
    let record_b = Call::ProcessPayment {
        ctx: ctx_b,
        amount_in_cents: amount_b,
        transaction_id: id_b,
    };
    let settle_a = Call::SettlePayment { transaction_id: id_a, outcome: CreditOutcome::Credited };
    let settle_b = Call::SettlePayment { transaction_id: id_b, outcome: CreditOutcome::Credited };
    if order == seq![record_a, settle_a, record_b, settle_b] {
        lemma_first_recorded_first(records, ctx_a, amount_a, id_a, ctx_b, amount_b, id_b, 0);
    } else if order == seq![record_a, record_b, settle_a, settle_b] {
        lemma_first_recorded_first(records, ctx_a, amount_a, id_a, ctx_b, amount_b, id_b, 1);
    } else if order == seq![record_a, record_b, settle_b, settle_a] {
        lemma_first_recorded_first(records, ctx_a, amount_a, id_a, ctx_b, amount_b, id_b, 2);
    } else if order == seq![record_b, settle_b, record_a, settle_a] {
        lemma_first_recorded_first(records, ctx_b, amount_b, id_b, ctx_a, amount_a, id_a, 0);
    } else if order == seq![record_b, record_a, settle_b, settle_a] {
        lemma_first_recorded_first(records, ctx_b, amount_b, id_b, ctx_a, amount_a, id_a, 1);
    } else {
        lemma_first_recorded_first(records, ctx_b, amount_b, id_b, ctx_a, amount_a, id_a, 2);
    }
    lemma_reward_bounded(amount_a as nat);
    lemma_reward_bounded(amount_b as nat);
    law_conservation(records, order);
}

} // verus!
