//! The ledger's invariant under each operation, and what each operation
//! leaves behind.

use vstd::prelude::*;
use crate::identity::Identity;
use crate::keys::{
    lemma_transaction_address_injective, spec_program_state_address, spec_transaction_address,
};
use crate::model::{
    lemma_payment_is_later, lemma_state_is_first, lemma_totals_push, lemma_totals_update,
    spec_fresh_state, spec_initialize, spec_payment, spec_placed,
    spec_process_payment, spec_settle_fits, spec_settle_payment, spec_shaped, spec_state,
    spec_transaction, spec_update_authority, spec_validate_payment, spec_well_formed, Initialize,
    Payment, ProcessPayment, Record, Records, UpdateAuthority,
};
use crate::records::{spec_advanced, CreditOutcome, ProgramState};
use crate::reward::lemma_reward_bounded;
use crate::store::{
    lemma_lookup_after_create, lemma_lookup_after_replace, spec_occupied, spec_slot,
};

verus! {

/// Adding a record at a free address keeps the shape of a ledger, provided
/// the record sits at its own address and is not a second state record.
pub proof fn lemma_push_keeps_shape(records: Records, entry: (Seq<u8>, Record))
    requires
        spec_shaped(records),
        !spec_occupied(records, entry.0),
        spec_placed(entry),
        entry.1 is State <==> records.len() == 0,
    ensures
        spec_shaped(records.push(entry)),
        spec_state(records.push(entry)) == if records.len() == 0 {
            Some(entry.1->State_0)
        } else {
            spec_state(records)
        },
{
    let after = records.push(entry);
    lemma_lookup_after_create(records, entry, entry.0);
    assert forall|i: int| 0 <= i < after.len() implies spec_placed(#[trigger] after[i]) by {
        if i < records.len() {
            assert(spec_placed(records[i]));
        }
    }
    lemma_state_is_first(records);
    lemma_state_is_first(after);
}

/// Replacing a record by one of the same kind at the same address keeps the
/// shape of a ledger.
pub proof fn lemma_update_keeps_shape(records: Records, i: int, entry: (Seq<u8>, Record))
    requires
        spec_shaped(records),
        0 <= i < records.len(),
        entry.0 == records[i].0,
        spec_placed(entry),
        entry.1 is State <==> records[i].1 is State,
    ensures
        spec_shaped(records.update(i, entry)),
{
    let after = records.update(i, entry);
    lemma_lookup_after_replace(records, i, entry, entry.0);
    assert forall|k: int| 0 <= k < after.len() implies spec_placed(#[trigger] after[k]) by {
        if k != i {
            assert(spec_placed(records[k]));
        }
    }
}

/// `initialize` keeps a well-formed ledger well formed.
pub proof fn lemma_initialize_keeps_well_formed(records: Records, ctx: Initialize)
    requires
        spec_well_formed(records),
    ensures
        spec_well_formed(spec_initialize(records, ctx).0),
{
    let home = spec_program_state_address();
    if !spec_occupied(records, home) {
        lemma_state_is_first(records);
        let entry = (home, Record::State(spec_fresh_state(ctx)));
        lemma_push_keeps_shape(records, entry);
        lemma_totals_push(records, entry);
    }
}

/// `process_payment` keeps a well-formed ledger well formed.
pub proof fn lemma_process_payment_keeps_well_formed(
    records: Records,
    ctx: ProcessPayment,
    amount_in_cents: u64,
    transaction_id: String,
)
    requires
        spec_well_formed(records),
    ensures
        spec_well_formed(spec_process_payment(records, ctx, amount_in_cents, transaction_id).0),
{
    let after = spec_process_payment(records, ctx, amount_in_cents, transaction_id).0;
    let address = spec_transaction_address(transaction_id@);
    if spec_validate_payment(amount_in_cents, transaction_id@) is Ok && spec_state(records) is Some
        && !spec_occupied(records, address) {
        let transaction = spec_transaction(ctx, amount_in_cents, transaction_id);
        let entry = (address, Record::Payment(Payment { transaction, credited: false }));
        lemma_state_is_first(records);
        lemma_reward_bounded(amount_in_cents as nat);
        assert(transaction.valid());
        lemma_push_keeps_shape(records, entry);
        lemma_totals_push(records, entry);
    }
}

/// `settle_payment` keeps a well-formed ledger well formed, wherever the
/// counters have room for what it adds.
pub proof fn lemma_settle_payment_keeps_well_formed(
    records: Records,
    transaction_id: Seq<char>,
    outcome: CreditOutcome,
)
    requires
        spec_well_formed(records),
        spec_settle_fits(records, transaction_id, outcome),
    ensures
        spec_well_formed(spec_settle_payment(records, transaction_id, outcome).0),
{
    let address = spec_transaction_address(transaction_id);
    let home = spec_program_state_address();
    if let Some(payment) = spec_payment(records, transaction_id) {
        if !payment.credited && outcome == CreditOutcome::Credited {
            lemma_payment_is_later(records, address);
            lemma_state_is_first(records);
            let state = spec_state(records)->Some_0;
            let i = spec_slot(records, address);
            let marked = (
                address,
                Record::Payment(Payment { transaction: payment.transaction, credited: true }),
            );
            let counted = (
                home,
                Record::State(spec_advanced(state, payment.transaction.reward)),
            );
            let middle = records.update(i, marked);
            lemma_update_keeps_shape(records, i, marked);
            lemma_totals_update(records, i, marked);
            lemma_update_keeps_shape(middle, 0, counted);
            lemma_totals_update(middle, 0, counted);
            lemma_state_is_first(middle.update(0, counted));
        }
    }
}

/// `update_authority` keeps a well-formed ledger well formed.
pub proof fn lemma_update_authority_keeps_well_formed(
    records: Records,
    ctx: UpdateAuthority,
    new_authority: Identity,
)
    requires
        spec_well_formed(records),
    ensures
        spec_well_formed(spec_update_authority(records, ctx, new_authority).0),
{
    let home = spec_program_state_address();
    if let Some(state) = spec_state(records) {
        if ctx.authority == state.authority {
            lemma_state_is_first(records);
            let next = ProgramState { authority: new_authority, ..state };
            let entry = (home, Record::State(next));
            lemma_update_keeps_shape(records, 0, entry);
            lemma_totals_update(records, 0, entry);
            lemma_state_is_first(records.update(0, entry));
        }
    }
}

/// What a recorded payment leaves behind: the state record as it was, the
/// new payment under its id, uncredited, and every other payment as it was.
pub proof fn lemma_process_payment_effect(
    records: Records,
    ctx: ProcessPayment,
    amount_in_cents: u64,
    transaction_id: String,
    other: Seq<char>,
)
    requires
        spec_well_formed(records),
        spec_process_payment(records, ctx, amount_in_cents, transaction_id).1 is Ok,
    ensures
        ({
            let after = spec_process_payment(records, ctx, amount_in_cents, transaction_id).0;
            &&& spec_payment(records, transaction_id@) is None
            &&& spec_state(after) == spec_state(records)
            &&& spec_payment(after, transaction_id@) == Some(
                Payment {
                    transaction: spec_transaction(ctx, amount_in_cents, transaction_id),
                    credited: false,
                },
            )
            &&& other != transaction_id@ ==> spec_payment(after, other) == spec_payment(
                records,
                other,
            )
        }),
{
    let address = spec_transaction_address(transaction_id@);
    let transaction = spec_transaction(ctx, amount_in_cents, transaction_id);
    let entry = (address, Record::Payment(Payment { transaction, credited: false }));
    lemma_transaction_address_injective(transaction_id@, other);
    lemma_lookup_after_create(records, entry, address);
    lemma_lookup_after_create(records, entry, spec_program_state_address());
    lemma_lookup_after_create(records, entry, spec_transaction_address(other));
}

/// What a counted payment leaves behind: the state record advanced by the
/// payment's reward and by one payment, the payment marked as credited, and
/// every other payment as it was.
pub proof fn lemma_settle_payment_effect(
    records: Records,
    transaction_id: Seq<char>,
    outcome: CreditOutcome,
    other: Seq<char>,
)
    requires
        spec_well_formed(records),
        spec_settle_payment(records, transaction_id, outcome).1 is Ok,
    ensures
        ({
            let after = spec_settle_payment(records, transaction_id, outcome).0;
            let payment = spec_payment(records, transaction_id)->Some_0;
            &&& outcome == CreditOutcome::Credited
            &&& spec_payment(records, transaction_id) is Some
            &&& !payment.credited
            &&& spec_state(records) is Some
            &&& spec_state(after) == Some(
                spec_advanced(spec_state(records)->Some_0, payment.transaction.reward),
            )
            &&& spec_payment(after, transaction_id) == Some(
                Payment { transaction: payment.transaction, credited: true },
            )
            &&& other != transaction_id ==> spec_payment(after, other) == spec_payment(
                records,
                other,
            )
        }),
{
    let address = spec_transaction_address(transaction_id);
    let home = spec_program_state_address();
    let payment = spec_payment(records, transaction_id)->Some_0;
    lemma_payment_is_later(records, address);
    lemma_state_is_first(records);
    let state = spec_state(records)->Some_0;
    let i = spec_slot(records, address);
    let marked = (
        address,
        Record::Payment(Payment { transaction: payment.transaction, credited: true }),
    );
    let counted = (home, Record::State(spec_advanced(state, payment.transaction.reward)));
    let middle = records.update(i, marked);
    lemma_transaction_address_injective(transaction_id, other);
    lemma_lookup_after_replace(records, i, marked, address);
    lemma_lookup_after_replace(records, i, marked, home);
    lemma_lookup_after_replace(records, i, marked, spec_transaction_address(other));
    lemma_lookup_after_replace(middle, 0, counted, address);
    lemma_lookup_after_replace(middle, 0, counted, home);
    lemma_lookup_after_replace(middle, 0, counted, spec_transaction_address(other));
}

} // verus!
