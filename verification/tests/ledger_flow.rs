use lypto_rewards::identity::Identity;
use lypto_rewards::keys::{program_state_address, transaction_address};
use lypto_rewards::ledger::{
    get_transaction, initialize, process_payment, settle_payment, update_authority, Ledger,
};
use lypto_rewards::model::{
    CreditRequest, GetTransaction, Initialize, ProcessPayment, UpdateAuthority,
};
use lypto_rewards::records::{CreditOutcome, LyptoError, ProgramState, Transaction};

fn id(tag: u8) -> Identity {
    Identity::new([tag; 32])
}

fn setup() -> Ledger {
    let mut ledger = Ledger::new();
    let created = initialize(
        &mut ledger,
        Initialize { authority: id(1), lypto_mint: id(2), bump: 254 },
    );
    assert!(created.is_ok());
    ledger
}

fn payment(customer: u8, merchant: u8, timestamp: i64) -> ProcessPayment {
    ProcessPayment { customer: id(customer), merchant: id(merchant), timestamp, bump: 253 }
}

#[test]
fn initialize_creates_state_with_zero_counters() {
    let mut ledger = Ledger::new();
    assert_eq!(ledger.state(), None);
    let created = initialize(
        &mut ledger,
        Initialize { authority: id(1), lypto_mint: id(2), bump: 254 },
    );
    let expected = ProgramState {
        authority: id(1),
        lypto_mint: id(2),
        total_rewards_minted: 0,
        total_transactions: 0,
        bump: 254,
    };
    assert_eq!(created, Ok(expected));
    assert_eq!(ledger.state(), Some(expected));
}

#[test]
fn initialize_twice_fails_and_keeps_first_state() {
    let mut ledger = setup();
    let first = ledger.state();
    let second = initialize(
        &mut ledger,
        Initialize { authority: id(9), lypto_mint: id(8), bump: 7 },
    );
    assert_eq!(second, Err(LyptoError::AlreadyInitialized));
    assert_eq!(ledger.state(), first);
}

#[test]
fn initialize_after_payments_still_fails() {
    let mut ledger = setup();
    process_payment(&mut ledger, payment(3, 4, 10), 1000, String::from("tx-1")).unwrap();
    settle_payment(&mut ledger, "tx-1", CreditOutcome::Credited).unwrap();
    let before = ledger.state();
    let again = initialize(
        &mut ledger,
        Initialize { authority: id(9), lypto_mint: id(8), bump: 7 },
    );
    assert_eq!(again, Err(LyptoError::AlreadyInitialized));
    assert_eq!(ledger.state(), before);
}

#[test]
fn payment_is_recorded_and_asks_for_credit() {
    let mut ledger = setup();
    let request = process_payment(&mut ledger, payment(3, 4, 1_700_000_000), 1000, String::from("tx-1"));
    assert_eq!(
        request,
        Ok(CreditRequest {
            transaction_id: String::from("tx-1"),
            customer: id(3),
            mint: id(2),
            amount: 20,
        })
    );
    let state = ledger.state().unwrap();
    assert_eq!(state.total_rewards_minted, 0);
    assert_eq!(state.total_transactions, 0);
    let found = get_transaction(&ledger, GetTransaction { transaction: transaction_address("tx-1") });
    assert_eq!(
        found,
        Ok(Transaction {
            transaction_id: String::from("tx-1"),
            customer: id(3),
            merchant: id(4),
            amount: 1000,
            reward: 20,
            timestamp: 1_700_000_000,
            bump: 253,
        })
    );
}

#[test]
fn settled_payment_advances_counters_and_returns_record() {
    let mut ledger = setup();
    process_payment(&mut ledger, payment(3, 4, 77), 1000, String::from("tx-1")).unwrap();
    let settled = settle_payment(&mut ledger, "tx-1", CreditOutcome::Credited);
    assert_eq!(
        settled,
        Ok(Transaction {
            transaction_id: String::from("tx-1"),
            customer: id(3),
            merchant: id(4),
            amount: 1000,
            reward: 20,
            timestamp: 77,
            bump: 253,
        })
    );
    let state = ledger.state().unwrap();
    assert_eq!(state.total_rewards_minted, 20);
    assert_eq!(state.total_transactions, 1);
    assert_eq!(state.authority, id(1));
    assert_eq!(state.lypto_mint, id(2));
    assert_eq!(state.bump, 254);
}

#[test]
fn zero_amount_is_invalid_and_creates_no_record() {
    let mut ledger = setup();
    let refused = process_payment(&mut ledger, payment(3, 4, 0), 0, String::from("tx-1"));
    assert_eq!(refused, Err(LyptoError::InvalidAmount));
    let found = get_transaction(&ledger, GetTransaction { transaction: transaction_address("tx-1") });
    assert_eq!(found, Err(LyptoError::NotFound));
    let accepted = process_payment(&mut ledger, payment(3, 4, 0), 5, String::from("tx-1"));
    assert!(accepted.is_ok());
}

#[test]
fn empty_transaction_id_is_invalid() {
    let mut ledger = setup();
    let refused = process_payment(&mut ledger, payment(3, 4, 0), 1000, String::new());
    assert_eq!(refused, Err(LyptoError::InvalidTransactionId));
    let found = get_transaction(&ledger, GetTransaction { transaction: transaction_address("") });
    assert_eq!(found, Err(LyptoError::NotFound));
}

#[test]
fn transaction_id_length_limit_is_64_bytes() {
    let mut ledger = setup();
    let longest = "a".repeat(64);
    let too_long = "a".repeat(65);
    assert!(process_payment(&mut ledger, payment(3, 4, 0), 100, longest).is_ok());
    assert_eq!(
        process_payment(&mut ledger, payment(3, 4, 0), 100, too_long),
        Err(LyptoError::InvalidTransactionId)
    );
    // 22 three-byte characters are 66 bytes; 21 are 63.
    let wide = "\u{20AC}".repeat(22);
    let fits = "\u{20AC}".repeat(21);
    assert_eq!(
        process_payment(&mut ledger, payment(3, 4, 0), 100, wide),
        Err(LyptoError::InvalidTransactionId)
    );
    assert!(process_payment(&mut ledger, payment(3, 4, 0), 100, fits).is_ok());
    assert!(process_payment(&mut ledger, payment(3, 4, 0), 100, String::from("x")).is_ok());
}

#[test]
fn zero_amount_is_reported_before_bad_id() {
    let mut ledger = setup();
    let refused = process_payment(&mut ledger, payment(3, 4, 0), 0, String::new());
    assert_eq!(refused, Err(LyptoError::InvalidAmount));
}

#[test]
fn invalid_input_is_reported_before_missing_state() {
    let mut ledger = Ledger::new();
    assert_eq!(
        process_payment(&mut ledger, payment(3, 4, 0), 0, String::from("tx-1")),
        Err(LyptoError::InvalidAmount)
    );
    assert_eq!(
        process_payment(&mut ledger, payment(3, 4, 0), 10, String::new()),
        Err(LyptoError::InvalidTransactionId)
    );
}

#[test]
fn payment_before_initialize_is_refused() {
    let mut ledger = Ledger::new();
    let refused = process_payment(&mut ledger, payment(3, 4, 0), 1000, String::from("tx-1"));
    assert_eq!(refused, Err(LyptoError::GlobalStateMissing));
    let found = get_transaction(&ledger, GetTransaction { transaction: transaction_address("tx-1") });
    assert_eq!(found, Err(LyptoError::NotFound));
    assert_eq!(ledger.state(), None);
}

#[test]
fn duplicate_transaction_is_refused_and_counted_once() {
    let mut ledger = setup();
    process_payment(&mut ledger, payment(3, 4, 5), 1000, String::from("tx-1")).unwrap();
    settle_payment(&mut ledger, "tx-1", CreditOutcome::Credited).unwrap();
    let after_first = ledger.state();
    let replay = process_payment(&mut ledger, payment(6, 7, 9), 5000, String::from("tx-1"));
    assert_eq!(replay, Err(LyptoError::DuplicateTransaction));
    assert_eq!(ledger.state(), after_first);
    let state = ledger.state().unwrap();
    assert_eq!(state.total_rewards_minted, 20);
    assert_eq!(state.total_transactions, 1);
    // The first record is untouched by the replay.
    let found = get_transaction(&ledger, GetTransaction { transaction: transaction_address("tx-1") })
        .unwrap();
    assert_eq!(found.customer, id(3));
    assert_eq!(found.amount, 1000);
    assert_eq!(found.timestamp, 5);
}

#[test]
fn duplicate_is_refused_before_settlement_too() {
    let mut ledger = setup();
    process_payment(&mut ledger, payment(3, 4, 5), 1000, String::from("tx-1")).unwrap();
    let replay = process_payment(&mut ledger, payment(3, 4, 5), 1000, String::from("tx-1"));
    assert_eq!(replay, Err(LyptoError::DuplicateTransaction));
}

#[test]
fn rejected_credit_leaves_counters_and_keeps_record() {
    let mut ledger = setup();
    process_payment(&mut ledger, payment(3, 4, 5), 1000, String::from("tx-1")).unwrap();
    let settled = settle_payment(&mut ledger, "tx-1", CreditOutcome::Rejected);
    assert_eq!(settled, Err(LyptoError::CreditFailure));
    let state = ledger.state().unwrap();
    assert_eq!(state.total_rewards_minted, 0);
    assert_eq!(state.total_transactions, 0);
    // The record stays, so the same id cannot be submitted again.
    let retry = process_payment(&mut ledger, payment(3, 4, 6), 1000, String::from("tx-1"));
    assert_eq!(retry, Err(LyptoError::DuplicateTransaction));
    assert!(
        get_transaction(&ledger, GetTransaction { transaction: transaction_address("tx-1") })
            .is_ok()
    );
}

#[test]
fn credit_can_be_made_good_after_a_rejection() {
    let mut ledger = setup();
    process_payment(&mut ledger, payment(3, 4, 5), 250, String::from("tx-1")).unwrap();
    assert_eq!(
        settle_payment(&mut ledger, "tx-1", CreditOutcome::Rejected),
        Err(LyptoError::CreditFailure)
    );
    let settled = settle_payment(&mut ledger, "tx-1", CreditOutcome::Credited).unwrap();
    assert_eq!(settled.reward, 5);
    let state = ledger.state().unwrap();
    assert_eq!(state.total_rewards_minted, 5);
    assert_eq!(state.total_transactions, 1);
}

#[test]
fn payment_is_settled_at_most_once() {
    let mut ledger = setup();
    process_payment(&mut ledger, payment(3, 4, 5), 1000, String::from("tx-1")).unwrap();
    settle_payment(&mut ledger, "tx-1", CreditOutcome::Credited).unwrap();
    assert_eq!(
        settle_payment(&mut ledger, "tx-1", CreditOutcome::Credited),
        Err(LyptoError::DuplicateTransaction)
    );
    assert_eq!(
        settle_payment(&mut ledger, "tx-1", CreditOutcome::Rejected),
        Err(LyptoError::DuplicateTransaction)
    );
    let state = ledger.state().unwrap();
    assert_eq!(state.total_rewards_minted, 20);
    assert_eq!(state.total_transactions, 1);
}

#[test]
fn settling_an_unknown_payment_is_not_found() {
    let mut ledger = setup();
    assert_eq!(
        settle_payment(&mut ledger, "nobody", CreditOutcome::Credited),
        Err(LyptoError::NotFound)
    );
    let mut empty = Ledger::new();
    assert_eq!(
        settle_payment(&mut empty, "nobody", CreditOutcome::Credited),
        Err(LyptoError::NotFound)
    );
    assert_eq!(
        settle_payment(&mut empty, "", CreditOutcome::Rejected),
        Err(LyptoError::NotFound)
    );
}

#[test]
fn counters_are_the_sum_over_credited_payments() {
    let mut ledger = setup();
    let amounts: [u64; 6] = [1000, 1, 50, 4999, 123_456, 10_000];
    let rewards: [u64; 6] = [20, 0, 1, 99, 2469, 200];
    let mut total: u64 = 0;
    for (i, amount) in amounts.iter().enumerate() {
        let name = format!("order-{}", i);
        let request =
            process_payment(&mut ledger, payment(3, 4, i as i64), *amount, name.clone()).unwrap();
        assert_eq!(request.amount, rewards[i]);
        settle_payment(&mut ledger, &name, CreditOutcome::Credited).unwrap();
        total += rewards[i];
        let state = ledger.state().unwrap();
        assert_eq!(state.total_rewards_minted, total);
        assert_eq!(state.total_transactions, i as u64 + 1);
    }
    assert_eq!(total, 2789);
}

#[test]
fn concurrent_payments_for_one_customer_both_count() {
    // Two payments for the same customer, recorded and settled in an
    // interleaved order.
    let mut ledger = setup();
    let first = process_payment(&mut ledger, payment(3, 4, 1), 1000, String::from("a")).unwrap();
    let second = process_payment(&mut ledger, payment(3, 5, 2), 2500, String::from("b")).unwrap();
    assert_eq!(first.customer, second.customer);
    assert_eq!(settle_payment(&mut ledger, "b", CreditOutcome::Credited).unwrap().reward, 50);
    assert_eq!(settle_payment(&mut ledger, "a", CreditOutcome::Credited).unwrap().reward, 20);
    let state = ledger.state().unwrap();
    assert_eq!(state.total_rewards_minted, 70);
    assert_eq!(state.total_transactions, 2);

    // The other order of recording gives the same counters.
    let mut other = setup();
    process_payment(&mut other, payment(3, 5, 2), 2500, String::from("b")).unwrap();
    process_payment(&mut other, payment(3, 4, 1), 1000, String::from("a")).unwrap();
    settle_payment(&mut other, "a", CreditOutcome::Credited).unwrap();
    settle_payment(&mut other, "b", CreditOutcome::Credited).unwrap();
    assert_eq!(other.state(), ledger.state());
}

#[test]
fn only_credited_payments_are_counted() {
    let mut ledger = setup();
    process_payment(&mut ledger, payment(3, 4, 1), 1000, String::from("a")).unwrap();
    process_payment(&mut ledger, payment(3, 4, 2), 2000, String::from("b")).unwrap();
    process_payment(&mut ledger, payment(3, 4, 3), 3000, String::from("c")).unwrap();
    settle_payment(&mut ledger, "a", CreditOutcome::Credited).unwrap();
    assert!(settle_payment(&mut ledger, "b", CreditOutcome::Rejected).is_err());
    let state = ledger.state().unwrap();
    assert_eq!(state.total_rewards_minted, 20);
    assert_eq!(state.total_transactions, 1);
}

#[test]
fn largest_amount_is_accepted() {
    let mut ledger = setup();
    let request = process_payment(&mut ledger, payment(3, 4, 1), u64::MAX, String::from("big")).unwrap();
    assert_eq!(request.amount, 368_934_881_474_191_032);
    let state = ledger.state().unwrap();
    assert!(state.can_credit(request.amount));
    settle_payment(&mut ledger, "big", CreditOutcome::Credited).unwrap();
    assert_eq!(ledger.state().unwrap().total_rewards_minted, 368_934_881_474_191_032);
}

#[test]
fn non_authority_cannot_update_authority() {
    let mut ledger = setup();
    let before = ledger.state();
    let refused = update_authority(&mut ledger, UpdateAuthority { authority: id(7) }, id(7));
    assert_eq!(refused, Err(LyptoError::Unauthorized));
    assert_eq!(ledger.state(), before);
    assert_eq!(ledger.state().unwrap().authority, id(1));
}

#[test]
fn authority_rotates_and_old_authority_is_locked_out() {
    let mut ledger = setup();
    let updated = update_authority(&mut ledger, UpdateAuthority { authority: id(1) }, id(7));
    let expected = ProgramState {
        authority: id(7),
        lypto_mint: id(2),
        total_rewards_minted: 0,
        total_transactions: 0,
        bump: 254,
    };
    assert_eq!(updated, Ok(expected));
    assert_eq!(ledger.state(), Some(expected));
    let stale = update_authority(&mut ledger, UpdateAuthority { authority: id(1) }, id(1));
    assert_eq!(stale, Err(LyptoError::Unauthorized));
    assert_eq!(ledger.state(), Some(expected));
    let again = update_authority(&mut ledger, UpdateAuthority { authority: id(7) }, id(8));
    assert_eq!(again.unwrap().authority, id(8));
}

#[test]
fn update_authority_keeps_counters() {
    let mut ledger = setup();
    process_payment(&mut ledger, payment(3, 4, 1), 1000, String::from("a")).unwrap();
    settle_payment(&mut ledger, "a", CreditOutcome::Credited).unwrap();
    let updated = update_authority(&mut ledger, UpdateAuthority { authority: id(1) }, id(7)).unwrap();
    assert_eq!(updated.total_rewards_minted, 20);
    assert_eq!(updated.total_transactions, 1);
    assert_eq!(updated.lypto_mint, id(2));
    // Payments go on under the new authority.
    process_payment(&mut ledger, payment(3, 4, 2), 50, String::from("b")).unwrap();
    settle_payment(&mut ledger, "b", CreditOutcome::Credited).unwrap();
    let state = ledger.state().unwrap();
    assert_eq!(state.total_rewards_minted, 21);
    assert_eq!(state.total_transactions, 2);
    assert_eq!(state.authority, id(7));
}

#[test]
fn update_authority_before_initialize_is_refused() {
    let mut ledger = Ledger::new();
    let refused = update_authority(&mut ledger, UpdateAuthority { authority: id(1) }, id(2));
    assert_eq!(refused, Err(LyptoError::GlobalStateMissing));
    assert_eq!(ledger.state(), None);
}

#[test]
fn get_transaction_reads_only_payments() {
    let ledger = setup();
    assert_eq!(
        get_transaction(&ledger, GetTransaction { transaction: transaction_address("missing") }),
        Err(LyptoError::NotFound)
    );
    assert_eq!(
        get_transaction(&ledger, GetTransaction { transaction: program_state_address() }),
        Err(LyptoError::NotFound)
    );
}

#[test]
fn room_is_reported_for_every_recorded_payment() {
    let mut ledger = Ledger::new();
    assert!(ledger.has_room("tx-1"));
    initialize(&mut ledger, Initialize { authority: id(1), lypto_mint: id(2), bump: 254 }).unwrap();
    assert!(ledger.has_room("tx-1"));
    process_payment(&mut ledger, payment(3, 4, 1), u64::MAX, String::from("tx-1")).unwrap();
    assert!(ledger.has_room("tx-1"));
    settle_payment(&mut ledger, "tx-1", CreditOutcome::Credited).unwrap();
    assert!(ledger.has_room("tx-1"));
}

#[test]
fn room_runs_out_when_the_total_is_full() {
    // Fifty payments of the largest amount fill the total up to fifty units
    // below its limit; the next reward of that size has no room.
    let mut ledger = setup();
    for i in 0..50 {
        let name = format!("big-{}", i);
        process_payment(&mut ledger, payment(3, 4, i), u64::MAX, name.clone()).unwrap();
        assert!(ledger.has_room(&name));
        settle_payment(&mut ledger, &name, CreditOutcome::Credited).unwrap();
    }
    let state = ledger.state().unwrap();
    assert_eq!(state.total_rewards_minted, 18_446_744_073_709_551_600);
    assert_eq!(state.total_transactions, 50);
    process_payment(&mut ledger, payment(3, 4, 50), u64::MAX, String::from("over")).unwrap();
    assert!(!ledger.has_room("over"));
    assert!(!state.can_credit(368_934_881_474_191_032));
    // A rejected credit counts nothing, so it needs no room.
    assert_eq!(
        settle_payment(&mut ledger, "over", CreditOutcome::Rejected),
        Err(LyptoError::CreditFailure)
    );
    // A small reward still fits.
    process_payment(&mut ledger, payment(3, 4, 51), 750, String::from("small")).unwrap();
    assert!(ledger.has_room("small"));
    settle_payment(&mut ledger, "small", CreditOutcome::Credited).unwrap();
    assert_eq!(ledger.state().unwrap().total_rewards_minted, u64::MAX);
    assert_eq!(ledger.state().unwrap().total_transactions, 51);
}
