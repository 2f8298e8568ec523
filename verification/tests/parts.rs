use lypto_rewards::identity::{check, Identity};
use lypto_rewards::keys::{
    program_state_address, split_key, transaction_address, RecordKind, PROGRAM_STATE_SEED,
    TRANSACTION_SEED,
};
use lypto_rewards::ledger::{fresh_state, new_transaction, validate_payment};
use lypto_rewards::model::{Initialize, Payment, ProcessPayment, Record};
use lypto_rewards::records::{
    LyptoError, ProgramState, Transaction, MAX_TRANSACTION_ID_LEN,
};
use lypto_rewards::reward::{reward_for, BPS_DENOMINATOR, REWARD_RATE_BPS};
use lypto_rewards::store::{RecordStore, StoreError};

fn id(tag: u8) -> Identity {
    Identity::new([tag; 32])
}

#[test]
fn reward_is_two_percent_rounded_down() {
    assert_eq!(reward_for(1000), 20);
    assert_eq!(reward_for(1), 0);
    assert_eq!(reward_for(50), 1);
    assert_eq!(reward_for(0), 0);
    assert_eq!(reward_for(49), 0);
    assert_eq!(reward_for(99), 1);
    assert_eq!(reward_for(100), 2);
    assert_eq!(reward_for(149), 2);
    assert_eq!(reward_for(10_000), 200);
}

#[test]
fn reward_of_the_largest_amount_does_not_overflow() {
    assert_eq!(reward_for(u64::MAX), 368_934_881_474_191_032);
    assert_eq!(reward_for(u64::MAX / 200 + 1), 1_844_674_407_370_955);
}

#[test]
fn reward_rate_is_200_basis_points() {
    assert_eq!(REWARD_RATE_BPS, 200);
    assert_eq!(BPS_DENOMINATOR, 10000);
}

#[test]
fn identities_compare_by_bytes() {
    let mut bytes = [5u8; 32];
    let a = Identity::new(bytes);
    bytes[31] = 6;
    let b = Identity::new(bytes);
    assert!(a.same_as(&a));
    assert!(!a.same_as(&b));
    assert!(!b.same_as(&a));
    assert_eq!(a.to_bytes(), [5u8; 32]);
    assert_eq!(b.to_bytes()[31], 6);
}

#[test]
fn authority_check_is_equality() {
    assert!(check(&id(1), &id(1)));
    assert!(!check(&id(1), &id(2)));
    let mut bytes = [1u8; 32];
    bytes[0] = 0;
    assert!(!check(&Identity::new(bytes), &id(1)));
}

#[test]
fn address_is_tag_then_key() {
    assert_eq!(program_state_address().as_bytes(), b"program-state");
    assert_eq!(transaction_address("tx-1").as_bytes(), b"transactiontx-1");
    assert_eq!(lypto_rewards::keys::derive(RecordKind::Transaction, b"tx-1").as_bytes(), b"transactiontx-1");
    assert_eq!(lypto_rewards::keys::derive(RecordKind::ProgramState, b"").as_bytes(), b"program-state");
    assert_eq!(lypto_rewards::keys::derive(RecordKind::ProgramState, &[0, 255]).as_bytes().len(), 15);
    assert_eq!(&PROGRAM_STATE_SEED, b"program-state");
    assert_eq!(&TRANSACTION_SEED, b"transaction");
}

#[test]
fn address_of_a_multibyte_id_uses_its_utf8_bytes() {
    let address = transaction_address("\u{20AC}");
    assert_eq!(address.as_bytes(), &b"transaction\xE2\x82\xAC"[..]);
}

#[test]
fn derivation_is_deterministic_and_separates_keys() {
    let a = transaction_address("order-1");
    let b = transaction_address("order-1");
    let c = transaction_address("order-2");
    assert!(a.same_as(&b));
    assert!(!a.same_as(&c));
    assert!(!a.same_as(&program_state_address()));
    assert!(!transaction_address("").same_as(&program_state_address()));
    assert!(a.clone().same_as(&a));
    // A prefix of an id is another id.
    assert!(!transaction_address("order-").same_as(&a));
}

#[test]
fn key_is_split_into_head_and_rest() {
    let key: Vec<u8> = (0u8..40).collect();
    let (head, rest) = split_key(&key, 32);
    assert_eq!(head, &key[..32]);
    assert_eq!(rest, &key[32..]);
    let (head, rest) = split_key(&key[..32], 32);
    assert_eq!(head, &key[..32]);
    assert!(rest.is_empty());
    let (head, rest) = split_key(&key[..5], 32);
    assert_eq!(head, &key[..5]);
    assert!(rest.is_empty());
    let (head, rest) = split_key(&[], 32);
    assert!(head.is_empty());
    assert!(rest.is_empty());
    let (head, rest) = split_key(&key, 0);
    assert!(head.is_empty());
    assert_eq!(rest, &key[..]);
}

#[test]
fn store_creates_only_at_free_addresses() {
    let mut store: RecordStore<u64> = RecordStore::new();
    assert_eq!(store.len(), 0);
    assert_eq!(store.create_if_absent(transaction_address("a"), 7), Ok(&7));
    assert_eq!(store.len(), 1);
    assert_eq!(
        store.create_if_absent(transaction_address("a"), 8),
        Err(StoreError::AlreadyExists)
    );
    assert_eq!(store.len(), 1);
    assert_eq!(store.read(&transaction_address("a")), Ok(&7));
    assert_eq!(store.create_if_absent(transaction_address("b"), 9), Ok(&9));
    assert_eq!(store.read(&transaction_address("a")), Ok(&7));
    assert_eq!(store.read(&transaction_address("b")), Ok(&9));
    assert_eq!(store.len(), 2);
}

#[test]
fn store_read_of_missing_address_is_not_found() {
    let mut store: RecordStore<u64> = RecordStore::new();
    assert_eq!(store.read(&transaction_address("a")), Err(StoreError::NotFound));
    store.create_if_absent(transaction_address("a"), 1).unwrap();
    assert_eq!(store.read(&transaction_address("b")), Err(StoreError::NotFound));
    assert_eq!(store.read(&program_state_address()), Err(StoreError::NotFound));
}

#[test]
fn store_mutate_replaces_one_record() {
    let mut store: RecordStore<u64> = RecordStore::new();
    store.create_if_absent(transaction_address("a"), 10).unwrap();
    store.create_if_absent(transaction_address("b"), 20).unwrap();
    assert_eq!(store.mutate(&transaction_address("b"), |old| *old + 5), Ok(&25));
    assert_eq!(store.read(&transaction_address("a")), Ok(&10));
    assert_eq!(store.read(&transaction_address("b")), Ok(&25));
    assert_eq!(store.len(), 2);
    let mut called = false;
    assert_eq!(
        store.mutate(&transaction_address("c"), |old| {
            called = true;
            *old
        }),
        Err(StoreError::NotFound)
    );
    assert!(!called);
    assert_eq!(store.len(), 2);
}

#[test]
fn validation_reports_each_error() {
    assert_eq!(validate_payment(1, "x"), Ok(()));
    assert_eq!(validate_payment(0, "x"), Err(LyptoError::InvalidAmount));
    assert_eq!(validate_payment(1, ""), Err(LyptoError::InvalidTransactionId));
    assert_eq!(validate_payment(0, ""), Err(LyptoError::InvalidAmount));
    assert_eq!(validate_payment(u64::MAX, &"z".repeat(64)), Ok(()));
    assert_eq!(
        validate_payment(1, &"z".repeat(65)),
        Err(LyptoError::InvalidTransactionId)
    );
    assert_eq!(MAX_TRANSACTION_ID_LEN, 64);
}

#[test]
fn fresh_state_has_zero_counters() {
    let state = fresh_state(&Initialize { authority: id(1), lypto_mint: id(2), bump: 3 });
    assert_eq!(
        state,
        ProgramState {
            authority: id(1),
            lypto_mint: id(2),
            total_rewards_minted: 0,
            total_transactions: 0,
            bump: 3,
        }
    );
}

#[test]
fn new_transaction_computes_the_reward() {
    let ctx = ProcessPayment { customer: id(3), merchant: id(4), timestamp: -5, bump: 9 };
    let transaction = new_transaction(&ctx, 12_345, String::from("abc"));
    assert_eq!(
        transaction,
        Transaction {
            transaction_id: String::from("abc"),
            customer: id(3),
            merchant: id(4),
            amount: 12_345,
            reward: 246,
            timestamp: -5,
            bump: 9,
        }
    );
    assert_eq!(transaction.clone(), transaction);
}

#[test]
fn state_advances_by_one_payment() {
    let state = ProgramState {
        authority: id(1),
        lypto_mint: id(2),
        total_rewards_minted: 100,
        total_transactions: 4,
        bump: 3,
    };
    assert!(state.can_credit(20));
    let next = state.credited(20);
    assert_eq!(next.total_rewards_minted, 120);
    assert_eq!(next.total_transactions, 5);
    assert_eq!(next.authority, id(1));
    assert_eq!(next.lypto_mint, id(2));
    assert_eq!(next.bump, 3);
    assert_eq!(state.credited(0).total_rewards_minted, 100);
    assert_eq!(state.credited(0).total_transactions, 5);
}

#[test]
fn full_counters_have_no_room() {
    let state = ProgramState {
        authority: id(1),
        lypto_mint: id(2),
        total_rewards_minted: u64::MAX - 10,
        total_transactions: 4,
        bump: 3,
    };
    assert!(state.can_credit(10));
    assert!(!state.can_credit(11));
    assert_eq!(state.credited(10).total_rewards_minted, u64::MAX);
    let counted_out = ProgramState { total_rewards_minted: 0, total_transactions: u64::MAX, ..state };
    assert!(!counted_out.can_credit(0));
    let last = ProgramState { total_rewards_minted: 0, total_transactions: u64::MAX - 1, ..state };
    assert!(last.can_credit(0));
}

#[test]
fn with_authority_changes_only_the_authority() {
    let state = ProgramState {
        authority: id(1),
        lypto_mint: id(2),
        total_rewards_minted: 100,
        total_transactions: 4,
        bump: 3,
    };
    assert_eq!(state.with_authority(id(9)), ProgramState { authority: id(9), ..state });
}

#[test]
fn record_transformers_touch_only_their_kind() {
    let state = ProgramState {
        authority: id(1),
        lypto_mint: id(2),
        total_rewards_minted: 100,
        total_transactions: 4,
        bump: 3,
    };
    let ctx = ProcessPayment { customer: id(3), merchant: id(4), timestamp: 1, bump: 9 };
    let transaction = new_transaction(&ctx, 500, String::from("abc"));
    let open = Record::Payment(Payment { transaction: transaction.clone(), credited: false });
    let done = Record::Payment(Payment { transaction: transaction.clone(), credited: true });
    let home = Record::State(state);

    assert_eq!(open.marked(), done);
    assert_eq!(done.marked(), done);
    assert_eq!(home.marked(), home);

    assert_eq!(home.counted(10), Record::State(state.credited(10)));
    assert_eq!(open.counted(10), open);

    assert_eq!(home.rotated(id(9)), Record::State(state.with_authority(id(9))));
    assert_eq!(open.rotated(id(9)), open);
    assert_eq!(open.clone(), open);
    assert_eq!(home.clone(), home);
}

#[test]
fn record_sizes() {
    assert_eq!(ProgramState::LEN, 81);
    assert_eq!(Transaction::LEN, 157);
}

#[test]
fn every_error_has_its_message() {
    assert_eq!(LyptoError::InvalidAmount.message(), "Invalid amount: must be greater than 0");
    assert_eq!(
        LyptoError::InvalidTransactionId.message(),
        "Invalid transaction ID: must be 1 to 64 bytes"
    );
    assert_eq!(
        LyptoError::Unauthorized.message(),
        "Unauthorized: only admin can perform this action"
    );
    assert_eq!(
        LyptoError::DuplicateTransaction.message(),
        "Duplicate transaction: this ID was recorded before"
    );
    assert_eq!(
        LyptoError::CreditFailure.message(),
        "Credit failure: the reward could not be credited"
    );
    assert_eq!(LyptoError::GlobalStateMissing.message(), "Program state missing: initialize first");
    assert_eq!(
        LyptoError::AlreadyInitialized.message(),
        "Already initialized: program state exists"
    );
    assert_eq!(LyptoError::NotFound.message(), "Not found: no record at this address");
}
