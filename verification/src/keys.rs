//! Record addresses: a kind tag followed by the record's natural key.
//!
//! An address is a function of the kind and the key alone. The tags of the
//! two kinds differ in their first byte, so a kind and a key can be read back
//! from an address, and two addresses are equal only for the same kind and
//! the same key.

use vstd::prelude::*;
use vstd::slice::slice_subrange;
use vstd::utf8::{encode_utf8, encode_utf8_decode_utf8};

verus! {

/// Tag of the singleton state record: the ASCII bytes of `program-state`.
pub const PROGRAM_STATE_SEED: [u8; 13] = [
    112, 114, 111, 103, 114, 97, 109, 45, 115, 116, 97, 116, 101,
];

/// Tag of a transaction record: the ASCII bytes of `transaction`.
pub const TRANSACTION_SEED: [u8; 11] = [116, 114, 97, 110, 115, 97, 99, 116, 105, 111, 110];

/// The kinds of record that the ledger keeps.
#[derive(Clone, Copy, Debug, PartialEq, Eq, Structural)]
pub enum RecordKind {
    /// The singleton state record; its natural key is empty.
    ProgramState,
    /// One payment; its natural key is the transaction id.
    Transaction,
}

/// The tag that opens every address of the given kind.
pub open spec fn spec_seed(kind: RecordKind) -> Seq<u8> {
    match kind {
        RecordKind::ProgramState => PROGRAM_STATE_SEED@,
        RecordKind::Transaction => TRANSACTION_SEED@,
    }
}

/// The address of the record of the given kind and natural key: the kind's
/// tag, then the key.
pub open spec fn spec_derive(kind: RecordKind, key: Seq<u8>) -> Seq<u8> {
    spec_seed(kind) + key
}

/// The address of the singleton state record.
pub open spec fn spec_program_state_address() -> Seq<u8> {
    spec_derive(RecordKind::ProgramState, Seq::empty())
}

/// The address of the record of the transaction with the given id: the key
/// is the id's UTF-8 encoding.
pub open spec fn spec_transaction_address(transaction_id: Seq<char>) -> Seq<u8> {
    spec_derive(RecordKind::Transaction, encode_utf8(transaction_id))
}

/// Where a record lives in the store.
#[derive(Debug, PartialEq, Eq)]
pub struct Address {
    bytes: Vec<u8>,
}

impl View for Address {
    type V = Seq<u8>;

    closed spec fn view(&self) -> Seq<u8> {
        self.bytes@
    }
}

impl Clone for Address {
    fn clone(&self) -> (copy: Self)
        ensures
            copy@ == self@,
    {
        let mut bytes: Vec<u8> = Vec::new();
        let mut i: usize = 0;
        while i < self.bytes.len()
            invariant
                i <= self.bytes@.len(),
                bytes@ == self.bytes@.subrange(0, i as int),
            decreases self.bytes@.len() - i,
        {
            bytes.push(self.bytes[i]);
            i = i + 1;
        }
        assert(bytes@ =~= self.bytes@);
        Address { bytes }
    }
}

impl Address {
    /// The bytes of this address.
    pub fn as_bytes(&self) -> (bytes: &[u8])
        ensures
            bytes@ == self@,
    {
        self.bytes.as_slice()
    }

    /// Whether two addresses are the same.
    pub fn same_as(&self, other: &Address) -> (same: bool)
        ensures
            same == (self@ == other@),
    {
        if self.bytes.len() != other.bytes.len() {
            return false;
        }
        let mut i: usize = 0;
        while i < self.bytes.len()
            invariant
                self.bytes@.len() == other.bytes@.len(),
                i <= self.bytes@.len(),
                forall|j: int| 0 <= j < i ==> self.bytes@[j] == other.bytes@[j],
            decreases self.bytes@.len() - i,
        {
            if self.bytes[i] != other.bytes[i] {
                return false;
            }
            i = i + 1;
        }
        assert(self.bytes@ =~= other.bytes@);
        true
    }
}

/// Derives the address of the record of the given kind and natural key.
/// Every kind and key has an address, and the same kind and key give the
/// same address wherever and whenever it is derived.
pub fn derive(kind: RecordKind, key: &[u8]) -> (address: Address)
    ensures
        address@ == spec_derive(kind, key@),
{
    let mut bytes: Vec<u8> = Vec::new();
    match kind {
        RecordKind::ProgramState => {
            let mut i: usize = 0;
            while i < 13
                invariant
                    i <= 13,
                    bytes@ == PROGRAM_STATE_SEED@.subrange(0, i as int),
                decreases 13 - i,
            {
                bytes.push(PROGRAM_STATE_SEED[i]);
                i = i + 1;
            }
            assert(bytes@ =~= PROGRAM_STATE_SEED@);
        },
        RecordKind::Transaction => {
            let mut i: usize = 0;
            while i < 11
                invariant
                    i <= 11,
                    bytes@ == TRANSACTION_SEED@.subrange(0, i as int),
                decreases 11 - i,
            {
                bytes.push(TRANSACTION_SEED[i]);
                i = i + 1;
            }
            assert(bytes@ =~= TRANSACTION_SEED@);
        },
    }
    let mut j: usize = 0;
    while j < key.len()
        invariant
            j <= key@.len(),
            bytes@ == spec_seed(kind) + key@.subrange(0, j as int),
        decreases key@.len() - j,
    {
        bytes.push(key[j]);
        j = j + 1;
    }
    assert(key@.subrange(0, j as int) =~= key@);
    Address { bytes }
}

/// The address of the singleton state record.
pub fn program_state_address() -> (address: Address)
    ensures
        address@ == spec_program_state_address(),
{
    let key: Vec<u8> = Vec::new();
    derive(RecordKind::ProgramState, key.as_slice())
}

/// The address of the record of the transaction with the given id.
pub fn transaction_address(transaction_id: &str) -> (address: Address)
    ensures
        address@ == spec_transaction_address(transaction_id@),
{
    derive(RecordKind::Transaction, transaction_id.as_bytes())
}

/// Splits a key into a head of at most `limit` bytes and the rest, for a
/// store that takes a key only in pieces of bounded length. The two pieces,
/// put together again, are the key; a key of at most `limit` bytes is its
/// own head, with nothing left.
pub fn split_key(key: &[u8], limit: usize) -> (pieces: (&[u8], &[u8]))
    ensures
        pieces.0@ + pieces.1@ == key@,
        pieces.0@.len() == if key@.len() <= limit {
            key@.len()
        } else {
            limit as nat
        },
{
    let cut = if key.len() <= limit {
        key.len()
    } else {
        limit
    };
    let head = slice_subrange(key, 0, cut);
    let rest = slice_subrange(key, cut, key.len());
    assert(head@ + rest@ =~= key@);
    (head, rest)
}

/// Addresses are free of collisions: two addresses are equal only if they
/// were derived from the same kind and the same natural key.
pub proof fn lemma_derive_injective(
    kind_a: RecordKind,
    key_a: Seq<u8>,
    kind_b: RecordKind,
    key_b: Seq<u8>,
)
    requires
        spec_derive(kind_a, key_a) == spec_derive(kind_b, key_b),
    ensures
        kind_a == kind_b,
        key_a == key_b,
{
    let a = spec_derive(kind_a, key_a);
    let b = spec_derive(kind_b, key_b);
    assert(PROGRAM_STATE_SEED@[0] == 112);
    assert(TRANSACTION_SEED@[0] == 116);
    assert(a[0] == spec_seed(kind_a)[0]);
    assert(b[0] == spec_seed(kind_b)[0]);
    assert(kind_a == kind_b);
    let n = spec_seed(kind_a).len() as int;
    assert(key_a =~= a.subrange(n, a.len() as int));
    assert(key_b =~= b.subrange(n, b.len() as int));
}

/// Two transactions share an address only if they share their id, and no
/// transaction lives at the address of the state record.
pub proof fn lemma_transaction_address_injective(id_a: Seq<char>, id_b: Seq<char>)
    ensures
        spec_transaction_address(id_a) == spec_transaction_address(id_b) ==> id_a == id_b,
        spec_transaction_address(id_a) != spec_program_state_address(),
{
    if spec_transaction_address(id_a) == spec_transaction_address(id_b) {
        lemma_derive_injective(
            RecordKind::Transaction,
            encode_utf8(id_a),
            RecordKind::Transaction,
            encode_utf8(id_b),
        );
        encode_utf8_decode_utf8(id_a);
        encode_utf8_decode_utf8(id_b);
    }
    if spec_transaction_address(id_a) == spec_program_state_address() {
        lemma_derive_injective(
            RecordKind::Transaction,
            encode_utf8(id_a),
            RecordKind::ProgramState,
            Seq::empty(),
        );
    }
}

} // verus!
