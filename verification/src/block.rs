//! One block of the chain: immutable content, a proof-of-work nonce, and
//! the cached SHA-256 digest of the content, with the hashing rules.

use vstd::prelude::*;

use crate::clock::current_time_nanos;
use crate::digest::{sha256_digest, spec_sha256};
use crate::transaction::{null_transaction, null_transaction_model, Transaction, TransactionModel};
use vstd::bytes::{spec_u64_to_le_bytes, u64_to_le_bytes};
use vstd::slice::slice_to_vec;
use vstd::string::StringSliceAdditionalSpecFns;
use vstd::utf8::encode_utf8;

verus! {

/// Size in bytes of the content digests blocks carry.
pub const HASH_SIZE: usize = 32;

/// Timestamp of the fixed genesis block, 2020-10-11T08:49:15Z, in nanoseconds
/// since the Unix epoch.
pub const GENESIS_TIMESTAMP_NANOS: u64 = 1602406155000000000;

/// Mathematical content of a block: its chain position, creation time, the
/// cached digest of its own content, the digest of its parent, the single
/// transaction it carries, and the proof-of-work nonce.
#[verifier::ext_equal]
pub struct BlockModel {
    pub index: u64,
    pub timestamp: u64,
    pub hash: Seq<u8>,
    pub previous_hash: Seq<u8>,
    pub transaction: TransactionModel,
    pub nonce: u64,
}

/// The byte string a block's hash is computed over, in fixed order: the
/// timestamp, the sender id, the receiver id, the amount, the parent's
/// digest, the index and the nonce; numbers in fixed-width little-endian
/// form, ids as their UTF-8 bytes. The cached `hash` field itself is not an
/// input.
pub open spec fn spec_hash_input(b: BlockModel) -> Seq<u8> {
    spec_u64_to_le_bytes(b.timestamp) + encode_utf8(b.transaction.sender) + encode_utf8(
        b.transaction.receiver,
    ) + spec_u64_to_le_bytes(b.transaction.amount) + b.previous_hash + spec_u64_to_le_bytes(b.index)
        + spec_u64_to_le_bytes(b.nonce)
}

/// The digest a block's cached `hash` field must equal: a pure function of
/// the content fields, never an independent source of truth.
pub open spec fn spec_block_hash(b: BlockModel) -> Seq<u8> {
    spec_sha256(spec_hash_input(b))
}

/// `b` with its cached hash recomputed from its content fields.
pub open spec fn spec_rehash(b: BlockModel) -> BlockModel {
    BlockModel { hash: spec_block_hash(b), ..b }
}

/// `b` with nonce `n` and the cached hash recomputed accordingly.
pub open spec fn spec_with_nonce(b: BlockModel, n: u64) -> BlockModel {
    spec_rehash(BlockModel { nonce: n, ..b })
}

/// The all-zero sentinel digest carried by the genesis block as its
/// previous hash.
pub open spec fn spec_zero_hash() -> Seq<u8> {
    Seq::new(HASH_SIZE as nat, |i: int| 0u8)
}

/// The fixed genesis block: index 0, the all-zero sentinel as previous hash,
/// the null transaction, a fixed timestamp, and nonce 0 (genesis is exempt
/// from the difficulty check, so no mined nonce is needed).
pub open spec fn genesis_model() -> BlockModel {
    spec_rehash(
        BlockModel {
            index: 0,
            timestamp: GENESIS_TIMESTAMP_NANOS,
            hash: Seq::empty(),
            previous_hash: spec_zero_hash(),
            transaction: null_transaction_model(),
            nonce: 0,
        },
    )
}

impl BlockModel {
    /// A block is well formed when its digests have the right size and its
    /// cached hash equals the digest of its content.
    pub open spec fn wf(self) -> bool {
        &&& self.hash == spec_block_hash(self)
        &&& self.hash.len() == HASH_SIZE
        &&& self.previous_hash.len() == HASH_SIZE
    }
}

/// Law: a block's hash is a deterministic function of its content fields
/// (timestamp, transaction, previous hash, index, nonce) alone; two blocks
/// that agree on all content fields have the same hash.
pub proof fn lemma_hash_deterministic(a: BlockModel, b: BlockModel)
    requires
        a.index == b.index,
        a.timestamp == b.timestamp,
        a.previous_hash == b.previous_hash,
        a.transaction == b.transaction,
        a.nonce == b.nonce,
    ensures
        spec_block_hash(a) == spec_block_hash(b),
{
    assert(spec_hash_input(a) == spec_hash_input(b));
}

/// Law: a well-formed block rebuilt from its content fields alone — as a
/// wire round trip through serialization does — equals the block it was
/// rebuilt from, and in particular carries the identical hash.
pub proof fn lemma_rebuilt_block_same_hash(b: BlockModel, rebuilt: BlockModel)
    requires
        b.wf(),
        rebuilt.wf(),
        rebuilt.index == b.index,
        rebuilt.timestamp == b.timestamp,
        rebuilt.previous_hash == b.previous_hash,
        rebuilt.transaction == b.transaction,
        rebuilt.nonce == b.nonce,
    ensures
        rebuilt.hash == b.hash,
        rebuilt == b,
{
    lemma_hash_deterministic(b, rebuilt);
    assert(rebuilt =~= b);
}

/// Setting a nonce twice is the same as setting the final nonce once: the
/// cached hash never feeds back into the content digest.
pub proof fn lemma_with_nonce_twice(b: BlockModel, n1: u64, n2: u64)
    ensures
        spec_with_nonce(spec_with_nonce(b, n1), n2) == spec_with_nonce(b, n2),
{
    let x = BlockModel { nonce: n2, ..spec_with_nonce(b, n1) };
    let y = BlockModel { nonce: n2, ..b };
    lemma_hash_deterministic(x, y);
    assert(spec_with_nonce(spec_with_nonce(b, n1), n2) =~= spec_with_nonce(b, n2));
}

/// Recomputing the cached hash leaves an already-set nonce in place, so a
/// rehash is the same as re-setting the current nonce.
pub proof fn lemma_rehash_is_with_current_nonce(b: BlockModel)
    ensures
        spec_rehash(b) == spec_with_nonce(b, b.nonce),
{
    assert(BlockModel { nonce: b.nonce, ..b } =~= b);
}

/// One block of the chain: immutable content plus a mutable proof-of-work
/// nonce and the cached integrity hash, which is recomputed on every
/// mutation.
#[derive(Debug)]
pub struct Block {
    index: u64,
    timestamp: u64,
    hash: Vec<u8>,
    previous_hash: Vec<u8>,
    transaction: Transaction,
    nonce: u64,
}

impl View for Block {
    type V = BlockModel;

    closed spec fn view(&self) -> BlockModel {
        BlockModel {
            index: self.index,
            timestamp: self.timestamp,
            hash: self.hash@,
            previous_hash: self.previous_hash@,
            transaction: self.transaction@,
            nonce: self.nonce,
        }
    }
}

impl Clone for Block {
    fn clone(&self) -> (r: Self)
        ensures
            r@ == self@,
    {
        let r = Block {
            index: self.index,
            timestamp: self.timestamp,
            hash: slice_to_vec(self.hash.as_slice()),
            previous_hash: slice_to_vec(self.previous_hash.as_slice()),
            transaction: self.transaction.clone(),
            nonce: self.nonce,
        };
        proof {
            assert(r@ =~= self@);
        }
        r
    }
}

impl Block {
    /// Recomputes the cached hash from the other fields, in the fixed order
    /// that `spec_hash_input` states.
    pub fn update_hash(&mut self)
        ensures
            final(self)@ == spec_rehash(old(self)@),
            final(self)@.wf() <==> old(self)@.previous_hash.len() == HASH_SIZE,
    {
        let mut data: Vec<u8> = u64_to_le_bytes(self.timestamp);
        let mut part = slice_to_vec(self.transaction.sender.as_str().as_bytes());
        data.append(&mut part);
        let mut part = slice_to_vec(self.transaction.receiver.as_str().as_bytes());
        data.append(&mut part);
        let mut part = u64_to_le_bytes(self.transaction.amount);
        data.append(&mut part);
        let mut part = slice_to_vec(self.previous_hash.as_slice());
        data.append(&mut part);
        let mut part = u64_to_le_bytes(self.index);
        data.append(&mut part);
        let mut part = u64_to_le_bytes(self.nonce);
        data.append(&mut part);
        proof {
            assert(data@ == spec_hash_input(old(self)@));
        }
        self.hash = sha256_digest(data.as_slice());
        proof {
            assert(self@ =~= spec_rehash(old(self)@));
        }
    }

    /// Builds a block from explicit values of every content field and caches
    /// the digest computed from them; any digest the wire carried alongside
    /// the fields is discarded in favor of the recomputed one.
    pub fn from_parts(
        transaction: Transaction,
        index: u64,
        previous_hash: Vec<u8>,
        timestamp: u64,
        nonce: u64,
    ) -> (r: Self)
        requires
            previous_hash@.len() == HASH_SIZE,
        ensures
            r@.index == index,
            r@.timestamp == timestamp,
            r@.previous_hash == previous_hash@,
            r@.transaction == transaction@,
            r@.nonce == nonce,
            r@.wf(),
    {
        let mut block = Block {
            hash: Vec::new(),
            nonce,
            index,
            previous_hash,
            timestamp,
            transaction,
        };
        block.update_hash();
        block
    }

    /// Builds a fresh candidate block for the given chain position: nonce 0,
    /// timestamp drawn from the clock, hash computed immediately. Always
    /// succeeds; the timestamp is the one field the contract cannot pin.
    pub fn new(transaction: Transaction, index: u64, previous_hash: Vec<u8>) -> (r: Self)
        requires
            previous_hash@.len() == HASH_SIZE,
        ensures
            r@.index == index,
            r@.previous_hash == previous_hash@,
            r@.transaction == transaction@,
            r@.nonce == 0,
            r@.wf(),
    {
        let timestamp = current_time_nanos();
        Block::from_parts(transaction, index, previous_hash, timestamp, 0)
    }

    /// Steps the proof-of-work search variable and recomputes the cached
    /// hash; the hash cache is the only other observable effect.
    pub fn increment_nonce(&mut self)
        requires
            old(self)@.nonce < u64::MAX,
        ensures
            final(self)@ == spec_with_nonce(old(self)@, (old(self)@.nonce + 1) as u64),
            final(self)@.wf() <==> old(self)@.previous_hash.len() == HASH_SIZE,
    {
        self.nonce = self.nonce + 1;
        self.update_hash();
    }

    /// The cached content digest.
    pub fn hash(&self) -> (r: Vec<u8>)
        ensures
            r@ == self@.hash,
    {
        slice_to_vec(self.hash.as_slice())
    }

    /// The cached content digest, borrowed.
    pub fn hash_slice(&self) -> (r: &[u8])
        ensures
            r@ == self@.hash,
    {
        self.hash.as_slice()
    }

    /// The parent block's digest.
    pub fn previous_hash(&self) -> (r: Vec<u8>)
        ensures
            r@ == self@.previous_hash,
    {
        slice_to_vec(self.previous_hash.as_slice())
    }

    /// The one transaction this block carries.
    pub fn transaction(&self) -> (r: Transaction)
        ensures
            r@ == self@.transaction,
    {
        self.transaction.clone()
    }

    /// Creation time, in nanoseconds since the Unix epoch.
    pub fn timestamp(&self) -> (r: u64)
        ensures
            r == self@.timestamp,
    {
        self.timestamp
    }

    /// The proof-of-work search variable.
    pub fn nonce(&self) -> (r: u64)
        ensures
            r == self@.nonce,
    {
        self.nonce
    }

    /// Position in the chain; 0 for genesis, strictly increasing after it.
    pub fn index(&self) -> (r: u64)
        ensures
            r == self@.index,
    {
        self.index
    }
}

/// Builds the all-zero sentinel digest.
pub fn zero_hash() -> (r: Vec<u8>)
    ensures
        r@ == spec_zero_hash(),
{
    let mut v: Vec<u8> = Vec::new();
    let mut i: usize = 0;
    while i < HASH_SIZE
        invariant
            i <= HASH_SIZE,
            v@.len() == i,
            forall|j: int| 0 <= j < i ==> v@[j] == 0u8,
        decreases HASH_SIZE - i,
    {
        v.push(0u8);
        i = i + 1;
    }
    proof {
        assert(v@ =~= spec_zero_hash());
    }
    v
}

/// Builds the fixed genesis block.
pub fn genesis_block() -> (r: Block)
    ensures
        r@ == genesis_model(),
        r@.wf(),
{
    let prev = zero_hash();
    let block = Block::from_parts(null_transaction(), 0, prev, GENESIS_TIMESTAMP_NANOS, 0);
    proof {
        let inner = BlockModel {
            index: 0,
            timestamp: GENESIS_TIMESTAMP_NANOS,
            hash: Seq::empty(),
            previous_hash: spec_zero_hash(),
            transaction: null_transaction_model(),
            nonce: 0,
        };
        lemma_hash_deterministic(block@, inner);
        assert(block@ =~= genesis_model());
    }
    block
}

} // verus!
