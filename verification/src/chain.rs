//! The ledger: a validated append-only chain of blocks and the balance
//! table they derive, with mining, validation and commit rules.

use vstd::prelude::*;

use crate::block::{
    genesis_block, genesis_model, lemma_hash_deterministic, spec_block_hash, spec_rehash,
    spec_with_nonce, Block, BlockModel, HASH_SIZE,
};
use crate::transaction::{Transaction, TransactionModel};
use vstd::slice::slice_index_get;

verus! {

/// Account balances are signed: unfunded senders are not rejected, so a
/// balance may go negative (an accepted gap of the design, not an oversight).
pub type Balance = i128;

/// The balance lazily granted to an account the first time it is seen.
pub const STARTING_BALANCE: Balance = 5000;

/// One row of the balance table.
#[derive(Debug)]
struct AccountEntry {
    id: String,
    balance: Balance,
}

/// The balance table a sequence of rows denotes, later rows winning; with
/// unique ids the order never matters.
spec fn entries_map(s: Seq<AccountEntry>) -> Map<Seq<char>, int>
    decreases s.len(),
{
    if s.len() == 0 {
        Map::empty()
    } else {
        entries_map(s.drop_last()).insert(s.last().id@, s.last().balance as int)
    }
}

/// No two rows of the balance table name the same account.
spec fn entries_unique(s: Seq<AccountEntry>) -> bool {
    forall|i: int, j: int| 0 <= i < j < s.len() ==> s[i].id@ != s[j].id@
}

proof fn lemma_entries_map_absent(s: Seq<AccountEntry>, k: Seq<char>)
    requires
        forall|i: int| 0 <= i < s.len() ==> s[i].id@ != k,
    ensures
        !entries_map(s).contains_key(k),
    decreases s.len(),
{
    if s.len() > 0 {
        assert forall|i: int| 0 <= i < s.drop_last().len() implies s.drop_last()[i].id@ != k by {
            assert(s.drop_last()[i] == s[i]);
        }
        lemma_entries_map_absent(s.drop_last(), k);
        assert(s.last() == s[s.len() - 1]);
    }
}

proof fn lemma_entries_unique_drop_last(s: Seq<AccountEntry>)
    requires
        entries_unique(s),
        s.len() > 0,
    ensures
        entries_unique(s.drop_last()),
{
    assert forall|i: int, j: int| 0 <= i < j < s.drop_last().len() implies s.drop_last()[i].id@
        != s.drop_last()[j].id@ by {
        assert(s.drop_last()[i] == s[i]);
        assert(s.drop_last()[j] == s[j]);
    }
}

proof fn lemma_entries_map_present(s: Seq<AccountEntry>, i: int)
    requires
        entries_unique(s),
        0 <= i < s.len(),
    ensures
        entries_map(s).contains_key(s[i].id@),
        entries_map(s)[s[i].id@] == s[i].balance as int,
    decreases s.len(),
{
    if i == s.len() - 1 {
        assert(s.last() == s[i]);
    } else {
        lemma_entries_unique_drop_last(s);
        assert(s.drop_last()[i] == s[i]);
        lemma_entries_map_present(s.drop_last(), i);
        assert(s.last().id@ != s[i].id@);
    }
}

proof fn lemma_entries_map_update(s: Seq<AccountEntry>, i: int, e: AccountEntry)
    requires
        entries_unique(s),
        0 <= i < s.len(),
        e.id@ == s[i].id@,
    ensures
        entries_unique(s.update(i, e)),
        entries_map(s.update(i, e)) == entries_map(s).insert(e.id@, e.balance as int),
    decreases s.len(),
{
    let t = s.update(i, e);
    assert forall|p: int, q: int| 0 <= p < q < t.len() implies t[p].id@ != t[q].id@ by {
        if p != i && q != i {
            assert(t[p] == s[p] && t[q] == s[q]);
        } else if p == i {
            assert(t[p].id@ == s[p].id@ && t[q] == s[q]);
        } else {
            assert(t[q].id@ == s[q].id@ && t[p] == s[p]);
        }
    }
    if i == s.len() - 1 {
        assert(t.drop_last() =~= s.drop_last());
        assert(t.last() == e);
        assert(s.last() == s[i]);
        assert(entries_map(t) =~= entries_map(s).insert(e.id@, e.balance as int));
    } else {
        lemma_entries_unique_drop_last(s);
        assert(t.drop_last() =~= s.drop_last().update(i, e));
        assert(t.last() == s.last());
        assert(s.drop_last()[i] == s[i]);
        lemma_entries_map_update(s.drop_last(), i, e);
        assert(s[i].id@ != s.last().id@);
        assert(entries_map(t) =~= entries_map(s).insert(e.id@, e.balance as int));
    }
}

/// Mathematical content of the ledger: the chain of block models, the
/// balance table as a map, and the difficulty level.
#[verifier::ext_equal]
pub struct ChainModel {
    pub chain: Seq<BlockModel>,
    pub balances: Map<Seq<char>, int>,
    pub difficulty: u8,
}

/// The balance a table gives an account: its entry, or the starting balance
/// for an account with none.
pub open spec fn spec_balance_in(balances: Map<Seq<char>, int>, id: Seq<char>) -> int {
    if balances.contains_key(id) {
        balances[id]
    } else {
        STARTING_BALANCE as int
    }
}

/// Two balance tables that give every account the same balance; they may
/// differ in which accounts hold an explicit starting-balance entry.
spec fn balances_agree(a: Map<Seq<char>, int>, b: Map<Seq<char>, int>) -> bool {
    forall|id: Seq<char>| #[trigger] spec_balance_in(a, id) == spec_balance_in(b, id)
}

/// The balance table derived from a chain: the ledger effects of all
/// committed transactions applied in chain order. The genesis transaction is
/// the null transaction and affects no balance, so the fold starts after it.
pub open spec fn spec_chain_balances(chain: Seq<BlockModel>) -> Map<Seq<char>, int>
    decreases chain.len(),
{
    if chain.len() <= 1 {
        Map::empty()
    } else {
        spec_apply_transaction(spec_chain_balances(chain.drop_last()), chain.last().transaction)
    }
}

/// A hash meets a difficulty level when its first `difficulty` bytes are
/// zero; a difficulty larger than the digest can never be met.
pub open spec fn spec_meets_difficulty(hash: Seq<u8>, difficulty: int) -> bool {
    &&& difficulty <= hash.len()
    &&& forall|i: int| 0 <= i < difficulty ==> hash[i] == 0
}

/// Some nonce at or above the block's current one makes its recomputed hash
/// meet the difficulty.
pub open spec fn spec_mineable(b: BlockModel, difficulty: int) -> bool {
    exists|n: u64|
        b.nonce <= n && #[trigger] spec_meets_difficulty(spec_with_nonce(b, n).hash, difficulty)
}

/// The candidate block a local transaction becomes when drawn at a given
/// timestamp: the next index, the tip's hash as previous hash, nonce 0, and
/// a freshly computed hash.
pub open spec fn spec_candidate(
    tip: BlockModel,
    index: u64,
    t: TransactionModel,
    timestamp: u64,
) -> BlockModel {
    spec_rehash(
        BlockModel {
            index,
            timestamp,
            hash: Seq::empty(),
            previous_hash: tip.hash,
            transaction: t,
            nonce: 0,
        },
    )
}

impl ChainModel {
    /// The most recently committed block.
    pub open spec fn tip(self) -> BlockModel {
        self.chain.last()
    }

    /// The balance of an account, or the starting balance if it was never
    /// seen; querying never registers the account.
    pub open spec fn balance_of(self, id: Seq<char>) -> int {
        spec_balance_in(self.balances, id)
    }

    /// The chain invariants: the chain starts with the fixed genesis block;
    /// every block sits at the index equal to its position and caches the
    /// digest of its own content; every block after genesis records its
    /// parent's digest and meets the difficulty (genesis is exempt).
    pub open spec fn wf(self) -> bool {
        &&& self.chain.len() >= 1
        &&& self.chain[0] == genesis_model()
        &&& forall|i: int| 0 <= i < self.chain.len() ==> (#[trigger] self.chain[i]).index as int == i
        &&& forall|i: int| 0 <= i < self.chain.len() ==> (#[trigger] self.chain[i]).wf()
        &&& forall|i: int|
            0 < i < self.chain.len() ==> (#[trigger] self.chain[i]).previous_hash
                == self.chain[i - 1].hash
        &&& forall|i: int|
            0 < i < self.chain.len() ==> spec_meets_difficulty(
                (#[trigger] self.chain[i]).hash,
                self.difficulty as int,
            )
    }
}

/// Whether applying a transaction keeps every balance representable: the
/// debited sender must stay at or above the smallest balance, the credited
/// receiver at or below the largest (a machine limit, not a solvency check;
/// when sender and receiver coincide the net effect is zero).
pub open spec fn spec_balances_fit(m: ChainModel, t: TransactionModel) -> bool {
    &&& i128::MIN <= m.balance_of(t.sender) - t.amount
    &&& (t.sender == t.receiver || m.balance_of(t.receiver) + t.amount <= i128::MAX)
}

/// The ledger effect of one committed transaction: lazily seed sender and
/// receiver with the starting balance if unseen, then debit the sender and
/// credit the receiver by the amount. No solvency check gates this.
pub open spec fn spec_apply_transaction(
    balances: Map<Seq<char>, int>,
    t: TransactionModel,
) -> Map<Seq<char>, int> {
    let seeded_sender = if balances.contains_key(t.sender) {
        balances
    } else {
        balances.insert(t.sender, STARTING_BALANCE as int)
    };
    let debited = seeded_sender.insert(t.sender, seeded_sender[t.sender] - t.amount);
    let seeded_receiver = if debited.contains_key(t.receiver) {
        debited
    } else {
        debited.insert(t.receiver, STARTING_BALANCE as int)
    };
    seeded_receiver.insert(t.receiver, seeded_receiver[t.receiver] + t.amount)
}

/// How committing a block can fail. An index-contiguity violation is fatal
/// for the node: the caller must abort rather than resume, since the chain
/// can only be repaired by a full resync. The other two leave the ledger
/// unchanged and are reported to the caller.
#[derive(Debug, Clone, Copy, PartialEq, Eq, Structural)]
pub enum ChainError {
    /// The block's index is not the next chain position: an out-of-order
    /// append that upstream should have prevented.
    IndexContiguity,
    /// No nonce at or above the block's left the hash meeting the
    /// difficulty: the proof-of-work search space is exhausted.
    NonceExhausted,
    /// Applying the transaction would take a balance outside the
    /// representable range.
    BalanceOutOfRange,
}

/// The validated append-only chain and its derived balance table; mines
/// locally originated transactions and absorbs externally originated blocks
/// over one serialized commit path.
#[derive(Debug)]
pub struct Blockchain {
    balances: Vec<AccountEntry>,
    block_chain: Vec<Block>,
    difficulty: u8,
}

impl View for Blockchain {
    type V = ChainModel;

    closed spec fn view(&self) -> ChainModel {
        ChainModel {
            chain: Seq::new(self.block_chain@.len() as nat, |i: int| self.block_chain@[i]@),
            balances: entries_map(self.balances@),
            difficulty: self.difficulty,
        }
    }
}

/// Compares two byte strings for equality.
fn bytes_eq(a: &[u8], b: &[u8]) -> (r: bool)
    ensures
        r == (a@ == b@),
{
    if a.len() != b.len() {
        return false;
    }
    let n = a.len();
    let mut i: usize = 0;
    while i < n
        invariant
            n == a@.len(),
            n == b@.len(),
            i <= n,
            forall|j: int| 0 <= j < i ==> a@[j] == b@[j],
        decreases n - i,
    {
        if *slice_index_get(a, i) != *slice_index_get(b, i) {
            return false;
        }
        i = i + 1;
    }
    proof {
        assert(a@ =~= b@);
    }
    true
}

/// Checks that the first `difficulty` bytes of a hash are zero.
fn hash_meets_difficulty(hash: &[u8], difficulty: u8) -> (r: bool)
    ensures
        r == spec_meets_difficulty(hash@, difficulty as int),
{
    let d = difficulty as usize;
    if d > hash.len() {
        return false;
    }
    let mut i: usize = 0;
    while i < d
        invariant
            d == difficulty as usize,
            d <= hash@.len(),
            i <= d,
            forall|j: int| 0 <= j < i ==> hash@[j] == 0,
        decreases d - i,
    {
        if *slice_index_get(hash, i) != 0 {
            return false;
        }
        i = i + 1;
    }
    true
}

/// Finds the row of the balance table holding the given account, if any.
fn find_account(balances: &Vec<AccountEntry>, id: &String) -> (r: Option<usize>)
    ensures
        match r {
            Some(i) => i < balances@.len() && balances@[i as int].id@ == id@,
            None => forall|i: int| 0 <= i < balances@.len() ==> balances@[i].id@ != id@,
        },
{
    let n = balances.len();
    let mut i: usize = 0;
    while i < n
        invariant
            n == balances@.len(),
            i <= n,
            forall|j: int| 0 <= j < i ==> balances@[j].id@ != id@,
        decreases n - i,
    {
        if balances[i].id == *id {
            return Some(i);
        }
        i = i + 1;
    }
    None
}

impl Blockchain {
    /// The ledger invariant: one row per account in the balance table, the
    /// chain invariants of `ChainModel::wf`, and the balance table giving
    /// every account exactly what the committed transactions, applied in
    /// chain order, derive for it. Constructors establish it and every
    /// method preserves it.
    pub closed spec fn wf(&self) -> bool {
        &&& entries_unique(self.balances@)
        &&& self@.wf()
        &&& balances_agree(self@.balances, spec_chain_balances(self@.chain))
    }

    /// Builds a ledger at the given difficulty, seeded with the genesis
    /// block and an empty balance table.
    pub fn new(difficulty: u8) -> (r: Self)
        ensures
            r.wf(),
            r@.difficulty == difficulty,
            r@.chain == seq![genesis_model()],
            r@.balances == Map::<Seq<char>, int>::empty(),
    {
        let mut chain: Vec<Block> = Vec::new();
        chain.push(genesis_block());
        let r = Blockchain { balances: Vec::new(), block_chain: chain, difficulty };
        proof {
            assert(r@.chain =~= seq![genesis_model()]);
            assert(r@.balances =~= Map::<Seq<char>, int>::empty());
            assert forall|id: Seq<char>|
                #[trigger] spec_balance_in(r@.balances, id) == spec_balance_in(
                    spec_chain_balances(r@.chain),
                    id,
                ) by {
                assert(spec_chain_balances(r@.chain) =~= Map::<Seq<char>, int>::empty());
            }
        }
        r
    }

    /// The current tip; the chain is never empty.
    pub fn latest_block(&self) -> (r: &Block)
        requires
            self.wf(),
        ensures
            r@ == self@.tip(),
    {
        let i = self.block_chain.len() - 1;
        let r = &self.block_chain[i];
        proof {
            assert(r@ == self@.chain.last());
        }
        r
    }

    /// The whole chain, genesis first.
    pub fn block_chain(&self) -> (r: &[Block])
        ensures
            r@.len() == self@.chain.len(),
            forall|i: int| 0 <= i < r@.len() ==> (#[trigger] r@[i])@ == self@.chain[i],
    {
        self.block_chain.as_slice()
    }

    /// True when the first `difficulty` bytes of the block's cached hash are
    /// zero.
    pub fn block_meets_difficulty(&self, block: &Block) -> (r: bool)
        ensures
            r == spec_meets_difficulty(block@.hash, self@.difficulty as int),
    {
        hash_meets_difficulty(block.hash_slice(), self.difficulty)
    }

    /// Whether a candidate extends the current tip: its previous hash must
    /// be the tip's hash and its index the next position. Deliberately no
    /// timestamp-ordering requirement (the chosen policy), and deliberately
    /// no sender-solvency or receiver-existence check: that gap is a
    /// documented scope limitation of the design.
    pub fn is_valid_next_block(&self, block: &Block) -> (r: bool)
        requires
            self.wf(),
        ensures
            r == (block@.previous_hash == self@.tip().hash && block@.index as int == self@.tip().index
                + 1),
    {
        let tip_index = {
            let tip = self.latest_block();
            tip.index()
        };
        let tip_hash = {
            let tip = self.latest_block();
            tip.hash()
        };
        let prev = block.previous_hash();
        let prev_ok = bytes_eq(prev.as_slice(), tip_hash.as_slice());
        if tip_index == u64::MAX {
            false
        } else {
            prev_ok && block.index() == tip_index + 1
        }
    }

    /// The balance of an account, or the starting balance for one never
    /// seen; never errs and never mutates the table.
    pub fn get_balance(&self, peer_id: String) -> (r: Balance)
        requires
            self.wf(),
        ensures
            r as int == self@.balance_of(peer_id@),
    {
        self.balance_or_starting(&peer_id)
    }

    /// Internal lookup shared by the query and commit paths.
    fn balance_or_starting(&self, id: &String) -> (r: Balance)
        requires
            entries_unique(self.balances@),
        ensures
            r as int == self@.balance_of(id@),
    {
        match find_account(&self.balances, id) {
            Some(i) => {
                proof {
                    lemma_entries_map_present(self.balances@, i as int);
                }
                self.balances[i].balance
            },
            None => {
                proof {
                    lemma_entries_map_absent(self.balances@, id@);
                }
                STARTING_BALANCE
            },
        }
    }

    /// Gives an account a row with the starting balance if it has none yet;
    /// an account already seen is left untouched. Seeding an account never
    /// changes the balance it is owed, so the ledger derivation is kept.
    pub fn add_peer(&mut self, peer: String)
        requires
            old(self).wf(),
        ensures
            final(self).wf(),
            final(self)@.chain == old(self)@.chain,
            final(self)@.difficulty == old(self)@.difficulty,
            final(self)@.balances == (if old(self)@.balances.contains_key(peer@) {
                old(self)@.balances
            } else {
                old(self)@.balances.insert(peer@, STARTING_BALANCE as int)
            }),
    {
        self.seed_account(&peer);
        proof {
            assert forall|id: Seq<char>|
                #[trigger] spec_balance_in(self@.balances, id) == spec_balance_in(
                    spec_chain_balances(self@.chain),
                    id,
                ) by {
                assert(spec_balance_in(self@.balances, id) == spec_balance_in(
                    old(self)@.balances,
                    id,
                ));
            }
        }
    }

    /// Inserts a starting-balance row for an unseen account; the lazy
    /// initialization shared by `add_peer` and the commit path.
    fn seed_account(&mut self, peer: &String)
        requires
            entries_unique(old(self).balances@),
        ensures
            entries_unique(final(self).balances@),
            final(self)@.chain == old(self)@.chain,
            final(self)@.difficulty == old(self)@.difficulty,
            final(self)@.balances == (if old(self)@.balances.contains_key(peer@) {
                old(self)@.balances
            } else {
                old(self)@.balances.insert(peer@, STARTING_BALANCE as int)
            }),
    {
        match find_account(&self.balances, peer) {
            Some(i) => {
                proof {
                    lemma_entries_map_present(self.balances@, i as int);
                }
            },
            None => {
                let ghost s0 = self.balances@;
                self.balances.push(AccountEntry { id: peer.clone(), balance: STARTING_BALANCE });
                proof {
                    lemma_entries_map_absent(s0, peer@);
                    assert(self.balances@.drop_last() =~= s0);
                    assert forall|p: int, q: int|
                        0 <= p < q < self.balances@.len() implies self.balances@[p].id@
                        != self.balances@[q].id@ by {
                        if q < s0.len() as int {
                            assert(self.balances@[p] == s0[p] && self.balances@[q] == s0[q]);
                        } else {
                            assert(self.balances@[p] == s0[p]);
                        }
                    }
                    assert(self@.chain =~= old(self)@.chain);
                }
            },
        }
    }

    /// Overwrites the balance of an account that already has a row. Used
    /// only mid-commit, so it promises the table's shape, not the ledger
    /// derivation, which the commit re-establishes once the whole
    /// transaction is applied.
    fn set_balance(&mut self, id: &String, new_balance: Balance)
        requires
            entries_unique(old(self).balances@),
            old(self)@.balances.contains_key(id@),
        ensures
            entries_unique(final(self).balances@),
            final(self)@.chain == old(self)@.chain,
            final(self)@.difficulty == old(self)@.difficulty,
            final(self)@.balances == old(self)@.balances.insert(id@, new_balance as int),
    {
        let ghost s0 = self.balances@;
        match find_account(&self.balances, id) {
            Some(i) => {
                let entry = &mut self.balances[i];
                entry.balance = new_balance;
                proof {
                    assert(self.balances@ == s0.update(i as int, self.balances@[i as int]));
                    assert(self.balances@[i as int].id@ == id@);
                    lemma_entries_map_update(s0, i as int, self.balances@[i as int]);
                    assert(self@.chain =~= old(self)@.chain);
                }
            },
            None => {
                proof {
                    lemma_entries_map_absent(s0, id@);
                    assert(false);
                }
            },
        }
    }

    /// Commits one block, whether locally mined or received from a peer:
    /// recomputes its hash, mines it to the difficulty, checks index
    /// contiguity, and on success pushes it and applies its ledger effect
    /// atomically. An `IndexContiguity` error signals an out-of-order append
    /// that upstream should have prevented; it is fatal for the node and the
    /// caller must abort rather than resume. The caller hands a block linked
    /// to the current tip, the validation `is_valid_next_block` performs.
    pub fn add_block(&mut self, block: Block) -> (r: Result<(), ChainError>)
        requires
            old(self).wf(),
            block@.previous_hash == old(self)@.tip().hash,
        ensures
            final(self).wf(),
            final(self)@.difficulty == old(self)@.difficulty,
            (match r {
                Ok(_) => {
                    &&& spec_mineable(block@, old(self)@.difficulty as int)
                    &&& block@.index as int == old(self)@.chain.len()
                    &&& spec_balances_fit(old(self)@, block@.transaction)
                    &&& ({
                        let m = final(self)@.chain.last();
                        &&& final(self)@.chain == old(self)@.chain.push(m)
                        &&& m == spec_with_nonce(block@, m.nonce)
                        &&& block@.nonce <= m.nonce
                        &&& spec_meets_difficulty(m.hash, old(self)@.difficulty as int)
                        &&& forall|k: u64|
                            block@.nonce <= k < m.nonce ==> !spec_meets_difficulty(
                                spec_with_nonce(block@, k).hash,
                                old(self)@.difficulty as int,
                            )
                    })
                    &&& final(self)@.balances == spec_apply_transaction(
                        old(self)@.balances,
                        block@.transaction,
                    )
                },
                Err(e) => {
                    &&& final(self)@ == old(self)@
                    &&& (match e {
                        ChainError::NonceExhausted => !spec_mineable(
                            block@,
                            old(self)@.difficulty as int,
                        ),
                        ChainError::IndexContiguity => spec_mineable(
                            block@,
                            old(self)@.difficulty as int,
                        ) && block@.index as int != old(self)@.chain.len(),
                        ChainError::BalanceOutOfRange => spec_mineable(
                            block@,
                            old(self)@.difficulty as int,
                        ) && block@.index as int == old(self)@.chain.len()
                            && !spec_balances_fit(old(self)@, block@.transaction),
                    })
                },
            }),
    {
        let ghost b_in = block@;
        let ghost pre = old(self)@;
        let d = self.difficulty;
        let mut block = block;
        proof {
            assert(pre.chain[pre.chain.len() - 1].wf());
        }
        let mined = mine(&mut block, d);
        if !mined {
            return Err(ChainError::NonceExhausted);
        }
        let ghost m = block@;
        if block.index() != self.block_chain.len() as u64 {
            return Err(ChainError::IndexContiguity);
        }
        let t = block.transaction();
        proof {
            assert(t@ == b_in.transaction);
        }
        let amount = t.amount as i128;
        let sender_balance = self.balance_or_starting(&t.sender);
        if sender_balance < i128::MIN + amount {
            proof {
                assert(!spec_balances_fit(pre, b_in.transaction));
            }
            return Err(ChainError::BalanceOutOfRange);
        }
        if !(t.sender == t.receiver) {
            let receiver_balance = self.balance_or_starting(&t.receiver);
            if receiver_balance > i128::MAX - amount {
                proof {
                    assert(!spec_balances_fit(pre, b_in.transaction));
                }
                return Err(ChainError::BalanceOutOfRange);
            }
        }
        proof {
            assert(spec_balances_fit(pre, b_in.transaction));
        }
        self.block_chain.push(block);
        proof {
            let newc = self@.chain;
            assert(newc =~= pre.chain.push(m));
            assert(m.index as int == pre.chain.len());
            assert(m.previous_hash == pre.tip().hash);
            assert(m.wf());
            assert(spec_meets_difficulty(m.hash, pre.difficulty as int));
            assert(newc[0] == pre.chain[0]);
            assert forall|i: int| 0 <= i < newc.len() implies (#[trigger] newc[i]).index as int
                == i by {
                if i < pre.chain.len() {
                    assert(newc[i] == pre.chain[i]);
                } else {
                    assert(newc[i] == m);
                }
            }
            assert forall|i: int| 0 <= i < newc.len() implies (#[trigger] newc[i]).wf() by {
                if i < pre.chain.len() {
                    assert(newc[i] == pre.chain[i]);
                } else {
                    assert(newc[i] == m);
                }
            }
            assert forall|i: int| 0 < i < newc.len() implies (#[trigger] newc[i]).previous_hash
                == newc[i - 1].hash by {
                if i < pre.chain.len() {
                    assert(newc[i] == pre.chain[i] && newc[i - 1] == pre.chain[i - 1]);
                } else {
                    assert(newc[i] == m && newc[i - 1] == pre.chain[i - 1]);
                    assert(pre.tip() == pre.chain[pre.chain.len() - 1]);
                }
            }
            assert forall|i: int| 0 < i < newc.len() implies spec_meets_difficulty(
                (#[trigger] newc[i]).hash,
                self@.difficulty as int,
            ) by {
                if i < pre.chain.len() {
                    assert(newc[i] == pre.chain[i]);
                } else {
                    assert(newc[i] == m);
                }
            }
        }
        self.seed_account(&t.sender);
        let sender_balance2 = self.balance_or_starting(&t.sender);
        proof {
            assert(sender_balance2 == sender_balance);
        }
        self.set_balance(&t.sender, sender_balance2 - amount);
        self.seed_account(&t.receiver);
        let receiver_balance2 = self.balance_or_starting(&t.receiver);
        proof {
            if t@.sender == t@.receiver {
                assert(receiver_balance2 == sender_balance2 - amount);
            } else {
                assert(receiver_balance2 as int == pre.balance_of(b_in.transaction.receiver));
            }
        }
        self.set_balance(&t.receiver, receiver_balance2 + amount);
        proof {
            assert(self@.balances =~= spec_apply_transaction(pre.balances, b_in.transaction));
            assert(self@.chain == pre.chain.push(m));
            assert(balances_agree(pre.balances, spec_chain_balances(pre.chain)));
            lemma_apply_preserves_agreement(
                pre.balances,
                spec_chain_balances(pre.chain),
                b_in.transaction,
            );
            assert(self@.chain.drop_last() =~= pre.chain);
            assert(spec_chain_balances(self@.chain) == spec_apply_transaction(
                spec_chain_balances(pre.chain),
                b_in.transaction,
            ));
            assert(self.wf());
        }
        Ok(())
    }

    /// Builds a candidate block for the transaction at the next chain
    /// position, mines it, re-validates it against the tip, and on success
    /// commits it and returns the new tip. Returns nothing and leaves the
    /// ledger unchanged in exactly two cases: a balance would leave the
    /// representable range, or the candidate drawn (its timestamp comes from
    /// the clock) has no winning nonce left in the search space. At
    /// difficulty 0 with fitting balances, success is owed.
    pub fn add_transaction(&mut self, transaction: Transaction) -> (r: Option<Block>)
        requires
            old(self).wf(),
            old(self)@.chain.len() <= u64::MAX,
        ensures
            final(self).wf(),
            final(self)@.difficulty == old(self)@.difficulty,
            (match r {
                Some(b) => {
                    &&& b@.wf()
                    &&& b@.index as int == old(self)@.chain.len()
                    &&& b@.previous_hash == old(self)@.tip().hash
                    &&& b@.transaction == transaction@
                    &&& spec_meets_difficulty(b@.hash, old(self)@.difficulty as int)
                    &&& final(self)@.chain == old(self)@.chain.push(b@)
                    &&& final(self)@.balances == spec_apply_transaction(
                        old(self)@.balances,
                        transaction@,
                    )
                    &&& spec_balances_fit(old(self)@, transaction@)
                },
                None => final(self)@ == old(self)@,
            }),
            !spec_balances_fit(old(self)@, transaction@) ==> r is None,
            r is None ==> (!spec_balances_fit(old(self)@, transaction@) || exists|ts: u64|
                !spec_mineable(
                    #[trigger] spec_candidate(
                        old(self)@.tip(),
                        old(self)@.chain.len() as u64,
                        transaction@,
                        ts,
                    ),
                    old(self)@.difficulty as int,
                )),
            (spec_balances_fit(old(self)@, transaction@) && old(self)@.difficulty == 0)
                ==> r is Some,
    {
        let ghost pre = old(self)@;
        let tip_index = {
            let tip = self.latest_block();
            tip.index()
        };
        let tip_hash = {
            let tip = self.latest_block();
            tip.hash()
        };
        proof {
            assert(pre.chain[pre.chain.len() - 1].index as int == pre.chain.len() - 1);
            assert(pre.chain[pre.chain.len() - 1].wf());
            assert(pre.tip() == pre.chain[pre.chain.len() - 1]);
        }
        let block = Block::new(transaction, tip_index + 1, tip_hash);
        let ghost candidate = block@;
        if self.is_valid_next_block(&block) {
            match self.add_block(block) {
                Ok(_) => {
                    let b = {
                        let tip = self.latest_block();
                        tip.clone()
                    };
                    proof {
                        assert(b@ == self@.chain.last());
                        assert(self@.chain[self@.chain.len() - 1].wf());
                        assert(spec_apply_transaction(pre.balances, candidate.transaction)
                            == spec_apply_transaction(pre.balances, transaction@));
                    }
                    Some(b)
                },
                Err(_) => {
                    proof {
                        if spec_balances_fit(pre, transaction@) && pre.difficulty == 0 {
                            assert(spec_meets_difficulty(
                                spec_with_nonce(candidate, candidate.nonce).hash,
                                pre.difficulty as int,
                            ));
                            assert(spec_mineable(candidate, pre.difficulty as int));
                            assert(spec_balances_fit(pre, candidate.transaction));
                            assert(false);
                        }
                        if spec_balances_fit(pre, transaction@) {
                            // Fitting balances rule out the balance error and
                            // the candidate sits at the next position, so only
                            // nonce exhaustion remains: the drawn candidate is
                            // not mineable, witnessed by its timestamp.
                            assert(spec_balances_fit(pre, candidate.transaction));
                            assert(candidate.index as int == pre.chain.len());
                            assert(!spec_mineable(candidate, pre.difficulty as int));
                            let inner = BlockModel {
                                index: pre.chain.len() as u64,
                                timestamp: candidate.timestamp,
                                hash: Seq::empty(),
                                previous_hash: pre.tip().hash,
                                transaction: transaction@,
                                nonce: 0,
                            };
                            lemma_hash_deterministic(candidate, inner);
                            assert(candidate =~= spec_candidate(
                                pre.tip(),
                                pre.chain.len() as u64,
                                transaction@,
                                candidate.timestamp,
                            ));
                            assert(!spec_mineable(
                                spec_candidate(
                                    pre.tip(),
                                    pre.chain.len() as u64,
                                    transaction@,
                                    candidate.timestamp,
                                ),
                                pre.difficulty as int,
                            ));
                        }
                    }
                    None
                },
            }
        } else {
            // The candidate was built against the tip, whose index and hash
            // cannot change under it, so re-validation never fails here;
            // the proof confirms the branch is unreachable.
            proof {
                assert(false);
            }
            None
        }
    }
}

/// Proof-of-work search: recomputes the block's cached hash, then increments
/// the nonce until the hash meets the difficulty. The search reports failure
/// instead of wrapping around when every nonce at or above the starting one
/// has been ruled out.
#[verifier::loop_isolation(false)]
fn mine(block: &mut Block, difficulty: u8) -> (mined: bool)
    requires
        old(block)@.previous_hash.len() == HASH_SIZE,
    ensures
        mined == spec_mineable(old(block)@, difficulty as int),
        mined ==> ({
            let m = final(block)@;
            &&& m == spec_with_nonce(old(block)@, m.nonce)
            &&& m.wf()
            &&& old(block)@.nonce <= m.nonce
            &&& spec_meets_difficulty(m.hash, difficulty as int)
            &&& forall|k: u64|
                old(block)@.nonce <= k < m.nonce ==> !spec_meets_difficulty(
                    spec_with_nonce(old(block)@, k).hash,
                    difficulty as int,
                )
        }),
{
    let ghost b0 = block@;
    block.update_hash();
    proof {
        crate::block::lemma_rehash_is_with_current_nonce(b0);
    }
    loop
        invariant
            block@ == spec_with_nonce(b0, block@.nonce),
            b0.nonce <= block@.nonce,
            block@.wf(),
            forall|k: u64|
                b0.nonce <= k < block@.nonce ==> !spec_meets_difficulty(
                    spec_with_nonce(b0, k).hash,
                    difficulty as int,
                ),
        decreases u64::MAX - block@.nonce,
    {
        if hash_meets_difficulty(block.hash_slice(), difficulty) {
            proof {
                assert(spec_meets_difficulty(
                    spec_with_nonce(b0, block@.nonce).hash,
                    difficulty as int,
                ));
            }
            return true;
        }
        if block.nonce() == u64::MAX {
            proof {
                assert forall|k: u64| b0.nonce <= k implies !spec_meets_difficulty(
                    spec_with_nonce(b0, k).hash,
                    difficulty as int,
                ) by {
                    if k == u64::MAX {
                        assert(spec_with_nonce(b0, k) == block@);
                    }
                }
            }
            return false;
        }
        let ghost before = block@;
        block.increment_nonce();
        proof {
            crate::block::lemma_with_nonce_twice(b0, before.nonce, (before.nonce + 1) as u64);
            assert forall|k: u64|
                b0.nonce <= k < block@.nonce implies !spec_meets_difficulty(
                spec_with_nonce(b0, k).hash,
                difficulty as int,
            ) by {
                if k == before.nonce {
                    assert(spec_with_nonce(b0, k) == before);
                }
            }
        }
    }
}

/// Applying a transaction to two tables that owe every account the same
/// balance yields tables that still owe every account the same balance.
proof fn lemma_apply_preserves_agreement(
    a: Map<Seq<char>, int>,
    b: Map<Seq<char>, int>,
    t: TransactionModel,
)
    requires
        balances_agree(a, b),
    ensures
        balances_agree(spec_apply_transaction(a, t), spec_apply_transaction(b, t)),
{
    let ra = spec_apply_transaction(a, t);
    let rb = spec_apply_transaction(b, t);
    assert forall|id: Seq<char>| #[trigger] spec_balance_in(ra, id) == spec_balance_in(rb, id) by {
        assert(spec_balance_in(a, t.sender) == spec_balance_in(b, t.sender));
        assert(spec_balance_in(a, t.receiver) == spec_balance_in(b, t.receiver));
        assert(spec_balance_in(a, id) == spec_balance_in(b, id));
    }
}

/// Law: one committed transaction moves exactly its amount — the sender's
/// balance drops by it, the receiver's rises by it, every other account is
/// untouched; when sender and receiver coincide, no balance moves at all.
pub proof fn lemma_transaction_moves_amount(balances: Map<Seq<char>, int>, t: TransactionModel)
    ensures
        t.sender != t.receiver ==> spec_balance_in(spec_apply_transaction(balances, t), t.sender)
            == spec_balance_in(balances, t.sender) - t.amount,
        t.sender != t.receiver ==> spec_balance_in(spec_apply_transaction(balances, t), t.receiver)
            == spec_balance_in(balances, t.receiver) + t.amount,
        forall|id: Seq<char>|
            id != t.sender && id != t.receiver ==> #[trigger] spec_balance_in(
                spec_apply_transaction(balances, t),
                id,
            ) == spec_balance_in(balances, id),
        t.sender == t.receiver ==> forall|id: Seq<char>|
            #[trigger] spec_balance_in(spec_apply_transaction(balances, t), id) == spec_balance_in(
                balances,
                id,
            ),
{
}

/// Law (ledger derivation): in a well-formed ledger, every account's balance
/// is exactly the starting balance adjusted by all transactions committed in
/// chain order — the balance table is a derived view of the chain.
pub proof fn lemma_balances_derived_from_chain(chain: &Blockchain)
    requires
        chain.wf(),
    ensures
        forall|id: Seq<char>|
            #[trigger] chain@.balance_of(id) == spec_balance_in(
                spec_chain_balances(chain@.chain),
                id,
            ),
{
}

/// Law: in a well-formed ledger every block after genesis records the
/// content digest of its parent as its previous hash, and every block's
/// index equals its chain position.
pub proof fn lemma_chain_linked(chain: &Blockchain)
    requires
        chain.wf(),
    ensures
        chain@.wf(),
        forall|i: int|
            0 < i < chain@.chain.len() ==> (#[trigger] chain@.chain[i]).previous_hash
                == spec_block_hash(chain@.chain[i - 1]),
        forall|i: int| 0 <= i < chain@.chain.len() ==> (#[trigger] chain@.chain[i]).index as int == i,
{
    assert forall|i: int| 0 < i < chain@.chain.len() implies (#[trigger] chain@.chain[i]).previous_hash
        == spec_block_hash(chain@.chain[i - 1]) by {
        assert(chain@.chain[i - 1].wf());
    }
}

/// Law: in a well-formed ledger at difficulty d, the content hash of every
/// block after genesis has its first d bytes zero; genesis is exempt.
pub proof fn lemma_chain_difficulty(chain: &Blockchain)
    requires
        chain.wf(),
    ensures
        forall|i: int|
            0 < i < chain@.chain.len() ==> spec_meets_difficulty(
                (#[trigger] chain@.chain[i]).hash,
                chain@.difficulty as int,
            ),
        forall|i: int|
            0 < i < chain@.chain.len() ==> spec_meets_difficulty(
                spec_block_hash(#[trigger] chain@.chain[i]),
                chain@.difficulty as int,
            ),
{
    assert forall|i: int| 0 < i < chain@.chain.len() implies spec_meets_difficulty(
        spec_block_hash(#[trigger] chain@.chain[i]),
        chain@.difficulty as int,
    ) by {
        assert(chain@.chain[i].wf());
    }
}

} // verus!
