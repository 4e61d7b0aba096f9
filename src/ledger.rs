//! The ledger: the chain of blocks, the balances, the pool of admitted
//! transaction ids and the bounded queue between admission and sealing.

use vstd::prelude::*;
use crate::accounts::{apply_one, balance_in, replay, replay_from, lemma_replay_concat};
use crate::block::{meets_difficulty, Block};
use crate::error::LedgerError;
use crate::outside::{
    account_entries, account_get, account_insert, instant_now, nanos_since, new_account_map,
    new_pool, pool_contains, pool_entries, pool_insert,
};
use crate::performance::{saturated_total, sum_sizes, PerformanceMonitor, PerformanceStats};
use crate::queue::{queue_capacity, queued, TxQueue};
use crate::transaction::Transaction;

verus! {

broadcast use vstd::string::to_string_from_display_ensures_for_str;

/// How many transactions the submission queue holds.
pub const QUEUE_CAPACITY: usize = 100_000;

/// Leading hex zeros a sealed block's hash must have.
pub const DIFFICULTY: usize = 2;

/// Transactions the background processor drains per tick.
pub const BATCH_SIZE: usize = 1000;

/// Total number of transactions in a sequence of blocks.
pub open spec fn sum_lens(blocks: Seq<Block>) -> nat
    decreases blocks.len(),
{
    if blocks.len() == 0 {
        0
    } else {
        sum_lens(blocks.drop_last()) + blocks.last().transactions@.len()
    }
}

/// Block `i` is sealed onto block `i - 1`: it names its predecessor's hash,
/// its own hash matches its fields, and that hash meets the difficulty.
pub open spec fn sealed_at(blocks: Seq<Block>, i: int) -> bool {
    &&& blocks[i].previous_hash@ == blocks[i - 1].hash@
    &&& blocks[i].hash_consistent()
    &&& meets_difficulty(blocks[i].hash@, DIFFICULTY as nat)
}

/// A well-formed chain: a genesis block with an empty previous hash and no
/// transactions, then blocks each sealed onto the one before.
pub open spec fn chain_wf(blocks: Seq<Block>) -> bool {
    &&& blocks.len() >= 1
    &&& blocks[0].previous_hash@.len() == 0
    &&& blocks[0].transactions@.len() == 0
    &&& blocks[0].hash_consistent()
    &&& forall|i: int| 1 <= i < blocks.len() ==> #[trigger] sealed_at(blocks, i)
}

/// A count held at the largest `u64`.
pub open spec fn capped_count(n: nat) -> nat {
    if n <= u64::MAX {
        n
    } else {
        u64::MAX as nat
    }
}

pub open spec fn difficulty_reason() -> Seq<char> {
    "Block hash does not meet the difficulty"@
}

pub open spec fn count_reason() -> Seq<char> {
    "Transaction count overflow"@
}

pub open spec fn queue_full_reason() -> Seq<char> {
    "Transaction queue is full"@
}

pub struct DistributedLedger {
    blocks: Vec<Block>,
    balances: dashmap::DashMap<String, u64>,
    transaction_pool: dashmap::DashMap<u128, Transaction>,
    performance_monitor: PerformanceMonitor,
    queue: TxQueue,
    transaction_count: usize,
    applied: Ghost<Seq<Transaction>>,
}

/// Drains up to `batch_size` transactions from the front of the queue.
fn drain_queue(queue: &mut TxQueue, batch_size: usize) -> (r: Vec<Transaction>)
    ensures
        queue_capacity(*final(queue)) == queue_capacity(*old(queue)),
        r@.len() == if batch_size < queued(*old(queue)).len() {
            batch_size as nat
        } else {
            queued(*old(queue)).len()
        },
        r@ == queued(*old(queue)).subrange(0, r@.len() as int),
        queued(*final(queue)) == queued(*old(queue)).subrange(
            r@.len() as int,
            queued(*old(queue)).len() as int,
        ),
{
    let ghost start = queued(*queue);
    let mut batch: Vec<Transaction> = Vec::new();
    while batch.len() < batch_size
        invariant
            queue_capacity(*queue) == queue_capacity(*old(queue)),
            start == queued(*old(queue)),
            batch@.len() <= batch_size,
            batch@.len() <= start.len(),
            batch@ == start.subrange(0, batch@.len() as int),
            queued(*queue) == start.subrange(batch@.len() as int, start.len() as int),
        decreases batch_size - batch@.len(),
    {
        match queue.try_pop() {
            Some(tx) => {
                batch.push(tx);
                assert(batch@ =~= start.subrange(0, batch@.len() as int));
                assert(queued(*queue) =~= start.subrange(batch@.len() as int, start.len() as int));
            },
            None => {
                return batch;
            },
        }
    }
    batch
}

/// Applies `batch` to the balances in order.
fn apply_batch(balances: &mut dashmap::DashMap<String, u64>, batch: &Vec<Transaction>)
    ensures
        account_entries(*final(balances)) == replay_from(account_entries(*old(balances)), batch@),
{
    let ghost start = account_entries(*balances);
    let mut i: usize = 0;
    while i < batch.len()
        invariant
            start == account_entries(*old(balances)),
            i <= batch@.len(),
            account_entries(*balances) == replay_from(start, batch@.subrange(0, i as int)),
        decreases batch@.len() - i,
    {
        let tx = &batch[i];
        let ghost before = account_entries(*balances);
        if !tx.from.as_str().is_empty() {
            let current: u64 = match account_get(&*balances, tx.from.as_str()) {
                Some(v) => v,
                None => 0,
            };
            account_insert(balances, tx.from.clone(), current.saturating_sub(tx.amount));
        }
        let current: u64 = match account_get(&*balances, tx.to.as_str()) {
            Some(v) => v,
            None => 0,
        };
        account_insert(balances, tx.to.clone(), current.saturating_add(tx.amount));
        proof {
            assert(batch@.subrange(0, i + 1).drop_last() =~= batch@.subrange(0, i as int));
            assert(account_entries(*balances) == apply_one(before, batch@[i as int]));
        }
        i = i + 1;
    }
    assert(batch@.subrange(0, i as int) =~= batch@);
}

impl DistributedLedger {
    /// The blocks, genesis first.
    pub closed spec fn chain(&self) -> Seq<Block> {
        self.blocks@
    }

    /// Balance of every account that has an entry.
    pub closed spec fn balances(&self) -> Map<Seq<char>, u64> {
        account_entries(self.balances)
    }

    /// Every admitted transaction, by id.
    pub closed spec fn pool(&self) -> Map<u128, Transaction> {
        pool_entries(self.transaction_pool)
    }

    /// The admitted transactions not yet drained, oldest first.
    pub closed spec fn pending(&self) -> Seq<Transaction> {
        queued(self.queue)
    }

    /// How many transactions the queue holds.
    pub closed spec fn capacity(&self) -> nat {
        queue_capacity(self.queue)
    }

    /// Every transaction applied to the balances, in order.
    pub closed spec fn applied(&self) -> Seq<Transaction> {
        self.applied@
    }

    pub closed spec fn monitor(&self) -> PerformanceMonitor {
        self.performance_monitor
    }

    pub closed spec fn wf(&self) -> bool {
        &&& chain_wf(self.blocks@)
        &&& self.transaction_count as nat == sum_lens(self.blocks@)
        &&& account_entries(self.balances) == replay(self.applied@)
        &&& 0 < queue_capacity(self.queue) <= QUEUE_CAPACITY
        &&& forall|j: int| 0 <= j < queued(self.queue).len() ==> (#[trigger] queued(self.queue)[j]).is_valid()
        &&& self.performance_monitor.wf()
        &&& sum_sizes(self.performance_monitor.history()) == sum_lens(self.blocks@)
    }

    /// What a well-formed ledger holds: a genesis block with an empty previous
    /// hash, no transactions and a hash of its own fields; and a monitor whose
    /// total counts every sealed transaction, held at the largest `u64`.
    pub proof fn lemma_wf_properties(&self)
        requires
            self.wf(),
        ensures
            self.chain().len() >= 1,
            self.chain()[0].previous_hash@.len() == 0,
            self.chain()[0].transactions@.len() == 0,
            self.chain()[0].hash_consistent(),
            self.monitor().total() == capped_count(sum_lens(self.chain())),
    {
        self.performance_monitor.lemma_wf_properties();
    }

    /// A ledger whose chain is the genesis block alone, with no balances,
    /// no admitted transactions and an empty queue of the standard capacity.
    pub fn new() -> (r: DistributedLedger)
        ensures
            r.wf(),
            r.chain().len() == 1,
            r.balances().dom() == Set::<Seq<char>>::empty(),
            r.pool().dom() == Set::<u128>::empty(),
            r.pending() == Seq::<Transaction>::empty(),
            r.capacity() == QUEUE_CAPACITY,
            r.applied() == Seq::<Transaction>::empty(),
            r.chain()[0].previous_hash@.len() == 0,
            r.chain()[0].transactions@.len() == 0,
            r.chain()[0].nonce == 0,
            r.chain()[0].hash_consistent(),
            sum_lens(r.chain()) == 0,
            r.monitor().history() == Seq::<(nat, nat)>::empty(),
            r.monitor().total() == 0,
    {
        DistributedLedger::with_queue_capacity(QUEUE_CAPACITY)
    }

    /// As `new`, with a queue that holds `capacity` transactions.
    pub fn with_queue_capacity(capacity: usize) -> (r: DistributedLedger)
        requires
            0 < capacity <= QUEUE_CAPACITY,
        ensures
            r.wf(),
            r.chain().len() == 1,
            r.balances().dom() == Set::<Seq<char>>::empty(),
            r.pool().dom() == Set::<u128>::empty(),
            r.pending() == Seq::<Transaction>::empty(),
            r.capacity() == capacity,
            r.applied() == Seq::<Transaction>::empty(),
            r.chain()[0].previous_hash@.len() == 0,
            r.chain()[0].transactions@.len() == 0,
            r.chain()[0].nonce == 0,
            r.chain()[0].hash_consistent(),
            sum_lens(r.chain()) == 0,
            r.monitor().history() == Seq::<(nat, nat)>::empty(),
            r.monitor().total() == 0,
    {
        let no_transactions: Vec<Transaction> = Vec::new();
        let genesis = Block::new(String::new(), no_transactions);
        let mut blocks: Vec<Block> = Vec::new();
        blocks.push(genesis);
        assert(blocks@[0].transactions@.len() == 0);
        let balances = new_account_map();
        let r = DistributedLedger {
            blocks,
            balances,
            transaction_pool: new_pool(),
            performance_monitor: PerformanceMonitor::new(),
            queue: TxQueue::bounded(capacity),
            transaction_count: 0,
            applied: Ghost(Seq::empty()),
        };
        proof {
            assert(r.blocks@.drop_last() =~= Seq::<Block>::empty());
            assert(r.blocks@.last() == r.blocks@[0]);
            assert(sum_lens(Seq::<Block>::empty()) == 0);
            assert(sum_lens(r.blocks@.drop_last()) == 0);
            assert(sum_lens(r.blocks@) == 0);
            assert(chain_wf(r.blocks@));
            assert(account_entries(r.balances) =~= replay(Seq::<Transaction>::empty()));
        }
        r
    }

    /// Admits a transaction: it must validate (a genesis issuance with an
    /// empty sender included), carry an id not seen before, and, unless it
    /// is a genesis issuance, its sender's balance must cover the amount.
    /// It then enters the pool and, if there is room, the queue; a full
    /// queue is reported and the pool entry stays.
    pub fn add_transaction(&mut self, transaction: Transaction) -> (r: Result<(), LedgerError>)
        requires
            old(self).wf(),
        ensures
            final(self).wf(),
            final(self).chain() == old(self).chain(),
            final(self).balances() == old(self).balances(),
            final(self).applied() == old(self).applied(),
            final(self).monitor() == old(self).monitor(),
            final(self).capacity() == old(self).capacity(),
            !transaction.is_valid() ==> (r matches Err(LedgerError::InvalidTransaction(s))
                && Some(s@) == transaction.defect()),
            transaction.is_valid() && old(self).pool().contains_key(transaction.id) ==> r matches Err(
                LedgerError::DuplicateTransaction,
            ),
            transaction.is_valid() && !old(self).pool().contains_key(transaction.id)
                && transaction.from@.len() != 0 && balance_in(old(self).balances(), transaction.from@)
                < transaction.amount ==> r matches Err(LedgerError::InsufficientBalance),
            old(self).admissible(transaction) ==> final(self).pool() == old(self).pool().insert(
                transaction.id,
                transaction,
            ),
            old(self).admissible(transaction) && old(self).pending().len() < old(self).capacity() ==> r
                is Ok && final(self).pending() == old(self).pending().push(transaction),
            old(self).admissible(transaction) && old(self).pending().len() >= old(self).capacity()
                ==> (r matches Err(LedgerError::PerformanceLimitExceeded(s)) && s@
                == queue_full_reason() && final(self).pending() == old(self).pending()),
            !old(self).admissible(transaction) ==> r is Err && final(self).pool() == old(self).pool()
                && final(self).pending() == old(self).pending(),
    {
        match transaction.validate() {
            Ok(()) => {},
            Err(e) => {
                return Err(e);
            },
        }
        if pool_contains(&self.transaction_pool, transaction.id) {
            return Err(LedgerError::DuplicateTransaction);
        }
        if !transaction.from.as_str().is_empty() {
            let current: u64 = match account_get(&self.balances, transaction.from.as_str()) {
                Some(v) => v,
                None => 0,
            };
            if current < transaction.amount {
                return Err(LedgerError::InsufficientBalance);
            }
        }
        pool_insert(&mut self.transaction_pool, transaction.id, transaction.clone());
        match self.queue.try_push(transaction) {
            Ok(()) => Ok(()),
            Err(_) => Err(LedgerError::PerformanceLimitExceeded("Transaction queue is full".to_string())),
        }
    }

    /// The transaction validates, is new, and is covered by its sender.
    pub open spec fn admissible(&self, tx: Transaction) -> bool {
        &&& tx.is_valid()
        &&& !self.pool().contains_key(tx.id)
        &&& (tx.from@.len() != 0 ==> balance_in(self.balances(), tx.from@) >= tx.amount)
    }

    /// Appends a block on the tip and records it with the monitor as a batch
    /// that took `nanos` nanoseconds. It is accepted when it validates
    /// against the tip, its hash meets the difficulty, and the transaction
    /// count still fits; otherwise nothing changes.
    pub fn append_block(&mut self, block: Block, nanos: u64) -> (r: Result<(), LedgerError>)
        requires
            old(self).wf(),
        ensures
            final(self).wf(),
            final(self).balances() == old(self).balances(),
            final(self).pool() == old(self).pool(),
            final(self).pending() == old(self).pending(),
            final(self).capacity() == old(self).capacity(),
            final(self).applied() == old(self).applied(),
            r is Ok <==> old(self).accepts(block),
            r is Ok ==> final(self).monitor().history() == old(self).monitor().history().push(
                (block.transactions@.len(), nanos as nat),
            ),
            r is Ok ==> final(self).monitor().total() == capped_count(
                old(self).monitor().total() + block.transactions@.len(),
            ),
            r is Err ==> final(self).monitor() == old(self).monitor(),
            r is Ok ==> final(self).chain() == old(self).chain().push(block),
            r is Err ==> final(self).chain() == old(self).chain(),
            block.defect(Some(old(self).chain().last().hash@)) is Some ==> (r matches Err(
                LedgerError::BlockValidationFailed(s),
            ) && Some(s@) == block.defect(Some(old(self).chain().last().hash@))),
            block.defect(Some(old(self).chain().last().hash@)) is None && !meets_difficulty(
                block.hash@,
                DIFFICULTY as nat,
            ) ==> (r matches Err(LedgerError::BlockValidationFailed(s)) && s@ == difficulty_reason()),
            block.defect(Some(old(self).chain().last().hash@)) is None && meets_difficulty(
                block.hash@,
                DIFFICULTY as nat,
            ) && !old(self).accepts(block) ==> (r matches Err(LedgerError::Internal(s)) && s@
                == count_reason()),
    {
        let tip = self.blocks.len() - 1;
        match block.validate(Some(&self.blocks[tip])) {
            Ok(()) => {},
            Err(e) => {
                return Err(e);
            },
        }
        if !block.meets_difficulty(DIFFICULTY) {
            return Err(
                LedgerError::BlockValidationFailed("Block hash does not meet the difficulty".to_string()),
            );
        }
        let n = block.transactions.len();
        if self.transaction_count > usize::MAX - n {
            return Err(LedgerError::Internal("Transaction count overflow".to_string()));
        }
        self.transaction_count = self.transaction_count + n;
        let ghost before = self.blocks@;
        let ghost h0 = self.performance_monitor.history();
        self.performance_monitor.record_batch(n as u64, nanos);
        proof {
            let h1 = self.performance_monitor.history();
            assert(h1.drop_last() =~= h0);
        }
        self.blocks.push(block);
        proof {
            assert(self.blocks@.drop_last() =~= before);
            assert forall|i: int| 1 <= i < self.blocks@.len() implies #[trigger] sealed_at(
                self.blocks@,
                i,
            ) by {
                if i < before.len() {
                    assert(sealed_at(before, i));
                }
            }
        }
        Ok(())
    }

    /// Drains up to `batch_size` transactions from the queue, applies them
    /// to the balances in order (a debit floors at zero, a credit is held at
    /// the largest `u64`), seals them into a block mined on the tip, appends
    /// it, and records the batch with the monitor. An empty queue changes
    /// nothing. A block that is refused leaves the chain as it was; the
    /// balances keep the batch.
    pub fn process_transactions(&mut self, batch_size: usize) -> (r: Result<(), LedgerError>)
        requires
            old(self).wf(),
        ensures
            final(self).wf(),
            final(self).pool() == old(self).pool(),
            final(self).capacity() == old(self).capacity(),
            ({
                let k = if batch_size < old(self).pending().len() {
                    batch_size as int
                } else {
                    old(self).pending().len() as int
                };
                let drained = old(self).pending().subrange(0, k);
                &&& final(self).pending() == old(self).pending().subrange(k, old(self).pending().len() as int)
                &&& final(self).applied() == old(self).applied() + drained
                &&& final(self).balances() == replay_from(old(self).balances(), drained)
                &&& k == 0 ==> r is Ok && final(self).chain() == old(self).chain()
                    && final(self).monitor() == old(self).monitor()
                &&& r is Ok && k > 0 ==> final(self).chain().len() == old(self).chain().len() + 1
                    && final(self).chain().drop_last() == old(self).chain()
                    && final(self).chain().last().transactions@ == drained
                    && final(self).chain().last().previous_hash@ == old(self).chain().last().hash@
                    && final(self).monitor().history().drop_last() == old(self).monitor().history()
                    && final(self).monitor().history().last().0 == k
                &&& r is Err ==> final(self).chain() == old(self).chain() && final(self).monitor()
                    == old(self).monitor()
                &&& r is Err ==> (r matches Err(LedgerError::BlockValidationFailed(s)) && s@
                    == difficulty_reason()) || (r matches Err(LedgerError::Internal(s)) && s@
                    == count_reason())
                &&& r is Err ==> k > 0 && (sum_lens(old(self).chain()) + k > usize::MAX || exists|
                    b: Block,
                | b.transactions@ == drained && b.previous_hash@ == old(self).chain().last().hash@
                    && b.hash_consistent() && b.nonce == u64::MAX && !meets_difficulty(
                    b.hash@,
                    DIFFICULTY as nat,
                ))
                &&& r is Ok && k > 0 ==> final(self).monitor().total() == capped_count(
                    (old(self).monitor().total() + k) as nat,
                )
            }),
            sum_lens(final(self).chain()) >= sum_lens(old(self).chain()),
    {
        let ghost pending0 = queued(self.queue);
        let ghost chain0 = self.blocks@;
        let transactions = drain_queue(&mut self.queue, batch_size);
        if transactions.len() == 0 {
            proof {
                assert(self.applied@ + transactions@ =~= self.applied@);
                assert(queued(self.queue) =~= pending0.subrange(0, pending0.len() as int));
            }
            return Ok(());
        }
        let start = instant_now();
        apply_batch(&mut self.balances, &transactions);
        proof {
            lemma_replay_concat(Map::empty(), self.applied@, transactions@);
        }
        self.applied = Ghost(self.applied@ + transactions@);
        let tip = self.blocks.len() - 1;
        let previous_hash = self.blocks[tip].hash.clone();
        let mut block = Block::new(previous_hash, transactions);
        let ghost fresh = block;
        let ghost drained = block.transactions@;
        block.mine(DIFFICULTY);
        proof {
            if block.nonce == fresh.nonce {
                assert(block.computed_hash() == fresh.computed_hash());
            }
            assert(block.hash_consistent());
            assert forall|j: int| 0 <= j < block.transactions@.len() implies #[trigger] block.transactions@[j].is_valid() by {
                assert(block.transactions@[j] == pending0[j]);
            }
            assert(!exists|j: int| block.first_invalid(j));
        }
        let elapsed = nanos_since(&start);
        let nanos: u64 = if elapsed > u64::MAX as u128 {
            u64::MAX
        } else {
            elapsed as u64
        };
        let ghost mined = block;
        match self.append_block(block, nanos) {
            Ok(()) => {},
            Err(e) => {
                proof {
                    assert(mined.transactions@ == drained);
                    if !meets_difficulty(mined.hash@, DIFFICULTY as nat) {
                        assert(mined.nonce == u64::MAX);
                    }
                }
                return Err(e);
            },
        }
        proof {
            assert(self.blocks@.drop_last() == chain0);
            assert(sum_lens(self.blocks@) == sum_lens(chain0) + self.blocks@.last().transactions@.len());
        }
        Ok(())
    }

    /// A copy of the most recently appended block.
    pub fn get_latest_block(&self) -> (r: Block)
        requires
            self.wf(),
        ensures
            self.chain().len() >= 1,
            r.id == self.chain().last().id,
            r.previous_hash == self.chain().last().previous_hash,
            r.transactions@ == self.chain().last().transactions@,
            r.timestamp == self.chain().last().timestamp,
            r.nonce == self.chain().last().nonce,
            r.hash == self.chain().last().hash,
    {
        self.blocks[self.blocks.len() - 1].clone()
    }

    /// The balance of `address`; zero when it has no entry.
    pub fn get_balance(&self, address: &str) -> (r: u64)
        ensures
            r == balance_in(self.balances(), address@),
    {
        match account_get(&self.balances, address) {
            Some(v) => v,
            None => 0,
        }
    }

    /// The number of transactions across every block of the chain.
    pub fn get_transaction_count(&self) -> (r: usize)
        requires
            self.wf(),
        ensures
            r == sum_lens(self.chain()),
    {
        self.transaction_count
    }

    /// The number of blocks in the chain, genesis included.
    pub fn chain_length(&self) -> (r: usize)
        ensures
            r == self.chain().len(),
    {
        self.blocks.len()
    }

    /// The block at `index`, genesis being 0.
    pub fn block_at(&self, index: usize) -> (r: &Block)
        requires
            index < self.chain().len(),
        ensures
            *r == self.chain()[index as int],
    {
        &self.blocks[index]
    }

    /// Whether a transaction with this id was admitted to the pool.
    pub fn in_pool(&self, id: u128) -> (r: bool)
        ensures
            r == self.pool().contains_key(id),
    {
        pool_contains(&self.transaction_pool, id)
    }

    /// The number of admitted transactions still waiting in the queue.
    pub fn pending_count(&self) -> (r: usize)
        ensures
            r == self.pending().len(),
    {
        self.queue.len()
    }

    /// A snapshot of the performance monitor.
    pub fn get_performance_stats(&self) -> (r: PerformanceStats)
        requires
            self.wf(),
        ensures
            r.total_transactions == self.monitor().total(),
            r.average_batch_nanos == crate::performance::average_nanos(self.monitor().history()),
            r.peak_batch_size == self.monitor().peak_size(),
            r.peak_batch_nanos == self.monitor().peak_nanos(),
            r.total_transactions == capped_count(sum_lens(self.chain())),
    {
        proof {
            self.lemma_wf_properties();
        }
        self.performance_monitor.get_stats()
    }

    /// Every block after genesis names its predecessor's hash, carries the
    /// hash of its own fields, and that hash meets the difficulty.
    pub proof fn lemma_chain_sealed(&self, i: int)
        requires
            self.wf(),
            1 <= i < self.chain().len(),
        ensures
            self.chain()[i].previous_hash@ == self.chain()[i - 1].hash@,
            self.chain()[i].hash@ == self.chain()[i].computed_hash(),
            meets_difficulty(self.chain()[i].hash@, DIFFICULTY as nat),
    {
        assert(sealed_at(self.blocks@, i));
    }

    /// The balances are the applied transfers replayed in order; so, when no
    /// transfer saturated, what was credited to an account equals what was
    /// debited from it plus its balance.
    pub proof fn lemma_ledger_conserves_value(&self, a: Seq<char>)
        requires
            self.wf(),
            crate::accounts::never_saturates(self.applied()),
        ensures
            self.balances() == replay(self.applied()),
            crate::accounts::credits(self.applied(), a) == crate::accounts::debits(self.applied(), a)
                + balance_in(self.balances(), a),
    {
        crate::accounts::lemma_credits_equal_debits_plus_balance(self.applied@, a);
    }

    /// The block would be appended on the tip.
    pub open spec fn accepts(&self, block: Block) -> bool {
        &&& block.defect(Some(self.chain().last().hash@)) is None
        &&& meets_difficulty(block.hash@, DIFFICULTY as nat)
        &&& sum_lens(self.chain()) + block.transactions@.len() <= usize::MAX
    }
}

} // verus!
