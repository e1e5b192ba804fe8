//! Block assembly: from the transactions that wait in the mempool to the
//! next block.
//!
//! At each tick the transactions of the mempool are applied to the state in
//! their order. Those that the state machine accepts make up the block;
//! the others are dropped. Without an accepted transaction there is no
//! block.

use vstd::prelude::*;
use crate::block::{Block, block_hash, BlockHeader, transaction_views, Vote};
use crate::execution::{apply_signed, apply_transaction};
use crate::merkle::{MerklePatriciaTrie, ordinal_map, state_root, trie_root};
use crate::state::{GlobalState, GlobalStateView};
use crate::transaction::{dec_transaction, Transaction, transaction_id, TransactionView};
use crate::views::list_bytes;

verus! {

/// The state after the transactions were applied in their order, each in a
/// block of the given height and time, and the transactions that were
/// accepted, in their order. A rejected transaction changes nothing.
pub open spec fn run_transactions(
    s: GlobalStateView,
    transactions: Seq<TransactionView>,
    height: u64,
    timestamp: u64,
) -> (GlobalStateView, Seq<TransactionView>)
    decreases transactions.len(),
{
    if transactions.len() == 0 {
        (s, Seq::empty())
    } else {
        let (before, accepted) = run_transactions(s, transactions.drop_last(), height, timestamp);
        match apply_transaction(before, transactions.last(), height, timestamp) {
            Ok(after) => (after, accepted.push(transactions.last())),
            Err(_) => (before, accepted),
        }
    }
}

/// The identifiers of transactions.
pub open spec fn transaction_ids(transactions: Seq<TransactionView>) -> Seq<Seq<u8>> {
    transactions.map_values(|t: TransactionView| transaction_id(t))
}

/// The transactions root: the root of the trie that holds the identifier
/// of each transaction under the key of its place in the block.
pub open spec fn transactions_root(transactions: Seq<TransactionView>) -> Seq<u8> {
    trie_root(ordinal_map(transaction_ids(transactions)))
}

/// What assembles blocks: the transactions that wait, and the height and
/// the parent hash of the next block.
#[derive(Clone, Debug)]
pub struct ConsensusService {
    pub mempool: Vec<Transaction>,
    pub height: u64,
    pub prev_hash: [u8; 32],
    pub proposer: [u8; 32],
}

/// The header of the block that is assembled from the accepted
/// transactions and the state that they leave.
pub open spec fn header_matches(
    header: BlockHeader,
    height: u64,
    prev_hash: [u8; 32],
    proposer: [u8; 32],
    timestamp: u64,
    accepted: Seq<TransactionView>,
    after: GlobalStateView,
) -> bool {
    &&& header.height == height
    &&& header.prev_hash == prev_hash
    &&& header.transactions_root@ == transactions_root(accepted)
    &&& header.state_root@ == state_root(after)
    &&& header.timestamp == timestamp
    &&& header.proposer == proposer
}

/// What a tick does: the mempool is emptied and its transactions are
/// applied to the state; without an accepted transaction there is no block
/// and the chain stays where it was; otherwise the block holds the
/// accepted transactions and no votes, its header binds them and the new
/// state, and the chain moves on to the next height with the hash of the
/// block as the parent hash.
pub open spec fn tick_outcome(
    before: ConsensusService,
    state_before: GlobalStateView,
    timestamp: u64,
    after: ConsensusService,
    state_after: GlobalStateView,
    block: Option<Block>,
) -> bool {
    let ran = run_transactions(
        state_before,
        transaction_views(before.mempool@),
        before.height,
        timestamp,
    );
    &&& after.mempool@.len() == 0
    &&& after.proposer == before.proposer
    &&& state_after == ran.0
    &&& match block {
        Some(b) => {
            &&& ran.1.len() > 0
            &&& b@.transactions == ran.1
            &&& b@.votes.len() == 0
            &&& header_matches(
                b.header,
                before.height,
                before.prev_hash,
                before.proposer,
                timestamp,
                ran.1,
                ran.0,
            )
            &&& after.height == before.height + 1
            &&& after.prev_hash@ == block_hash(b.header)
        },
        None => {
            &&& ran.1.len() == 0
            &&& after.height == before.height
            &&& after.prev_hash == before.prev_hash
        },
    }
}

/// Unfolds a run that has grown by one transaction.
proof fn lemma_run_step(
    s: GlobalStateView,
    transactions: Seq<TransactionView>,
    count: int,
    height: u64,
    timestamp: u64,
)
    requires
        0 <= count < transactions.len(),
    ensures
        ({
            let ran = run_transactions(s, transactions.subrange(0, count), height, timestamp);
            run_transactions(s, transactions.subrange(0, count + 1), height, timestamp) == (
                match apply_transaction(ran.0, transactions[count], height, timestamp) {
                    Ok(after) => (after, ran.1.push(transactions[count])),
                    Err(_) => ran,
                })
        }),
{
    assert(transactions.subrange(0, count + 1).drop_last() =~= transactions.subrange(0, count));
}

impl ConsensusService {
    /// A service at the first height, with no parent and an empty mempool.
    pub fn new() -> (service: Self)
        ensures
            service.mempool@.len() == 0,
            service.height == 1,
            service.prev_hash@ == Seq::new(32, |i: int| 0u8),
            service.proposer@ == Seq::new(32, |i: int| 0u8),
    {
        let service = ConsensusService {
            mempool: Vec::new(),
            height: 1,
            prev_hash: [0u8; 32],
            proposer: [0u8; 32],
        };
        assert(service.prev_hash@ =~= Seq::new(32, |i: int| 0u8));
        assert(service.proposer@ =~= Seq::new(32, |i: int| 0u8));
        service
    }

    /// Takes a transaction into the mempool, behind those that wait.
    pub fn submit(&mut self, tx: Transaction)
        ensures
            final(self).mempool@ == old(self).mempool@.push(tx),
            final(self).height == old(self).height,
            final(self).prev_hash == old(self).prev_hash,
            final(self).proposer == old(self).proposer,
    {
        self.mempool.push(tx);
    }

    /// One tick of block assembly at the given time: the mempool is
    /// emptied, its transactions are applied to the state in their order,
    /// and the accepted ones, if there are any, make up the block that is
    /// returned. The caller stores the block and the state and sends the
    /// block out.
    pub fn tick(&mut self, state: &mut GlobalState, timestamp: u64) -> (block: Option<Block>)
        requires
            old(self).height < u64::MAX,
        ensures
            tick_outcome(*old(self), old(state)@, timestamp, *final(self), final(state)@, block),
    {
        let height = self.height;
        let ghost waiting = transaction_views(self.mempool@);
        let ghost start = state@;
        let mut pending: Vec<Transaction> = Vec::new();
        core::mem::swap(&mut self.mempool, &mut pending);
        let total = pending.len();
        let ghost queued = pending@;
        // The oldest transaction is applied first: turn the list round and
        // take from its end.
        let mut reversed: Vec<Transaction> = Vec::new();
        while pending.len() > 0
            invariant
                pending@.len() + reversed@.len() == total,
                total == queued.len(),
                forall|j: int| 0 <= j < pending@.len() ==> pending@[j] == queued[j],
                forall|j: int| 0 <= j < reversed@.len() ==> reversed@[j] == queued[total - 1 - j],
            decreases pending@.len(),
        {
            match pending.pop() {
                Some(tx) => {
                    reversed.push(tx);
                },
                None => {},
            }
        }
        let mut accepted: Vec<Transaction> = Vec::new();
        let mut done: usize = 0;
        proof {
            assert(waiting.subrange(0, 0) =~= Seq::empty());
            assert(transaction_views(accepted@) =~= Seq::empty());
        }
        while reversed.len() > 0
            invariant
                done + reversed@.len() == total,
                total == queued.len(),
                waiting == transaction_views(queued),
                forall|j: int| 0 <= j < reversed@.len() ==> reversed@[j] == queued[total - 1 - j],
                run_transactions(start, waiting.subrange(0, done as int), height, timestamp) == (
                    state@,
                    transaction_views(accepted@),
                ),
            decreases reversed@.len(),
        {
            match reversed.pop() {
                Some(tx) => {
                    proof {
                        assert(tx == queued[done as int]);
                        assert(waiting[done as int] == tx@);
                        lemma_run_step(start, waiting, done as int, height, timestamp);
                        assert(transaction_views(accepted@.push(tx)) =~= transaction_views(
                            accepted@,
                        ).push(tx@));
                    }
                    match apply_signed(state, &tx, height, timestamp) {
                        Ok(()) => {
                            accepted.push(tx);
                        },
                        Err(_) => {},
                    }
                    done += 1;
                },
                None => {},
            }
        }
        proof {
            assert(waiting.subrange(0, done as int) =~= waiting);
        }
        if accepted.len() == 0 {
            return None;
        }
        let mut ids: Vec<[u8; 32]> = Vec::new();
        let mut i: usize = 0;
        let ghost views = transaction_views(accepted@);
        proof {
            assert(list_bytes(ids@) =~= transaction_ids(views.subrange(0, 0)));
        }
        while i < accepted.len()
            invariant
                i <= accepted.len(),
                views == transaction_views(accepted@),
                list_bytes(ids@) == transaction_ids(views.subrange(0, i as int)),
            decreases accepted.len() - i,
        {
            let id = accepted[i].id();
            proof {
                assert(views[i as int] == accepted@[i as int]@);
                let grown = views.subrange(0, i + 1);
                assert(grown =~= views.subrange(0, i as int).push(views[i as int]));
                assert(transaction_ids(grown) =~= transaction_ids(views.subrange(0, i as int)).push(
                    transaction_id(views[i as int]),
                ));
                assert(list_bytes(ids@.push(id)) =~= list_bytes(ids@).push(id@));
            }
            ids.push(id);
            i += 1;
        }
        proof {
            assert(views.subrange(0, i as int) =~= views);
        }
        let header = BlockHeader {
            height,
            prev_hash: self.prev_hash,
            transactions_root: MerklePatriciaTrie::from_list(&ids).root_hash(),
            state_root: state.root_hash(),
            timestamp,
            proposer: self.proposer,
        };
        let votes: Vec<Vote> = Vec::new();
        let block = Block { header, transactions: accepted, votes };
        proof {
            assert(block@.votes =~= Seq::empty());
        }
        self.prev_hash = block.hash();
        self.height = height + 1;
        Some(block)
    }
}

/// The transactions that a list of byte strings decodes to: each byte
/// string that is the encoding of a transaction, in the order of the list.
pub open spec fn decoded_transactions(encoded: Seq<Seq<u8>>) -> Seq<TransactionView>
    decreases encoded.len(),
{
    if encoded.len() == 0 {
        Seq::empty()
    } else {
        match dec_transaction(encoded.last(), 0) {
            Some((tx, _)) => decoded_transactions(encoded.drop_last()).push(tx),
            None => decoded_transactions(encoded.drop_last()),
        }
    }
}

/// The bytes of each byte string of a list.
pub open spec fn byte_strings(encoded: Seq<Vec<u8>>) -> Seq<Seq<u8>> {
    encoded.map_values(|bytes: Vec<u8>| bytes@)
}

/// The ledger as a consensus engine drives it: the engine hands over the
/// encoded transactions of each block that it has agreed on.
pub struct LuminaApp {
    pub state: GlobalState,
    pub height: u64,
}

impl LuminaApp {
    /// The application over a state, before its first block.
    pub fn new(state: GlobalState) -> (app: Self)
        ensures
            app.state == state,
            app.height == 0,
    {
        LuminaApp { state, height: 0 }
    }

    /// Whether the bytes are the encoding of a transaction.
    pub fn check_tx(&self, tx: &[u8]) -> (accepted: bool)
        ensures
            accepted == (dec_transaction(tx@, 0) is Some),
    {
        Transaction::from_bytes(tx).is_some()
    }

    /// Applies the block at the next height: the byte strings that decode
    /// to transactions are applied in their order, at the given time; what
    /// does not decode or is rejected changes nothing. Returns the state
    /// root afterwards.
    pub fn apply_block(&mut self, transactions: &Vec<Vec<u8>>, timestamp: u64) -> (root: [u8; 32])
        requires
            old(self).height < u64::MAX,
        ensures
            final(self).height == old(self).height + 1,
            final(self).state@ == run_transactions(
                old(self).state@,
                decoded_transactions(byte_strings(transactions@)),
                final(self).height,
                timestamp,
            ).0,
            root@ == state_root(final(self).state@),
    {
        let height = self.height + 1;
        self.height = height;
        let ghost start = self.state@;
        let ghost encoded = byte_strings(transactions@);
        let mut i: usize = 0;
        proof {
            assert(encoded.subrange(0, 0) =~= Seq::empty());
        }
        while i < transactions.len()
            invariant
                i <= transactions.len(),
                self.height == height,
                encoded == byte_strings(transactions@),
                self.state@ == run_transactions(
                    start,
                    decoded_transactions(encoded.subrange(0, i as int)),
                    height,
                    timestamp,
                ).0,
            decreases transactions.len() - i,
        {
            proof {
                let grown = encoded.subrange(0, i + 1);
                assert(grown.drop_last() =~= encoded.subrange(0, i as int));
                assert(grown.last() == transactions@[i as int]@);
            }
            match Transaction::from_bytes(transactions[i].as_slice()) {
                Some(tx) => {
                    proof {
                        let before = decoded_transactions(encoded.subrange(0, i as int));
                        assert(before.push(tx@).drop_last() =~= before);
                    }
                    let _ = apply_signed(&mut self.state, &tx, height, timestamp);
                },
                None => {},
            }
            i += 1;
        }
        proof {
            assert(encoded.subrange(0, i as int) =~= encoded);
        }
        self.state.root_hash()
    }
}

} // verus!
