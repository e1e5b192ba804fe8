//! Replicas that see the same transactions stay in step.

use vstd::prelude::*;
use crate::block::{Block, block_hash, transaction_views};
use crate::consensus::{ConsensusService, tick_outcome};
use crate::merkle::state_root;
use crate::state::GlobalStateView;
use crate::state_codec::{dec_state, enc_state, state_reads_back};
use crate::wire::lemma_holds_whole;

verus! {

/// Two replicas that stand at the same height with the same parent hash,
/// the same proposer and the same state, and that hold the same
/// transactions in the same order, take the same step at a tick: both
/// build a block or neither does, their states afterwards are the same,
/// and where they build a block, the two blocks have the same header, the
/// same state root and the same hash, and the replicas go on from the same
/// height and parent hash.
pub proof fn lemma_replicas_agree(
    first: ConsensusService,
    second: ConsensusService,
    state_before: GlobalStateView,
    timestamp: u64,
    first_after: ConsensusService,
    second_after: ConsensusService,
    first_state: GlobalStateView,
    second_state: GlobalStateView,
    first_block: Option<Block>,
    second_block: Option<Block>,
)
    requires
        first.height == second.height,
        first.prev_hash == second.prev_hash,
        first.proposer == second.proposer,
        transaction_views(first.mempool@) == transaction_views(second.mempool@),
        tick_outcome(first, state_before, timestamp, first_after, first_state, first_block),
        tick_outcome(second, state_before, timestamp, second_after, second_state, second_block),
    ensures
        first_state == second_state,
        state_root(first_state) == state_root(second_state),
        first_block is Some <==> second_block is Some,
        first_after.height == second_after.height,
        first_after.prev_hash == second_after.prev_hash,
        first_block matches Some(a) ==> second_block matches Some(b) && a.header == b.header
            && a@.transactions == b@.transactions && block_hash(a.header) == block_hash(b.header),
{
    match (first_block, second_block) {
        (Some(a), Some(b)) => {
            assert(a.header.transactions_root =~= b.header.transactions_root);
            assert(a.header.state_root =~= b.header.state_root);
            assert(first_after.prev_hash =~= second_after.prev_hash);
        },
        _ => {},
    }
}

/// The state root survives the wire: the state that is read back from the
/// encoding of a state has the root of that state.
pub proof fn lemma_root_survives_encoding(state: GlobalStateView)
    requires
        state_reads_back(state),
    ensures
        dec_state(enc_state(state), 0) matches Some((read, end)) && read == state && state_root(
            read,
        )
            == state_root(state),
{
    lemma_holds_whole(enc_state(state));
}

} // verus!
