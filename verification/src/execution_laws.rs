//! What holds of the state machine, whatever the state and the instruction.

use vstd::prelude::*;
use crate::execution::{
    accrued_yield, apply_instruction, apply_transaction, batch_len, ExecutionError,
    fair_redeem_queue_spec, has_position, position_index, redeem_senior_spec, unwrap_spec,
    wrap_spec,
};
use crate::instruction::InstructionView;
use crate::stability::QUEUE_RATIO;
use crate::state::{GlobalStateView, RedemptionRequest, YieldPosition};
use crate::transaction::TransactionView;

verus! {

/// Setting the circuit breaker twice to the same value is the same as
/// setting it once.
pub proof fn lemma_circuit_breaker_idempotent(
    s: GlobalStateView,
    active: bool,
    first_sender: [u8; 32],
    second_sender: [u8; 32],
    first_height: u64,
    second_height: u64,
    first_time: u64,
    second_time: u64,
)
    ensures
        apply_instruction(
            s,
            InstructionView::RunCircuitBreaker { active },
            first_sender,
            first_height,
            first_time,
        ) matches Ok(once) && apply_instruction(
            once,
            InstructionView::RunCircuitBreaker { active },
            second_sender,
            second_height,
            second_time,
        ) == Ok::<GlobalStateView, ExecutionError>(once),
{
}

/// Where no position has the token id, the search runs to the end.
pub proof fn lemma_position_absent(positions: Seq<YieldPosition>, token_id: u64)
    requires
        !has_position(positions, token_id),
    ensures
        position_index(positions, token_id) == positions.len(),
    decreases positions.len(),
{
    if positions.len() > 0 {
        let tail = positions.subrange(1, positions.len() as int);
        assert(positions[0].token_id != token_id);
        assert forall|i: int| 0 <= i < tail.len() implies (#[trigger] tail[i]).token_id
            != token_id by {
            assert(positions[i + 1].token_id != token_id);
        }
        lemma_position_absent(tail, token_id);
    }
}

/// A position appended under a token id that none had before is the one that
/// the search finds.
pub proof fn lemma_position_appended(positions: Seq<YieldPosition>, position: YieldPosition)
    requires
        !has_position(positions, position.token_id),
    ensures
        position_index(positions.push(position), position.token_id) == positions.len(),
    decreases positions.len(),
{
    let grown = positions.push(position);
    if positions.len() > 0 {
        let tail = positions.subrange(1, positions.len() as int);
        assert(positions[0].token_id != position.token_id);
        assert(grown[0] == positions[0]);
        assert forall|i: int| 0 <= i < tail.len() implies (#[trigger] tail[i]).token_id
            != position.token_id by {
            assert(positions[i + 1].token_id != position.token_id);
        }
        lemma_position_appended(tail, position);
        assert(grown.subrange(1, grown.len() as int) =~= tail.push(position));
    } else {
        assert(grown[0] == position);
    }
}

/// Wrapping senior units and unwrapping the position at or after maturity
/// gives the sender back the principal and a yield that is never negative,
/// and leaves the sender's positions as they were; a second attempt to
/// unwrap the same token finds nothing.
///
/// The token id that the wrap hands out must be new to the sender: it is, in
/// every state that wraps alone have filled.
pub proof fn lemma_wrap_then_unwrap(
    s: GlobalStateView,
    sender: Seq<u8>,
    amount: u64,
    maturity_blocks: u64,
    wrap_height: u64,
    unwrap_height: u64,
    again_height: u64,
)
    requires
        !has_position(s.account(sender).yield_positions, s.next_yield_token_id),
        wrap_spec(s, sender, amount, maturity_blocks, wrap_height) is Ok,
        unwrap_height >= wrap_height + maturity_blocks,
        unwrap_spec(
            wrap_spec(s, sender, amount, maturity_blocks, wrap_height)->Ok_0,
            sender,
            s.next_yield_token_id,
            unwrap_height,
        ) is Ok,
    ensures
        ({
            let wrapped = wrap_spec(s, sender, amount, maturity_blocks, wrap_height)->Ok_0;
            let unwrapped = unwrap_spec(wrapped, sender, s.next_yield_token_id, unwrap_height)->Ok_0;
            let position = YieldPosition {
                token_id: s.next_yield_token_id,
                principal: amount,
                maturity_height: (wrap_height + maturity_blocks) as u64,
                issued_height: wrap_height,
            };
            &&& wrapped.account(sender).lusd_balance == s.account(sender).lusd_balance - amount
            &&& unwrapped.account(sender).lusd_balance == s.account(sender).lusd_balance
                + accrued_yield(position, unwrap_height)
            &&& unwrapped.account(sender).lusd_balance >= s.account(sender).lusd_balance
            &&& unwrapped.account(sender).yield_positions == s.account(sender).yield_positions
            &&& unwrap_spec(unwrapped, sender, s.next_yield_token_id, again_height) == Err::<
                GlobalStateView,
                ExecutionError,
            >(ExecutionError::NotFound)
        }),
{
    let positions = s.account(sender).yield_positions;
    let token_id = s.next_yield_token_id;
    let position = YieldPosition {
        token_id,
        principal: amount,
        maturity_height: (wrap_height + maturity_blocks) as u64,
        issued_height: wrap_height,
    };
    let wrapped = wrap_spec(s, sender, amount, maturity_blocks, wrap_height)->Ok_0;
    assert(wrapped.account(sender).yield_positions == positions.push(position));
    lemma_position_appended(positions, position);
    lemma_position_absent(positions, token_id);
    assert(positions.push(position).remove(positions.len() as int) =~= positions);
    let unwrapped = unwrap_spec(wrapped, sender, token_id, unwrap_height)->Ok_0;
    assert(unwrapped.account(sender).yield_positions == positions);
}

/// A transaction that is applied was signed with the sender's next nonce,
/// and leaves the sender's nonce one higher.
pub proof fn lemma_nonce_advances(s: GlobalStateView, tx: TransactionView, height: u64, timestamp: u64)
    requires
        apply_transaction(s, tx, height, timestamp) is Ok,
    ensures
        tx.nonce == s.account(tx.sender).nonce,
        apply_transaction(s, tx, height, timestamp)->Ok_0.account(tx.sender).nonce == tx.nonce + 1,
{
}

/// While the circuit breaker is active, senior mints and queue processing
/// are rejected, whatever else they hold.
pub proof fn lemma_breaker_gates(
    s: GlobalStateView,
    instruction: InstructionView,
    sender: [u8; 32],
    height: u64,
    timestamp: u64,
)
    requires
        s.circuit_breaker_active,
        instruction is MintSenior || instruction is FairRedeemQueue,
    ensures
        apply_instruction(s, instruction, sender, height, timestamp) == Err::<
            GlobalStateView,
            ExecutionError,
        >(ExecutionError::BreakerActive),
{
}

/// While the circuit breaker is active or the reserve ratio is below 0.95,
/// a redemption that the balance covers waits in the queue, behind the
/// requests that waited before, and the supply stays as it is.
pub proof fn lemma_redemption_queues(s: GlobalStateView, sender: [u8; 32], amount: u64, timestamp: u64)
    requires
        s.circuit_breaker_active || s.reserve_ratio_ppm < QUEUE_RATIO,
        0 < amount <= s.account(sender@).lusd_balance,
    ensures
        redeem_senior_spec(s, sender, amount, timestamp) matches Ok(after)
            && after.total_lusd_supply == s.total_lusd_supply && after.fair_redeem_queue
            == s.fair_redeem_queue.push(RedemptionRequest { address: sender, amount, timestamp })
            && after.account(sender@).lusd_balance == s.account(sender@).lusd_balance - amount,
{
}

/// The redemption queue is first in, first out: a batch takes the oldest
/// requests, and the requests that stay keep their order.
pub proof fn lemma_queue_is_fifo(s: GlobalStateView, batch_size: u32)
    requires
        fair_redeem_queue_spec(s, batch_size) is Ok,
    ensures
        ({
            let after = fair_redeem_queue_spec(s, batch_size)->Ok_0;
            let taken = batch_len(s.fair_redeem_queue, batch_size);
            &&& taken == if batch_size <= s.fair_redeem_queue.len() {
                batch_size as int
            } else {
                s.fair_redeem_queue.len() as int
            }
            &&& after.fair_redeem_queue.len() == s.fair_redeem_queue.len() - taken
            &&& forall|i: int|
                0 <= i < after.fair_redeem_queue.len() ==> #[trigger] after.fair_redeem_queue[i]
                    == s.fair_redeem_queue[taken + i]
        }),
{
}

} // verus!
