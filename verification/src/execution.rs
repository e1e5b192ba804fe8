//! The state machine that applies instructions to the state.
//!
//! Every instruction is checked in full before the state is touched: an
//! instruction that is rejected leaves the state as it was.

use vstd::prelude::*;
use crate::byte_order::{bytes_equal, copy_bytes};
use crate::instruction::{AssetType, AssetView, InstructionView, StablecoinInstruction};
use crate::signatures::{signature_verdict, verify_signature};
use crate::stability::{
    compute_health, health_of, QUEUE_RATIO, RATIO_SCALE, recalculate_ratios, recomputed, saturate,
    saturating_u64,
};
use crate::state::{
    account_views, AccountState, AccountView, GlobalState, GlobalStateView, RedemptionRequest,
    ValidatorState, ValidatorView, YieldPosition,
};
use crate::transaction::{signing_message, Transaction, TransactionView};
use crate::views::{address_of, lemma_address_of, list_bytes};
use crate::zk::{
    confidential_proof_valid, rwa_attestation_valid, verify_confidential_proof,
    verify_rwa_attestation,
};

verus! {

/// Why a transaction was rejected.
#[derive(Clone, Copy, Debug, PartialEq, Eq, Structural)]
pub enum ExecutionError {
    /// The signature does not bind the transaction under the sender's key.
    InvalidSignature,
    /// The nonce is not the sender's next one.
    InvalidNonce,
    /// The circuit breaker is active and the instruction is gated by it.
    BreakerActive,
    /// A debit exceeds the balance it is taken from.
    InsufficientBalance,
    /// A bundled proof did not verify.
    InvalidProof,
    /// A field is out of its domain: a zero amount, an unknown asset.
    MalformedInstruction,
    /// The yield position does not exist.
    NotFound,
    /// The yield position has not matured.
    NotMatured,
    /// A total would leave the range of 64-bit amounts.
    Overflow,
}

/// The share of a senior mint that goes to the insurance fund, in percent.
pub const MINT_FEE_PERCENT: u64 = 5;

/// The most that a yield position accrues, in basis points of its principal.
pub const MAX_ACCRUAL_BPS: u64 = 10_000;

/// What a transaction is applied to: the state, and the height and time of
/// the block that is being built.
pub struct ExecutionContext<'a> {
    pub state: &'a mut GlobalState,
    pub height: u64,
    pub timestamp: u64,
}

/// The state with `account` stored for `address`.
pub open spec fn with_account(
    s: GlobalStateView,
    address: Seq<u8>,
    account: AccountView,
) -> GlobalStateView {
    GlobalStateView { accounts: s.accounts.insert(address, account), ..s }
}

/// The fee that the insurance fund takes of a senior mint.
pub open spec fn mint_fee(amount: u64) -> u64 {
    ((amount as int * MINT_FEE_PERCENT as int) / 100) as u64
}

/// `MintSenior`: rejected while the circuit breaker is active; a bundled
/// proof must attest the collateral; the sender and the supply gain the
/// amount less the fee, the insurance fund gains the fee.
pub open spec fn mint_senior_spec(
    s: GlobalStateView,
    sender: Seq<u8>,
    amount: u64,
    collateral_amount: u64,
    proof: Seq<u8>,
) -> Result<GlobalStateView, ExecutionError> {
    let account = s.account(sender);
    let fee = mint_fee(amount);
    let net = (amount - fee) as u64;
    if s.circuit_breaker_active {
        Err(ExecutionError::BreakerActive)
    } else if amount == 0 {
        Err(ExecutionError::MalformedInstruction)
    } else if proof.len() > 0 && !rwa_attestation_valid(proof, collateral_amount) {
        Err(ExecutionError::InvalidProof)
    } else if account.lusd_balance + net > u64::MAX || s.total_lusd_supply + net > u64::MAX
        || s.insurance_fund_balance + fee > u64::MAX {
        Err(ExecutionError::Overflow)
    } else {
        Ok(
            recomputed(
                GlobalStateView {
                    accounts: s.accounts.insert(
                        sender,
                        AccountView {
                            lusd_balance: (account.lusd_balance + net) as u64,
                            ..account
                        },
                    ),
                    total_lusd_supply: (s.total_lusd_supply + net) as u64,
                    insurance_fund_balance: (s.insurance_fund_balance + fee) as u64,
                    ..s
                },
            ),
        )
    }
}

/// `RedeemSenior`: the sender is debited. While the circuit breaker is
/// active or the reserve ratio is below 0.95 the redemption is queued and
/// the supply stays; otherwise the supply shrinks at once.
pub open spec fn redeem_senior_spec(
    s: GlobalStateView,
    sender: [u8; 32],
    amount: u64,
    timestamp: u64,
) -> Result<GlobalStateView, ExecutionError> {
    let account = s.account(sender@);
    let debited = AccountView { lusd_balance: (account.lusd_balance - amount) as u64, ..account };
    if amount == 0 {
        Err(ExecutionError::MalformedInstruction)
    } else if account.lusd_balance < amount {
        Err(ExecutionError::InsufficientBalance)
    } else if s.circuit_breaker_active || s.reserve_ratio_ppm < QUEUE_RATIO {
        Ok(
            GlobalStateView {
                accounts: s.accounts.insert(sender@, debited),
                fair_redeem_queue: s.fair_redeem_queue.push(
                    RedemptionRequest { address: sender, amount, timestamp },
                ),
                ..s
            },
        )
    } else if s.total_lusd_supply < amount {
        Err(ExecutionError::Overflow)
    } else {
        Ok(
            recomputed(
                GlobalStateView {
                    accounts: s.accounts.insert(sender@, debited),
                    total_lusd_supply: (s.total_lusd_supply - amount) as u64,
                    ..s
                },
            ),
        )
    }
}

/// `MintJunior`: the sender and the junior supply gain the amount.
pub open spec fn mint_junior_spec(s: GlobalStateView, sender: Seq<u8>, amount: u64) -> Result<
    GlobalStateView,
    ExecutionError,
> {
    let account = s.account(sender);
    if amount == 0 {
        Err(ExecutionError::MalformedInstruction)
    } else if account.ljun_balance + amount > u64::MAX || s.total_ljun_supply + amount > u64::MAX {
        Err(ExecutionError::Overflow)
    } else {
        Ok(
            recomputed(
                GlobalStateView {
                    accounts: s.accounts.insert(
                        sender,
                        AccountView {
                            ljun_balance: (account.ljun_balance + amount) as u64,
                            ..account
                        },
                    ),
                    total_ljun_supply: (s.total_ljun_supply + amount) as u64,
                    ..s
                },
            ),
        )
    }
}

/// `RedeemJunior`: the sender and the junior supply lose the amount.
pub open spec fn redeem_junior_spec(s: GlobalStateView, sender: Seq<u8>, amount: u64) -> Result<
    GlobalStateView,
    ExecutionError,
> {
    let account = s.account(sender);
    if amount == 0 {
        Err(ExecutionError::MalformedInstruction)
    } else if account.ljun_balance < amount {
        Err(ExecutionError::InsufficientBalance)
    } else if s.total_ljun_supply < amount {
        Err(ExecutionError::Overflow)
    } else {
        Ok(
            recomputed(
                GlobalStateView {
                    accounts: s.accounts.insert(
                        sender,
                        AccountView {
                            ljun_balance: (account.ljun_balance - amount) as u64,
                            ..account
                        },
                    ),
                    total_ljun_supply: (s.total_ljun_supply - amount) as u64,
                    ..s
                },
            ),
        )
    }
}

/// The balance that an account holds of an asset; none of a custom asset.
pub open spec fn balance_of(account: AccountView, asset: AssetView) -> u64 {
    match asset {
        AssetView::LUSD => account.lusd_balance,
        AssetView::LJUN => account.ljun_balance,
        AssetView::Lumina(_) => account.lumina_balance,
        AssetView::Custom(_) => 0,
    }
}

/// The account with its balance of an asset set to `balance`.
pub open spec fn with_balance(account: AccountView, asset: AssetView, balance: u64) -> AccountView {
    match asset {
        AssetView::LUSD => AccountView { lusd_balance: balance, ..account },
        AssetView::LJUN => AccountView { ljun_balance: balance, ..account },
        AssetView::Lumina(_) => AccountView { lumina_balance: balance, ..account },
        AssetView::Custom(_) => account,
    }
}

/// `Transfer`: the sender is debited, then the recipient is credited. A
/// zero amount and a custom asset are rejected.
pub open spec fn transfer_spec(
    s: GlobalStateView,
    sender: Seq<u8>,
    to: Seq<u8>,
    amount: u64,
    asset: AssetView,
) -> Result<GlobalStateView, ExecutionError> {
    let account = s.account(sender);
    let debited = with_account(
        s,
        sender,
        with_balance(account, asset, (balance_of(account, asset) - amount) as u64),
    );
    let recipient = debited.account(to);
    if amount == 0 || asset is Custom {
        Err(ExecutionError::MalformedInstruction)
    } else if balance_of(account, asset) < amount {
        Err(ExecutionError::InsufficientBalance)
    } else if balance_of(recipient, asset) + amount > u64::MAX {
        Err(ExecutionError::Overflow)
    } else {
        Ok(
            with_account(
                debited,
                to,
                with_balance(recipient, asset, (balance_of(recipient, asset) + amount) as u64),
            ),
        )
    }
}

/// What the reserves lack of the senior supply, in units.
pub open spec fn reserve_deficit(supply: u64, ratio: u64) -> u64
    recommends
        ratio < RATIO_SCALE,
{
    saturate((supply as int * (RATIO_SCALE - ratio)) / 1_000_000)
}

/// `TriggerStabilizer`: while the reserve ratio is below 1.0 and the pool
/// and the supply are not empty, the pool gives up the deficit, or all it
/// has, and the ratio rises by what was moved over the supply.
pub open spec fn trigger_stabilizer_spec(s: GlobalStateView) -> GlobalStateView {
    if s.reserve_ratio_ppm < RATIO_SCALE && s.stabilization_pool_balance > 0 && s.total_lusd_supply
        > 0 {
        let deficit = reserve_deficit(s.total_lusd_supply, s.reserve_ratio_ppm);
        let moved = if deficit < s.stabilization_pool_balance {
            deficit
        } else {
            s.stabilization_pool_balance
        };
        GlobalStateView {
            stabilization_pool_balance: (s.stabilization_pool_balance - moved) as u64,
            reserve_ratio_ppm: saturate(
                s.reserve_ratio_ppm + (moved as int * 1_000_000) / (s.total_lusd_supply as int),
            ),
            ..s
        }
    } else {
        s
    }
}

/// The sum of the amounts of queued redemptions.
pub open spec fn queued_total(queue: Seq<RedemptionRequest>) -> nat
    decreases queue.len(),
{
    if queue.len() == 0 {
        0
    } else {
        queued_total(queue.drop_last()) + queue.last().amount as nat
    }
}

/// How many queued redemptions a batch of the given size takes.
pub open spec fn batch_len(queue: Seq<RedemptionRequest>, batch_size: u32) -> int {
    if batch_size as int <= queue.len() {
        batch_size as int
    } else {
        queue.len() as int
    }
}

/// `FairRedeemQueue`: rejected while the circuit breaker is active. The
/// oldest requests leave the queue, as many as the batch holds, and the
/// supply shrinks by their amounts; the others stay in their order.
pub open spec fn fair_redeem_queue_spec(s: GlobalStateView, batch_size: u32) -> Result<
    GlobalStateView,
    ExecutionError,
> {
    let n = batch_len(s.fair_redeem_queue, batch_size);
    let total = queued_total(s.fair_redeem_queue.subrange(0, n));
    if s.circuit_breaker_active {
        Err(ExecutionError::BreakerActive)
    } else if total > s.total_lusd_supply {
        Err(ExecutionError::Overflow)
    } else {
        Ok(
            recomputed(
                GlobalStateView {
                    total_lusd_supply: (s.total_lusd_supply - total) as u64,
                    fair_redeem_queue: s.fair_redeem_queue.subrange(
                        n,
                        s.fair_redeem_queue.len() as int,
                    ),
                    ..s
                },
            ),
        )
    }
}

/// The validator that `RegisterValidator` appends.
pub open spec fn new_validator(pubkey: Seq<u8>, stake: u64) -> ValidatorView {
    ValidatorView { pubkey, stake, power: stake, is_green: false, energy_proof: None }
}

/// `WrapToYieldToken`: the sender's senior units move to the stabilization
/// pool and a position with the next token id records them.
pub open spec fn wrap_spec(
    s: GlobalStateView,
    sender: Seq<u8>,
    amount: u64,
    maturity_blocks: u64,
    height: u64,
) -> Result<GlobalStateView, ExecutionError> {
    let account = s.account(sender);
    if amount == 0 {
        Err(ExecutionError::MalformedInstruction)
    } else if account.lusd_balance < amount {
        Err(ExecutionError::InsufficientBalance)
    } else if s.stabilization_pool_balance + amount > u64::MAX || height + maturity_blocks
        > u64::MAX || s.next_yield_token_id + 1 > u64::MAX {
        Err(ExecutionError::Overflow)
    } else {
        Ok(
            recomputed(
                GlobalStateView {
                    accounts: s.accounts.insert(
                        sender,
                        AccountView {
                            lusd_balance: (account.lusd_balance - amount) as u64,
                            yield_positions: account.yield_positions.push(
                                YieldPosition {
                                    token_id: s.next_yield_token_id,
                                    principal: amount,
                                    maturity_height: (height + maturity_blocks) as u64,
                                    issued_height: height,
                                },
                            ),
                            ..account
                        },
                    ),
                    stabilization_pool_balance: (s.stabilization_pool_balance + amount) as u64,
                    next_yield_token_id: (s.next_yield_token_id + 1) as u64,
                    ..s
                },
            ),
        )
    }
}

/// Whether a position with the token id exists among `positions`.
pub open spec fn has_position(positions: Seq<YieldPosition>, token_id: u64) -> bool {
    exists|i: int| 0 <= i < positions.len() && (#[trigger] positions[i]).token_id == token_id
}

/// The index of the first position with the token id, or the number of
/// positions if there is none.
pub open spec fn position_index(positions: Seq<YieldPosition>, token_id: u64) -> int
    decreases positions.len(),
{
    if positions.len() == 0 {
        0
    } else if positions[0].token_id == token_id {
        0
    } else {
        1 + position_index(positions.subrange(1, positions.len() as int), token_id)
    }
}

/// The basis points that a position has accrued after `elapsed` blocks: one
/// per block, at most 10,000.
pub open spec fn accrual_bps(elapsed: u64) -> u64 {
    if elapsed < MAX_ACCRUAL_BPS {
        elapsed
    } else {
        MAX_ACCRUAL_BPS
    }
}

/// What a position has earned at `height`.
pub open spec fn accrued_yield(position: YieldPosition, height: u64) -> nat {
    let elapsed = if height >= position.issued_height {
        (height - position.issued_height) as u64
    } else {
        0u64
    };
    ((position.principal as nat * accrual_bps(elapsed) as nat) / 10_000) as nat
}

/// `UnwrapYieldToken`: a matured position of the sender is paid out of the
/// stabilization pool, principal and yield, and removed.
pub open spec fn unwrap_spec(s: GlobalStateView, sender: Seq<u8>, token_id: u64, height: u64) -> Result<
    GlobalStateView,
    ExecutionError,
> {
    let account = s.account(sender);
    let index = position_index(account.yield_positions, token_id);
    let position = account.yield_positions[index];
    let payout = position.principal + accrued_yield(position, height);
    if index >= account.yield_positions.len() {
        Err(ExecutionError::NotFound)
    } else if height < position.maturity_height {
        Err(ExecutionError::NotMatured)
    } else if payout > u64::MAX || account.lusd_balance + payout > u64::MAX {
        Err(ExecutionError::Overflow)
    } else if s.stabilization_pool_balance < payout {
        Err(ExecutionError::InsufficientBalance)
    } else {
        Ok(
            recomputed(
                GlobalStateView {
                    accounts: s.accounts.insert(
                        sender,
                        AccountView {
                            lusd_balance: (account.lusd_balance + payout) as u64,
                            yield_positions: account.yield_positions.remove(index),
                            ..account
                        },
                    ),
                    stabilization_pool_balance: (s.stabilization_pool_balance - payout) as u64,
                    ..s
                },
            ),
        )
    }
}

/// What an instruction does to the state when `sender` submits it in a block
/// of the given height and time: the state that follows, or the reason why
/// the instruction is rejected. Instructions without an effect of their own
/// leave the state as it is.
pub open spec fn apply_instruction(
    s: GlobalStateView,
    instruction: InstructionView,
    sender: [u8; 32],
    height: u64,
    timestamp: u64,
) -> Result<GlobalStateView, ExecutionError> {
    match instruction {
        InstructionView::MintSenior { amount, collateral_amount, proof } => mint_senior_spec(
            s,
            sender@,
            amount,
            collateral_amount,
            proof,
        ),
        InstructionView::RedeemSenior { amount } => redeem_senior_spec(
            s,
            sender,
            amount,
            timestamp,
        ),
        InstructionView::MintJunior { amount, collateral_amount } => mint_junior_spec(
            s,
            sender@,
            amount,
        ),
        InstructionView::RedeemJunior { amount } => redeem_junior_spec(s, sender@, amount),
        InstructionView::Transfer { to, amount, asset } => transfer_spec(
            s,
            sender@,
            to,
            amount,
            asset,
        ),
        InstructionView::DistributeYield { total_yield } => if s.velocity_reward_pool + total_yield
            > u64::MAX {
            Err(ExecutionError::Overflow)
        } else {
            Ok(
                GlobalStateView {
                    velocity_reward_pool: (s.velocity_reward_pool + total_yield) as u64,
                    ..s
                },
            )
        },
        InstructionView::TriggerStabilizer => Ok(trigger_stabilizer_spec(s)),
        InstructionView::RunCircuitBreaker { active } => Ok(
            GlobalStateView { circuit_breaker_active: active, ..s },
        ),
        InstructionView::FairRedeemQueue { batch_size } => fair_redeem_queue_spec(s, batch_size),
        InstructionView::ConfidentialTransfer { commitment, proof } => if !confidential_proof_valid(
            commitment,
            proof,
        ) {
            Err(ExecutionError::InvalidProof)
        } else {
            Ok(
                with_account(
                    s,
                    sender@,
                    AccountView { commitment: Some(commitment), ..s.account(sender@) },
                ),
            )
        },
        InstructionView::UpdateOracle { asset, price, timestamp, signature } => Ok(
            recomputed(
                GlobalStateView { oracle_prices: s.oracle_prices.insert(asset, price), ..s },
            ),
        ),
        InstructionView::InstantFiatBridge { amount, target_bank_id, mpc_sig } => if
            s.stabilization_pool_balance + amount > u64::MAX {
            Err(ExecutionError::Overflow)
        } else {
            Ok(
                recomputed(
                    GlobalStateView {
                        stabilization_pool_balance: (s.stabilization_pool_balance + amount) as u64,
                        ..s
                    },
                ),
            )
        },
        InstructionView::RegisterValidator { pubkey, stake } => Ok(
            GlobalStateView { validators: s.validators.push(new_validator(pubkey, stake)), ..s },
        ),
        InstructionView::WrapToYieldToken { amount, maturity_blocks } => wrap_spec(
            s,
            sender@,
            amount,
            maturity_blocks,
            height,
        ),
        InstructionView::UnwrapYieldToken { token_id } => unwrap_spec(s, sender@, token_id, height),
        InstructionView::ComputeHealthIndex => Ok(
            GlobalStateView { health_index: health_of(s), ..s },
        ),
        InstructionView::CreatePasskeyAccount { device_key, guardians } => Ok(
            with_account(
                s,
                sender@,
                AccountView {
                    passkey_device_key: Some(device_key),
                    guardians,
                    ..s.account(sender@)
                },
            ),
        ),
        _ => Ok(s),
    }
}

/// The result and the state after a call agree with what was specified: on
/// success the state is the specified one, on rejection the error is the
/// specified one and the state is as before.
pub open spec fn outcome_is(
    before: GlobalStateView,
    after: GlobalStateView,
    result: Result<(), ExecutionError>,
    expected: Result<GlobalStateView, ExecutionError>,
) -> bool {
    match expected {
        Ok(s) => result is Ok && after == s,
        Err(e) => result == Err::<(), ExecutionError>(e) && after == before,
    }
}

/// Storing an account shows in the view of the accounts.
pub proof fn lemma_views_insert(accounts: Map<Seq<u8>, AccountState>, key: Seq<u8>, a: AccountState)
    ensures
        account_views(accounts.insert(key, a)) == account_views(accounts).insert(key, a@),
        account_views(accounts.remove(key).insert(key, a)) == account_views(accounts).insert(
            key,
            a@,
        ),
{
    assert(account_views(accounts.insert(key, a)) =~= account_views(accounts).insert(key, a@));
    assert(account_views(accounts.remove(key).insert(key, a)) =~= account_views(accounts).insert(
        key,
        a@,
    ));
}

/// Takes the account of `address` out of the state, or makes the zero-valued
/// one. The caller puts it back.
fn take_account(state: &mut GlobalState, address: &[u8; 32]) -> (account: AccountState)
    ensures
        account@ == old(state)@.account(address@),
        final(state).accounts@ == old(state).accounts@.remove(address@),
        *final(state) == (GlobalState { accounts: final(state).accounts, ..*old(state) }),
{
    match state.accounts.remove(address.as_slice()) {
        Some(account) => account,
        None => AccountState::new(),
    }
}

/// Stores an account for `address`.
fn put_account(state: &mut GlobalState, address: &[u8; 32], account: AccountState)
    ensures
        final(state).accounts@ == old(state).accounts@.insert(address@, account),
        *final(state) == (GlobalState { accounts: final(state).accounts, ..*old(state) }),
{
    state.accounts.insert(*address, account);
}

/// The account stored for `address`, if there is one.
fn peek_account<'a>(state: &'a GlobalState, address: &[u8; 32]) -> (
    account: Option<&'a AccountState>
)
    ensures
        match account {
            Some(a) => a@ == state@.account(address@),
            None => state@.account(address@) == AccountView::zero(),
        },
{
    state.accounts.get(address.as_slice())
}

/// Applies `MintSenior`.
fn mint_senior(
    state: &mut GlobalState,
    sender: &[u8; 32],
    amount: u64,
    collateral_amount: u64,
    proof: &[u8],
) -> (result: Result<(), ExecutionError>)
    ensures
        outcome_is(
            old(state)@,
            final(state)@,
            result,
            mint_senior_spec(old(state)@, sender@, amount, collateral_amount, proof@),
        ),
        result is Err ==> *final(state) == *old(state),
{
    if state.circuit_breaker_active {
        return Err(ExecutionError::BreakerActive);
    }
    if amount == 0 {
        return Err(ExecutionError::MalformedInstruction);
    }
    if proof.len() > 0 && !verify_rwa_attestation(proof, collateral_amount) {
        return Err(ExecutionError::InvalidProof);
    }
    let fee: u64 = ((amount as u128 * MINT_FEE_PERCENT as u128) / 100u128) as u64;
    let net: u64 = amount - fee;
    let balance = match peek_account(state, sender) {
        Some(a) => a.lusd_balance,
        None => 0,
    };
    if balance > u64::MAX - net || state.total_lusd_supply > u64::MAX - net
        || state.insurance_fund_balance > u64::MAX - fee {
        return Err(ExecutionError::Overflow);
    }
    let mut account = take_account(state, sender);
    account.lusd_balance = account.lusd_balance + net;
    proof {
        lemma_views_insert(old(state).accounts@, sender@, account);
    }
    put_account(state, sender, account);
    state.total_lusd_supply = state.total_lusd_supply + net;
    state.insurance_fund_balance = state.insurance_fund_balance + fee;
    recalculate_ratios(state);
    Ok(())
}

/// Applies `RedeemSenior`.
fn redeem_senior(state: &mut GlobalState, sender: &[u8; 32], amount: u64, timestamp: u64) -> (result:
    Result<(), ExecutionError>)
    ensures
        outcome_is(
            old(state)@,
            final(state)@,
            result,
            redeem_senior_spec(old(state)@, *sender, amount, timestamp),
        ),
        result is Err ==> *final(state) == *old(state),
{
    if amount == 0 {
        return Err(ExecutionError::MalformedInstruction);
    }
    let balance = match peek_account(state, sender) {
        Some(a) => a.lusd_balance,
        None => 0,
    };
    if balance < amount {
        return Err(ExecutionError::InsufficientBalance);
    }
    let queued = state.circuit_breaker_active || state.reserve_ratio_ppm < QUEUE_RATIO;
    if !queued && state.total_lusd_supply < amount {
        return Err(ExecutionError::Overflow);
    }
    let mut account = take_account(state, sender);
    account.lusd_balance = account.lusd_balance - amount;
    proof {
        lemma_views_insert(old(state).accounts@, sender@, account);
    }
    put_account(state, sender, account);
    if queued {
        state.fair_redeem_queue.push(RedemptionRequest { address: *sender, amount, timestamp });
    } else {
        state.total_lusd_supply = state.total_lusd_supply - amount;
        recalculate_ratios(state);
    }
    Ok(())
}

/// Applies `MintJunior`.
fn mint_junior(state: &mut GlobalState, sender: &[u8; 32], amount: u64) -> (result: Result<
    (),
    ExecutionError,
>)
    ensures
        outcome_is(
            old(state)@,
            final(state)@,
            result,
            mint_junior_spec(old(state)@, sender@, amount),
        ),
        result is Err ==> *final(state) == *old(state),
{
    if amount == 0 {
        return Err(ExecutionError::MalformedInstruction);
    }
    let balance = match peek_account(state, sender) {
        Some(a) => a.ljun_balance,
        None => 0,
    };
    if balance > u64::MAX - amount || state.total_ljun_supply > u64::MAX - amount {
        return Err(ExecutionError::Overflow);
    }
    let mut account = take_account(state, sender);
    account.ljun_balance = account.ljun_balance + amount;
    proof {
        lemma_views_insert(old(state).accounts@, sender@, account);
    }
    put_account(state, sender, account);
    state.total_ljun_supply = state.total_ljun_supply + amount;
    recalculate_ratios(state);
    Ok(())
}

/// Applies `RedeemJunior`.
fn redeem_junior(state: &mut GlobalState, sender: &[u8; 32], amount: u64) -> (result: Result<
    (),
    ExecutionError,
>)
    ensures
        outcome_is(
            old(state)@,
            final(state)@,
            result,
            redeem_junior_spec(old(state)@, sender@, amount),
        ),
        result is Err ==> *final(state) == *old(state),
{
    if amount == 0 {
        return Err(ExecutionError::MalformedInstruction);
    }
    let balance = match peek_account(state, sender) {
        Some(a) => a.ljun_balance,
        None => 0,
    };
    if balance < amount {
        return Err(ExecutionError::InsufficientBalance);
    }
    if state.total_ljun_supply < amount {
        return Err(ExecutionError::Overflow);
    }
    let mut account = take_account(state, sender);
    account.ljun_balance = account.ljun_balance - amount;
    proof {
        lemma_views_insert(old(state).accounts@, sender@, account);
    }
    put_account(state, sender, account);
    state.total_ljun_supply = state.total_ljun_supply - amount;
    recalculate_ratios(state);
    Ok(())
}

/// The balance that an account holds of an asset.
fn asset_balance(account: &AccountState, asset: &AssetType) -> (balance: u64)
    ensures
        balance == balance_of(account@, asset@),
{
    match asset {
        AssetType::LUSD => account.lusd_balance,
        AssetType::LJUN => account.ljun_balance,
        AssetType::Lumina(_) => account.lumina_balance,
        AssetType::Custom(_) => 0,
    }
}

/// Sets the balance that an account holds of an asset.
fn set_asset_balance(account: &mut AccountState, asset: &AssetType, balance: u64)
    ensures
        final(account)@ == with_balance(old(account)@, asset@, balance),
{
    match asset {
        AssetType::LUSD => {
            account.lusd_balance = balance;
        },
        AssetType::LJUN => {
            account.ljun_balance = balance;
        },
        AssetType::Lumina(_) => {
            account.lumina_balance = balance;
        },
        AssetType::Custom(_) => {},
    }
}

/// Whether two addresses are the same.
fn same_address(a: &[u8; 32], b: &[u8; 32]) -> (same: bool)
    ensures
        same == (a@ == b@),
{
    bytes_equal(a.as_slice(), b.as_slice())
}

/// Applies `Transfer`.
fn transfer(
    state: &mut GlobalState,
    sender: &[u8; 32],
    to: &[u8; 32],
    amount: u64,
    asset: &AssetType,
) -> (result: Result<(), ExecutionError>)
    ensures
        outcome_is(
            old(state)@,
            final(state)@,
            result,
            transfer_spec(old(state)@, sender@, to@, amount, asset@),
        ),
        result is Err ==> *final(state) == *old(state),
{
    if amount == 0 {
        return Err(ExecutionError::MalformedInstruction);
    }
    if let AssetType::Custom(_) = asset {
        return Err(ExecutionError::MalformedInstruction);
    }
    let balance = match peek_account(state, sender) {
        Some(a) => asset_balance(a, asset),
        None => 0,
    };
    if balance < amount {
        return Err(ExecutionError::InsufficientBalance);
    }
    let held = if same_address(sender, to) {
        balance - amount
    } else {
        match peek_account(state, to) {
            Some(a) => asset_balance(a, asset),
            None => 0,
        }
    };
    if held > u64::MAX - amount {
        return Err(ExecutionError::Overflow);
    }
    let mut account = take_account(state, sender);
    set_asset_balance(&mut account, asset, balance - amount);
    proof {
        lemma_views_insert(old(state).accounts@, sender@, account);
    }
    put_account(state, sender, account);
    let ghost debited = state.accounts@;
    let mut recipient = take_account(state, to);
    set_asset_balance(&mut recipient, asset, held + amount);
    proof {
        lemma_views_insert(debited, to@, recipient);
    }
    put_account(state, to, recipient);
    Ok(())
}

/// Applies `TriggerStabilizer`.
fn trigger_stabilizer(state: &mut GlobalState)
    ensures
        final(state)@ == trigger_stabilizer_spec(old(state)@),
{
    let ratio = state.reserve_ratio_ppm;
    let pool = state.stabilization_pool_balance;
    let supply = state.total_lusd_supply;
    if ratio < RATIO_SCALE && pool > 0 && supply > 0 {
        let gap: u64 = RATIO_SCALE - ratio;
        assert(supply as int * gap as int <= 0xffff_ffff_ffff_ffff * 1_000_000) by (nonlinear_arith)
            requires
                supply <= 0xffff_ffff_ffff_ffff,
                gap <= 1_000_000,
        ;
        let deficit = saturating_u64((supply as u128 * gap as u128) / 1_000_000u128);
        let moved = if deficit < pool {
            deficit
        } else {
            pool
        };
        let rise: u128 = (moved as u128 * 1_000_000u128) / (supply as u128);
        assert(rise <= moved as int * 1_000_000) by (nonlinear_arith)
            requires
                supply > 0,
                rise == (moved as int * 1_000_000) / (supply as int),
        ;
        state.stabilization_pool_balance = pool - moved;
        state.reserve_ratio_ppm = saturating_u64(ratio as u128 + rise);
    }
}

/// Unfolds the sum of a queue that has grown by one request.
proof fn lemma_queued_total_step(queue: Seq<RedemptionRequest>, i: int)
    requires
        0 <= i < queue.len(),
    ensures
        queued_total(queue.subrange(0, i + 1)) == queued_total(queue.subrange(0, i))
            + queue[i].amount,
{
    assert(queue.subrange(0, i + 1).drop_last() =~= queue.subrange(0, i));
}

/// Applies `FairRedeemQueue`.
fn process_redeem_queue(state: &mut GlobalState, batch_size: u32) -> (result: Result<
    (),
    ExecutionError,
>)
    ensures
        outcome_is(
            old(state)@,
            final(state)@,
            result,
            fair_redeem_queue_spec(old(state)@, batch_size),
        ),
        result is Err ==> *final(state) == *old(state),
{
    if state.circuit_breaker_active {
        return Err(ExecutionError::BreakerActive);
    }
    let len = state.fair_redeem_queue.len();
    let taken: usize = if (batch_size as usize) <= len {
        batch_size as usize
    } else {
        len
    };
    let mut total: u128 = 0;
    let mut i: usize = 0;
    while i < taken
        invariant
            i <= taken <= len,
            len == state.fair_redeem_queue@.len(),
            total == queued_total(state.fair_redeem_queue@.subrange(0, i as int)),
            total <= i * 0xffff_ffff_ffff_ffff,
        decreases taken - i,
    {
        proof {
            lemma_queued_total_step(state.fair_redeem_queue@, i as int);
        }
        total = total + state.fair_redeem_queue[i].amount as u128;
        i += 1;
    }
    if total > state.total_lusd_supply as u128 {
        return Err(ExecutionError::Overflow);
    }
    let mut rest: Vec<RedemptionRequest> = Vec::new();
    let mut k: usize = taken;
    while k < len
        invariant
            taken <= k <= len,
            len == state.fair_redeem_queue@.len(),
            rest@ == state.fair_redeem_queue@.subrange(taken as int, k as int),
        decreases len - k,
    {
        rest.push(state.fair_redeem_queue[k]);
        k += 1;
    }
    state.fair_redeem_queue = rest;
    state.total_lusd_supply = state.total_lusd_supply - total as u64;
    recalculate_ratios(state);
    Ok(())
}

/// Applies `RegisterValidator`.
fn register_validator(state: &mut GlobalState, pubkey: &[u8; 32], stake: u64)
    ensures
        final(state)@ == (GlobalStateView {
            validators: old(state)@.validators.push(new_validator(pubkey@, stake)),
            ..old(state)@
        }),
{
    let validator = ValidatorState {
        pubkey: *pubkey,
        stake,
        power: stake,
        is_green: false,
        energy_proof: None,
    };
    state.validators.push(validator);
    assert(final(state)@.validators =~= old(state)@.validators.push(new_validator(pubkey@, stake)));
}

/// Applies `ConfidentialTransfer`.
fn confidential_transfer(
    state: &mut GlobalState,
    sender: &[u8; 32],
    commitment: &[u8; 32],
    proof: &[u8],
) -> (result: Result<(), ExecutionError>)
    ensures
        outcome_is(
            old(state)@,
            final(state)@,
            result,
            if !confidential_proof_valid(commitment@, proof@) {
                Err(ExecutionError::InvalidProof)
            } else {
                Ok(
                    with_account(
                        old(state)@,
                        sender@,
                        AccountView {
                            commitment: Some(commitment@),
                            ..old(state)@.account(sender@)
                        },
                    ),
                )
            },
        ),
        result is Err ==> *final(state) == *old(state),
{
    if !verify_confidential_proof(commitment, proof) {
        return Err(ExecutionError::InvalidProof);
    }
    let mut account = take_account(state, sender);
    account.commitment = Some(*commitment);
    proof {
        lemma_views_insert(old(state).accounts@, sender@, account);
    }
    put_account(state, sender, account);
    Ok(())
}

/// Applies `WrapToYieldToken`.
fn wrap_to_yield_token(
    state: &mut GlobalState,
    sender: &[u8; 32],
    amount: u64,
    maturity_blocks: u64,
    height: u64,
) -> (result: Result<(), ExecutionError>)
    ensures
        outcome_is(
            old(state)@,
            final(state)@,
            result,
            wrap_spec(old(state)@, sender@, amount, maturity_blocks, height),
        ),
        result is Err ==> *final(state) == *old(state),
{
    if amount == 0 {
        return Err(ExecutionError::MalformedInstruction);
    }
    let balance = match peek_account(state, sender) {
        Some(a) => a.lusd_balance,
        None => 0,
    };
    if balance < amount {
        return Err(ExecutionError::InsufficientBalance);
    }
    if state.stabilization_pool_balance > u64::MAX - amount || height > u64::MAX - maturity_blocks
        || state.next_yield_token_id == u64::MAX {
        return Err(ExecutionError::Overflow);
    }
    let token_id = state.next_yield_token_id;
    let mut account = take_account(state, sender);
    account.lusd_balance = account.lusd_balance - amount;
    account.yield_positions.push(
        YieldPosition {
            token_id,
            principal: amount,
            maturity_height: height + maturity_blocks,
            issued_height: height,
        },
    );
    proof {
        lemma_views_insert(old(state).accounts@, sender@, account);
    }
    put_account(state, sender, account);
    state.stabilization_pool_balance = state.stabilization_pool_balance + amount;
    state.next_yield_token_id = token_id + 1;
    recalculate_ratios(state);
    Ok(())
}

/// Unfolds the search for a position by one step.
proof fn lemma_position_index_step(positions: Seq<YieldPosition>, token_id: u64, i: int)
    requires
        0 <= i < positions.len(),
        positions[i].token_id != token_id,
    ensures
        position_index(positions.subrange(i, positions.len() as int), token_id) == 1
            + position_index(positions.subrange(i + 1, positions.len() as int), token_id),
{
    let tail = positions.subrange(i, positions.len() as int);
    assert(tail.subrange(1, tail.len() as int) =~= positions.subrange(
        i + 1,
        positions.len() as int,
    ));
}

/// The index of the first position with the token id, or the number of
/// positions if there is none.
fn find_position(positions: &Vec<YieldPosition>, token_id: u64) -> (index: usize)
    ensures
        index == position_index(positions@, token_id),
        index <= positions@.len(),
{
    let mut i: usize = 0;
    assert(positions@.subrange(0, positions@.len() as int) =~= positions@);
    while i < positions.len()
        invariant
            i <= positions@.len(),
            position_index(positions@, token_id) == i + position_index(
                positions@.subrange(i as int, positions@.len() as int),
                token_id,
            ),
        decreases positions.len() - i,
    {
        if positions[i].token_id == token_id {
            return i;
        }
        proof {
            lemma_position_index_step(positions@, token_id, i as int);
        }
        i += 1;
    }
    i
}

/// Applies `UnwrapYieldToken`.
fn unwrap_yield_token(state: &mut GlobalState, sender: &[u8; 32], token_id: u64, height: u64) -> (result:
    Result<(), ExecutionError>)
    ensures
        outcome_is(
            old(state)@,
            final(state)@,
            result,
            unwrap_spec(old(state)@, sender@, token_id, height),
        ),
        result is Err ==> *final(state) == *old(state),
{
    let (index, position, balance) = match peek_account(state, sender) {
        Some(a) => {
            let index = find_position(&a.yield_positions, token_id);
            if index >= a.yield_positions.len() {
                return Err(ExecutionError::NotFound);
            }
            (index, a.yield_positions[index], a.lusd_balance)
        },
        None => {
            return Err(ExecutionError::NotFound);
        },
    };
    if height < position.maturity_height {
        return Err(ExecutionError::NotMatured);
    }
    let elapsed: u64 = if height >= position.issued_height {
        height - position.issued_height
    } else {
        0
    };
    let bps: u64 = if elapsed < MAX_ACCRUAL_BPS {
        elapsed
    } else {
        MAX_ACCRUAL_BPS
    };
    assert(position.principal as int * bps as int <= 0xffff_ffff_ffff_ffff * 10_000)
        by (nonlinear_arith)
        requires
            position.principal <= 0xffff_ffff_ffff_ffff,
            bps <= 10_000,
    ;
    let payout: u128 = position.principal as u128 + (position.principal as u128 * bps as u128)
        / 10_000u128;
    if payout > u64::MAX as u128 || balance as u128 + payout > u64::MAX as u128 {
        return Err(ExecutionError::Overflow);
    }
    if (state.stabilization_pool_balance as u128) < payout {
        return Err(ExecutionError::InsufficientBalance);
    }
    let mut account = take_account(state, sender);
    account.lusd_balance = account.lusd_balance + payout as u64;
    account.yield_positions.remove(index);
    proof {
        lemma_views_insert(old(state).accounts@, sender@, account);
    }
    put_account(state, sender, account);
    state.stabilization_pool_balance = state.stabilization_pool_balance - payout as u64;
    recalculate_ratios(state);
    Ok(())
}

/// Copies a list of addresses.
fn copy_addresses(source: &Vec<[u8; 32]>) -> (copy: Vec<[u8; 32]>)
    ensures
        copy@ == source@,
{
    let mut copy: Vec<[u8; 32]> = Vec::new();
    let mut i: usize = 0;
    while i < source.len()
        invariant
            i <= source.len(),
            copy@ == source@.subrange(0, i as int),
        decreases source.len() - i,
    {
        copy.push(source[i]);
        i += 1;
    }
    assert(source@.subrange(0, source.len() as int) == source@);
    copy
}

/// Applies `CreatePasskeyAccount`.
fn create_passkey_account(
    state: &mut GlobalState,
    sender: &[u8; 32],
    device_key: &Vec<u8>,
    guardians: &Vec<[u8; 32]>,
)
    ensures
        final(state)@ == with_account(
            old(state)@,
            sender@,
            AccountView {
                passkey_device_key: Some(device_key@),
                guardians: list_bytes(guardians@),
                ..old(state)@.account(sender@)
            },
        ),
{
    let mut account = take_account(state, sender);
    account.passkey_device_key = Some(copy_bytes(device_key.as_slice()));
    account.guardians = copy_addresses(guardians);
    proof {
        lemma_views_insert(old(state).accounts@, sender@, account);
    }
    put_account(state, sender, account);
}

/// Applies an instruction to the state on behalf of `sender`, in a block of
/// the given height and time.
pub fn apply(
    state: &mut GlobalState,
    si: &StablecoinInstruction,
    sender: &[u8; 32],
    height: u64,
    timestamp: u64,
) -> (result: Result<(), ExecutionError>)
    ensures
        outcome_is(
            old(state)@,
            final(state)@,
            result,
            apply_instruction(old(state)@, si@, *sender, height, timestamp),
        ),
        result is Err ==> *final(state) == *old(state),
{
    match si {
        StablecoinInstruction::MintSenior { amount, collateral_amount, proof } => mint_senior(
            state,
            sender,
            *amount,
            *collateral_amount,
            proof.as_slice(),
        ),
        StablecoinInstruction::RedeemSenior { amount } => redeem_senior(
            state,
            sender,
            *amount,
            timestamp,
        ),
        StablecoinInstruction::MintJunior { amount, collateral_amount } => mint_junior(
            state,
            sender,
            *amount,
        ),
        StablecoinInstruction::RedeemJunior { amount } => redeem_junior(state, sender, *amount),
        StablecoinInstruction::Transfer { to, amount, asset } => transfer(
            state,
            sender,
            to,
            *amount,
            asset,
        ),
        StablecoinInstruction::DistributeYield { total_yield } => {
            if state.velocity_reward_pool > u64::MAX - *total_yield {
                return Err(ExecutionError::Overflow);
            }
            state.velocity_reward_pool = state.velocity_reward_pool + *total_yield;
            Ok(())
        },
        StablecoinInstruction::TriggerStabilizer => {
            trigger_stabilizer(state);
            Ok(())
        },
        StablecoinInstruction::RunCircuitBreaker { active } => {
            state.circuit_breaker_active = *active;
            Ok(())
        },
        StablecoinInstruction::FairRedeemQueue { batch_size } => process_redeem_queue(
            state,
            *batch_size,
        ),
        StablecoinInstruction::ConfidentialTransfer { commitment, proof } => confidential_transfer(
            state,
            sender,
            commitment,
            proof.as_slice(),
        ),
        StablecoinInstruction::UpdateOracle { asset, price, timestamp: _, signature: _ } => {
            state.oracle_prices.insert(copy_bytes(asset.as_slice()), *price);
            recalculate_ratios(state);
            Ok(())
        },
        StablecoinInstruction::InstantFiatBridge { amount, target_bank_id: _, mpc_sig: _ } => {
            if state.stabilization_pool_balance > u64::MAX - *amount {
                return Err(ExecutionError::Overflow);
            }
            state.stabilization_pool_balance = state.stabilization_pool_balance + *amount;
            recalculate_ratios(state);
            Ok(())
        },
        StablecoinInstruction::RegisterValidator { pubkey, stake } => {
            register_validator(state, pubkey, *stake);
            Ok(())
        },
        StablecoinInstruction::WrapToYieldToken { amount, maturity_blocks } => wrap_to_yield_token(
            state,
            sender,
            *amount,
            *maturity_blocks,
            height,
        ),
        StablecoinInstruction::UnwrapYieldToken { token_id } => unwrap_yield_token(
            state,
            sender,
            *token_id,
            height,
        ),
        StablecoinInstruction::ComputeHealthIndex => {
            state.health_index = compute_health(state);
            Ok(())
        },
        StablecoinInstruction::CreatePasskeyAccount { device_key, guardians } => {
            create_passkey_account(state, sender, device_key, guardians);
            Ok(())
        },
        _ => Ok(()),
    }
}

/// Applies an instruction to the state of the context on behalf of
/// `sender`. Neither a signature nor a nonce is asked for.
pub fn execute_si(si: &StablecoinInstruction, sender: &[u8; 32], ctx: ExecutionContext) -> (result:
    Result<(), ExecutionError>)
    ensures
        outcome_is(
            old(ctx.state)@,
            final(ctx.state)@,
            result,
            apply_instruction(old(ctx.state)@, si@, *sender, ctx.height, ctx.timestamp),
        ),
        result is Err ==> *final(ctx.state) == *old(ctx.state),
{
    apply(ctx.state, si, sender, ctx.height, ctx.timestamp)
}

/// The instructions that pass while the circuit breaker is active: setting
/// the breaker, queue processing, the stabilizer, and redemptions, which
/// are queued.
pub open spec fn breaker_allows(instruction: InstructionView) -> bool {
    instruction is RunCircuitBreaker || instruction is FairRedeemQueue
        || instruction is TriggerStabilizer || instruction is RedeemSenior
}

/// What a transaction does to the state in a block of the given height and
/// time. The signature must bind the signing message under the sender's
/// key; the nonce must be the sender's next one; while the circuit breaker
/// is active only the instructions that it allows pass. Then the
/// instruction is applied and the sender's nonce advances by one.
pub open spec fn apply_transaction(
    s: GlobalStateView,
    tx: TransactionView,
    height: u64,
    timestamp: u64,
) -> Result<GlobalStateView, ExecutionError> {
    if signature_verdict(tx.sender, signing_message(tx), tx.signature) is Err {
        Err(ExecutionError::InvalidSignature)
    } else if tx.nonce != s.account(tx.sender).nonce {
        Err(ExecutionError::InvalidNonce)
    } else if tx.nonce == u64::MAX {
        Err(ExecutionError::Overflow)
    } else if s.circuit_breaker_active && !breaker_allows(tx.instruction) {
        Err(ExecutionError::BreakerActive)
    } else {
        match apply_instruction(s, tx.instruction, address_of(tx.sender), height, timestamp) {
            Ok(after) => Ok(
                with_account(
                    after,
                    tx.sender,
                    AccountView { nonce: (tx.nonce + 1) as u64, ..after.account(tx.sender) },
                ),
            ),
            Err(e) => Err(e),
        }
    }
}

/// Whether the instruction passes while the circuit breaker is active.
fn passes_breaker(instruction: &StablecoinInstruction) -> (passes: bool)
    ensures
        passes == breaker_allows(instruction@),
{
    match instruction {
        StablecoinInstruction::RunCircuitBreaker { .. } => true,
        StablecoinInstruction::FairRedeemQueue { .. } => true,
        StablecoinInstruction::TriggerStabilizer => true,
        StablecoinInstruction::RedeemSenior { .. } => true,
        _ => false,
    }
}

/// Applies a signed transaction to the state.
pub fn apply_signed(state: &mut GlobalState, tx: &Transaction, height: u64, timestamp: u64) -> (result:
    Result<(), ExecutionError>)
    ensures
        outcome_is(
            old(state)@,
            final(state)@,
            result,
            apply_transaction(old(state)@, tx@, height, timestamp),
        ),
        result is Err ==> *final(state) == *old(state),
{
    let message = tx.signing_bytes();
    if verify_signature(&tx.sender, message.as_slice(), tx.signature.as_slice()).is_err() {
        return Err(ExecutionError::InvalidSignature);
    }
    let nonce = match peek_account(state, &tx.sender) {
        Some(a) => a.nonce,
        None => 0,
    };
    if tx.nonce != nonce {
        return Err(ExecutionError::InvalidNonce);
    }
    if tx.nonce == u64::MAX {
        return Err(ExecutionError::Overflow);
    }
    if state.circuit_breaker_active && !passes_breaker(&tx.instruction) {
        return Err(ExecutionError::BreakerActive);
    }
    proof {
        lemma_address_of(tx.sender);
    }
    match apply(state, &tx.instruction, &tx.sender, height, timestamp) {
        Ok(()) => {},
        Err(e) => {
            return Err(e);
        },
    }
    let ghost applied = state.accounts@;
    let mut account = take_account(state, &tx.sender);
    account.nonce = tx.nonce + 1;
    proof {
        lemma_views_insert(applied, tx.sender@, account);
    }
    put_account(state, &tx.sender, account);
    Ok(())
}

/// Applies a signed transaction to the state of the context: the signature
/// and the nonce are checked, the circuit breaker gates the instruction,
/// the instruction is applied and the sender's nonce advances. A rejected
/// transaction leaves the state as it was.
pub fn execute_transaction(tx: &Transaction, ctx: ExecutionContext) -> (result: Result<
    (),
    ExecutionError,
>)
    ensures
        outcome_is(
            old(ctx.state)@,
            final(ctx.state)@,
            result,
            apply_transaction(old(ctx.state)@, tx@, ctx.height, ctx.timestamp),
        ),
        result is Err ==> *final(ctx.state) == *old(ctx.state),
{
    apply_signed(ctx.state, tx, ctx.height, ctx.timestamp)
}

} // verus!
