//! The state that a chain starts from.

use vstd::prelude::*;
use crate::execution::{ExecutionError, lemma_views_insert, outcome_is};
use crate::state::{AccountState, AccountView, GlobalState, GlobalStateView};
use crate::supply_laws::{lemma_held_empty, lemma_held_insert, listable, supply_conserved};

verus! {

/// The state with `amount` senior units more in the account of `address`
/// and in the supply.
pub open spec fn allocated(s: GlobalStateView, address: Seq<u8>, amount: u64) -> Result<
    GlobalStateView,
    ExecutionError,
> {
    let account = s.account(address);
    if account.lusd_balance + amount > u64::MAX || s.total_lusd_supply + amount > u64::MAX {
        Err(ExecutionError::Overflow)
    } else {
        Ok(
            GlobalStateView {
                accounts: s.accounts.insert(
                    address,
                    AccountView { lusd_balance: (account.lusd_balance + amount) as u64, ..account },
                ),
                total_lusd_supply: (s.total_lusd_supply + amount) as u64,
                ..s
            },
        )
    }
}

/// The genesis state of a list of allocations: the empty state with each
/// allocation added in turn.
pub open spec fn genesis_state(allocations: Seq<([u8; 32], u64)>) -> Result<
    GlobalStateView,
    ExecutionError,
>
    decreases allocations.len(),
{
    if allocations.len() == 0 {
        Ok(GlobalStateView::empty())
    } else {
        match genesis_state(allocations.drop_last()) {
            Ok(s) => allocated(s, allocations.last().0@, allocations.last().1),
            Err(e) => Err(e),
        }
    }
}

/// In a genesis state every senior unit of the supply is in an account.
pub proof fn lemma_genesis_conserved(allocations: Seq<([u8; 32], u64)>)
    requires
        genesis_state(allocations) is Ok,
    ensures
        listable(genesis_state(allocations)->Ok_0.accounts),
        supply_conserved(genesis_state(allocations)->Ok_0),
    decreases allocations.len(),
{
    if allocations.len() == 0 {
        lemma_held_empty();
    } else {
        lemma_genesis_conserved(allocations.drop_last());
        let s = genesis_state(allocations.drop_last())->Ok_0;
        let after = genesis_state(allocations)->Ok_0;
        let address = allocations.last().0@;
        lemma_held_insert(s.accounts, address, after.accounts[address]);
    }
}

/// Adds `amount` senior units to the account of `address` and to the
/// supply, outside of any transaction: this is how a chain is endowed at
/// its start, and how a test network hands out funds.
pub fn allocate(state: &mut GlobalState, address: &[u8; 32], amount: u64) -> (result: Result<
    (),
    ExecutionError,
>)
    ensures
        outcome_is(old(state)@, final(state)@, result, allocated(old(state)@, address@, amount)),
        result is Err ==> *final(state) == *old(state),
{
    let ghost held = state.accounts@;
    let balance = match state.accounts.get(address.as_slice()) {
        Some(a) => a.lusd_balance,
        None => 0,
    };
    if balance > u64::MAX - amount || state.total_lusd_supply > u64::MAX - amount {
        return Err(ExecutionError::Overflow);
    }
    let mut account = match state.accounts.remove(address.as_slice()) {
        Some(a) => a,
        None => AccountState::new(),
    };
    account.lusd_balance = account.lusd_balance + amount;
    proof {
        lemma_views_insert(held, address@, account);
    }
    state.accounts.insert(*address, account);
    state.total_lusd_supply = state.total_lusd_supply + amount;
    Ok(())
}

/// Builds the genesis state of a list of allocations. It fails where the
/// allocations of an address, or all of them together, leave the range of
/// 64-bit amounts.
pub fn build_genesis(initial_allocations: Vec<([u8; 32], u64)>) -> (genesis: Result<
    GlobalState,
    ExecutionError,
>)
    ensures
        match genesis {
            Ok(state) => genesis_state(initial_allocations@) == Ok::<
                GlobalStateView,
                ExecutionError,
            >(state@),
            Err(e) => genesis_state(initial_allocations@) == Err::<GlobalStateView, ExecutionError>(
                e,
            ),
        },
{
    let mut state = GlobalState::new();
    let mut i: usize = 0;
    assert(initial_allocations@.subrange(0, 0) =~= Seq::empty());
    while i < initial_allocations.len()
        invariant
            i <= initial_allocations.len(),
            genesis_state(initial_allocations@.subrange(0, i as int)) == Ok::<
                GlobalStateView,
                ExecutionError,
            >(state@),
        decreases initial_allocations.len() - i,
    {
        proof {
            let grown = initial_allocations@.subrange(0, i + 1);
            assert(grown.drop_last() =~= initial_allocations@.subrange(0, i as int));
            assert(grown.last() == initial_allocations@[i as int]);
        }
        match allocate(&mut state, &initial_allocations[i].0, initial_allocations[i].1) {
            Ok(()) => {},
            Err(e) => {
                proof {
                    lemma_genesis_fails(initial_allocations@, i + 1);
                }
                return Err(e);
            },
        }
        i += 1;
    }
    assert(initial_allocations@.subrange(0, i as int) =~= initial_allocations@);
    Ok(state)
}

/// Where the first allocations fail, all of them fail, and alike.
proof fn lemma_genesis_fails(allocations: Seq<([u8; 32], u64)>, count: int)
    requires
        0 <= count <= allocations.len(),
        genesis_state(allocations.subrange(0, count)) is Err,
    ensures
        genesis_state(allocations) == genesis_state(allocations.subrange(0, count)),
    decreases allocations.len() - count,
{
    if count == allocations.len() {
        assert(allocations.subrange(0, count) =~= allocations);
    } else {
        assert(allocations.subrange(0, count + 1).drop_last() =~= allocations.subrange(0, count));
        lemma_genesis_fails(allocations, count + 1);
    }
}

} // verus!
