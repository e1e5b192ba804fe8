//! Conservation of the senior supply.

use vstd::prelude::*;
use crate::byte_order::{bytes_lt, lemma_lt_total, lemma_lt_transitive};
use crate::consensus::run_transactions;
use crate::execution::{
    apply_instruction, apply_transaction, balance_of, batch_len, queued_total, with_balance,
};
use crate::instruction::InstructionView;
use crate::sorted_map::{
    canonical_order, has_key, lemma_insert_lists, lemma_listing_unique, lemma_lists_determines_map,
    lemma_map_of_lists, lemma_update_lists, lists, strictly_sorted,
};
use crate::state::{AccountView, GlobalStateView, RedemptionRequest};
use crate::transaction::TransactionView;
use crate::views::address_of;

verus! {

/// The mapping has finitely many entries: some sequence lists them.
pub open spec fn listable<T>(m: Map<Seq<u8>, T>) -> bool {
    exists|s: Seq<(Seq<u8>, T)>| lists(s, m)
}

/// The senior balances of a sequence of accounts, summed.
pub open spec fn lusd_sum(s: Seq<(Seq<u8>, AccountView)>) -> nat
    decreases s.len(),
{
    if s.len() == 0 {
        0
    } else {
        lusd_sum(s.drop_last()) + s.last().1.lusd_balance as nat
    }
}

/// The senior units that the accounts hold together.
pub open spec fn lusd_held(accounts: Map<Seq<u8>, AccountView>) -> nat {
    lusd_sum(canonical_order(accounts))
}

/// Every senior unit of the supply is in an account or waits in the
/// redemption queue.
pub open spec fn supply_conserved(s: GlobalStateView) -> bool {
    s.total_lusd_supply == lusd_held(s.accounts) + queued_total(s.fair_redeem_queue)
}

/// Replacing an account changes the sum by the difference of the
/// balances.
proof fn lemma_sum_update(s: Seq<(Seq<u8>, AccountView)>, i: int, x: (Seq<u8>, AccountView))
    requires
        0 <= i < s.len(),
    ensures
        lusd_sum(s.update(i, x)) == lusd_sum(s) - s[i].1.lusd_balance + x.1.lusd_balance,
    decreases s.len(),
{
    let t = s.update(i, x);
    if i == s.len() - 1 {
        assert(t.drop_last() =~= s.drop_last());
    } else {
        assert(t.drop_last() =~= s.drop_last().update(i, x));
        lemma_sum_update(s.drop_last(), i, x);
    }
}

/// Adding an account adds its balance to the sum.
proof fn lemma_sum_insert(s: Seq<(Seq<u8>, AccountView)>, i: int, x: (Seq<u8>, AccountView))
    requires
        0 <= i <= s.len(),
    ensures
        lusd_sum(s.insert(i, x)) == lusd_sum(s) + x.1.lusd_balance,
    decreases s.len(),
{
    let t = s.insert(i, x);
    if i == s.len() {
        assert(t.drop_last() =~= s);
    } else {
        assert(t.drop_last() =~= s.drop_last().insert(i, x));
        assert(t.last() == s.last());
        lemma_sum_insert(s.drop_last(), i, x);
    }
}

/// How many leading entries of `s` have a key before `k`.
spec fn insertion_point<T>(s: Seq<(Seq<u8>, T)>, k: Seq<u8>) -> int
    decreases s.len(),
{
    if s.len() == 0 {
        0
    } else if bytes_lt(s[0].0, k) {
        1 + insertion_point(s.subrange(1, s.len() as int), k)
    } else {
        0
    }
}

/// The insertion point of a key that the entries lack parts the entries
/// into those before the key and those after it.
proof fn lemma_insertion_point<T>(s: Seq<(Seq<u8>, T)>, k: Seq<u8>)
    requires
        strictly_sorted(s),
        !has_key(s, k),
    ensures
        0 <= insertion_point(s, k) <= s.len(),
        forall|j: int| 0 <= j < insertion_point(s, k) ==> bytes_lt((#[trigger] s[j]).0, k),
        forall|j: int| insertion_point(s, k) <= j < s.len() ==> bytes_lt(k, (#[trigger] s[j]).0),
    decreases s.len(),
{
    if s.len() > 0 {
        let tail = s.subrange(1, s.len() as int);
        if bytes_lt(s[0].0, k) {
            assert forall|i: int, j: int| 0 <= i < j < tail.len() implies bytes_lt(
                (#[trigger] tail[i]).0,
                (#[trigger] tail[j]).0,
            ) by {
                assert(bytes_lt(s[i + 1].0, s[j + 1].0));
            }
            assert(!has_key(tail, k)) by {
                if has_key(tail, k) {
                    let i = choose|i: int| 0 <= i < tail.len() && (#[trigger] tail[i]).0 == k;
                    assert(s[i + 1].0 == k);
                }
            }
            lemma_insertion_point(tail, k);
            let p = insertion_point(tail, k);
            assert forall|j: int| 0 <= j < p + 1 implies bytes_lt((#[trigger] s[j]).0, k) by {
                if j > 0 {
                    assert(s[j] == tail[j - 1]);
                }
            }
            assert forall|j: int| p + 1 <= j < s.len() implies bytes_lt(k, (#[trigger] s[j]).0) by {
                assert(s[j] == tail[j - 1]);
            }
        } else {
            assert(s[0].0 != k);
            lemma_lt_total(s[0].0, k);
            assert forall|j: int| 0 <= j < s.len() implies bytes_lt(k, (#[trigger] s[j]).0) by {
                if j > 0 {
                    assert(bytes_lt(s[0].0, s[j].0));
                    lemma_lt_transitive(k, s[0].0, s[j].0);
                }
            }
        }
    }
}

/// The account that a mapping holds for an address, or the zero-valued one.
pub open spec fn account_in(accounts: Map<Seq<u8>, AccountView>, address: Seq<u8>) -> AccountView {
    if accounts.contains_key(address) {
        accounts[address]
    } else {
        AccountView::zero()
    }
}

/// Storing an account changes the senior units held by the difference of
/// its balance to the balance that the address had before.
pub proof fn lemma_held_insert(
    accounts: Map<Seq<u8>, AccountView>,
    address: Seq<u8>,
    account: AccountView,
)
    requires
        listable(accounts),
    ensures
        listable(accounts.insert(address, account)),
        lusd_held(accounts.insert(address, account)) == lusd_held(accounts) - account_in(
            accounts,
            address,
        ).lusd_balance + account.lusd_balance,
{
    let s = canonical_order(accounts);
    assert(lists(s, accounts));
    lemma_lists_determines_map(s, accounts);
    let grown = accounts.insert(address, account);
    if accounts.contains_key(address) {
        let i = choose|i: int| 0 <= i < s.len() && (#[trigger] s[i]).0 == address;
        assert(accounts[s[i].0] == s[i].1);
        let t = s.update(i, (address, account));
        lemma_update_lists(s, i, account);
        lemma_map_of_lists(t);
        assert(lists(t, grown));
        lemma_listing_unique(t, canonical_order(grown), grown);
        lemma_sum_update(s, i, (address, account));
    } else {
        assert(!has_key(s, address)) by {
            if has_key(s, address) {
                let i = choose|i: int| 0 <= i < s.len() && (#[trigger] s[i]).0 == address;
                assert(accounts.contains_key(s[i].0));
            }
        }
        lemma_insertion_point(s, address);
        let i = insertion_point(s, address);
        let t = s.insert(i, (address, account));
        lemma_insert_lists(s, i, address, account);
        lemma_map_of_lists(t);
        assert(lists(t, grown));
        lemma_listing_unique(t, canonical_order(grown), grown);
        lemma_sum_insert(s, i, (address, account));
    }
}

/// The empty mapping holds nothing.
pub proof fn lemma_held_empty()
    ensures
        listable(Map::<Seq<u8>, AccountView>::empty()),
        lusd_held(Map::<Seq<u8>, AccountView>::empty()) == 0,
{
    let none = Seq::<(Seq<u8>, AccountView)>::empty();
    let m = Map::<Seq<u8>, AccountView>::empty();
    assert(lists(none, m));
    lemma_listing_unique(none, canonical_order(m), m);
}

/// The sum of a queue is the sum of its head and of its tail.
pub proof fn lemma_queued_total_split(queue: Seq<RedemptionRequest>, n: int)
    requires
        0 <= n <= queue.len(),
    ensures
        queued_total(queue) == queued_total(queue.subrange(0, n)) + queued_total(
            queue.subrange(n, queue.len() as int),
        ),
    decreases queue.len(),
{
    let tail = queue.subrange(n, queue.len() as int);
    if n == queue.len() {
        assert(queue.subrange(0, n) =~= queue);
    } else {
        let shorter = queue.drop_last();
        lemma_queued_total_split(shorter, n);
        assert(shorter.subrange(0, n) =~= queue.subrange(0, n));
        assert(tail.drop_last() =~= shorter.subrange(n, shorter.len() as int));
        assert(tail.last() == queue.last());
    }
}

/// The senior supply is conserved: where every senior unit of the supply is
/// in an account or in the redemption queue before an instruction is
/// applied, it is so afterwards.
///
/// Wrapping and unwrapping yield tokens are left out: they move senior
/// units between an account and the stabilization pool, which the supply
/// does not count.
pub proof fn lemma_supply_conserved(
    s: GlobalStateView,
    instruction: InstructionView,
    sender: [u8; 32],
    height: u64,
    timestamp: u64,
)
    requires
        listable(s.accounts),
        supply_conserved(s),
        !(instruction is WrapToYieldToken),
        !(instruction is UnwrapYieldToken),
        apply_instruction(s, instruction, sender, height, timestamp) is Ok,
    ensures
        listable(apply_instruction(s, instruction, sender, height, timestamp)->Ok_0.accounts),
        supply_conserved(apply_instruction(s, instruction, sender, height, timestamp)->Ok_0),
{
    let after = apply_instruction(s, instruction, sender, height, timestamp)->Ok_0;
    let account = s.account(sender@);
    match instruction {
        InstructionView::MintSenior { amount, collateral_amount, proof } => {
            lemma_held_insert(s.accounts, sender@, after.accounts[sender@]);
        },
        InstructionView::RedeemSenior { amount } => {
            lemma_held_insert(s.accounts, sender@, after.accounts[sender@]);
            let request = RedemptionRequest { address: sender, amount, timestamp };
            assert(s.fair_redeem_queue.push(request).drop_last() =~= s.fair_redeem_queue);
        },
        InstructionView::MintJunior { amount, collateral_amount } => {
            lemma_held_insert(s.accounts, sender@, after.accounts[sender@]);
        },
        InstructionView::RedeemJunior { amount } => {
            lemma_held_insert(s.accounts, sender@, after.accounts[sender@]);
        },
        InstructionView::Transfer { to, amount, asset } => {
            let debited_account = with_balance(
                account,
                asset,
                (balance_of(account, asset) - amount) as u64,
            );
            lemma_held_insert(s.accounts, sender@, debited_account);
            let debited = s.accounts.insert(sender@, debited_account);
            lemma_held_insert(debited, to, after.accounts[to]);
        },
        InstructionView::FairRedeemQueue { batch_size } => {
            lemma_queued_total_split(
                s.fair_redeem_queue,
                batch_len(s.fair_redeem_queue, batch_size),
            );
        },
        InstructionView::ConfidentialTransfer { commitment, proof } => {
            lemma_held_insert(s.accounts, sender@, after.accounts[sender@]);
        },
        InstructionView::CreatePasskeyAccount { device_key, guardians } => {
            lemma_held_insert(s.accounts, sender@, after.accounts[sender@]);
        },
        _ => {},
    }
}

/// Whether an instruction moves senior units between an account and the
/// stabilization pool.
pub open spec fn moves_to_pool(instruction: InstructionView) -> bool {
    instruction is WrapToYieldToken || instruction is UnwrapYieldToken
}

/// A transaction that is applied conserves the senior supply, unless it
/// wraps or unwraps yield tokens.
pub proof fn lemma_transaction_conserves(
    s: GlobalStateView,
    tx: TransactionView,
    height: u64,
    timestamp: u64,
)
    requires
        listable(s.accounts),
        supply_conserved(s),
        !moves_to_pool(tx.instruction),
        apply_transaction(s, tx, height, timestamp) is Ok,
    ensures
        listable(apply_transaction(s, tx, height, timestamp)->Ok_0.accounts),
        supply_conserved(apply_transaction(s, tx, height, timestamp)->Ok_0),
{
    let sender = address_of(tx.sender);
    lemma_supply_conserved(s, tx.instruction, sender, height, timestamp);
    let applied = apply_instruction(s, tx.instruction, sender, height, timestamp)->Ok_0;
    let after = apply_transaction(s, tx, height, timestamp)->Ok_0;
    lemma_held_insert(applied.accounts, tx.sender, after.accounts[tx.sender]);
}

/// The senior supply is conserved along every sequence of transactions of
/// which none wraps or unwraps yield tokens: whichever of them are
/// accepted, every senior unit of the supply is in an account or in the
/// redemption queue afterwards if it was so before.
pub proof fn lemma_run_conserves(
    s: GlobalStateView,
    transactions: Seq<TransactionView>,
    height: u64,
    timestamp: u64,
)
    requires
        listable(s.accounts),
        supply_conserved(s),
        forall|i: int|
            0 <= i < transactions.len() ==> !moves_to_pool(
                (#[trigger] transactions[i]).instruction,
            ),
    ensures
        listable(run_transactions(s, transactions, height, timestamp).0.accounts),
        supply_conserved(run_transactions(s, transactions, height, timestamp).0),
    decreases transactions.len(),
{
    if transactions.len() > 0 {
        let front = transactions.drop_last();
        assert forall|i: int| 0 <= i < front.len() implies !moves_to_pool(
            (#[trigger] front[i]).instruction,
        ) by {
            assert(front[i] == transactions[i]);
        }
        lemma_run_conserves(s, front, height, timestamp);
        let before = run_transactions(s, front, height, timestamp).0;
        let last = transactions[transactions.len() - 1];
        assert(last == transactions.last());
        if apply_transaction(before, last, height, timestamp) is Ok {
            lemma_transaction_conserves(before, last, height, timestamp);
        }
    }
}

} // verus!
