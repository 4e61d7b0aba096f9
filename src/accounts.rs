//! Account balances as a function of the transfers applied to them.

use vstd::prelude::*;
use crate::transaction::Transaction;

verus! {

/// The balance of `a`; an account with no entry holds zero.
pub open spec fn balance_in(m: Map<Seq<char>, u64>, a: Seq<char>) -> nat {
    if m.contains_key(a) {
        m[a] as nat
    } else {
        0
    }
}

/// `x - y`, floored at zero.
pub open spec fn floor_sub(x: nat, y: nat) -> nat {
    if x >= y {
        (x - y) as nat
    } else {
        0
    }
}

/// `x + y`, held at the largest `u64`.
pub open spec fn cap_add(x: nat, y: nat) -> nat {
    if x + y <= u64::MAX {
        x + y
    } else {
        u64::MAX as nat
    }
}

/// The balances after one transfer: the sender (unless the transfer is a
/// genesis issuance) is debited, flooring at zero, then the receiver is
/// credited.
pub open spec fn apply_one(m: Map<Seq<char>, u64>, tx: Transaction) -> Map<Seq<char>, u64> {
    let debited = if tx.from@.len() == 0 {
        m
    } else {
        m.insert(tx.from@, floor_sub(balance_in(m, tx.from@), tx.amount as nat) as u64)
    };
    debited.insert(tx.to@, cap_add(balance_in(debited, tx.to@), tx.amount as nat) as u64)
}

/// The balances after applying `txs` in order, starting from `m`.
pub open spec fn replay_from(m: Map<Seq<char>, u64>, txs: Seq<Transaction>) -> Map<Seq<char>, u64>
    decreases txs.len(),
{
    if txs.len() == 0 {
        m
    } else {
        apply_one(replay_from(m, txs.drop_last()), txs.last())
    }
}

/// The balances after applying `txs` in order to no accounts.
pub open spec fn replay(txs: Seq<Transaction>) -> Map<Seq<char>, u64> {
    replay_from(Map::empty(), txs)
}

/// The transfer neither floors a debit at zero nor caps a credit.
pub open spec fn applies_exactly(m: Map<Seq<char>, u64>, tx: Transaction) -> bool {
    let debited = if tx.from@.len() == 0 {
        m
    } else {
        m.insert(tx.from@, floor_sub(balance_in(m, tx.from@), tx.amount as nat) as u64)
    };
    &&& (tx.from@.len() != 0 ==> balance_in(m, tx.from@) >= tx.amount)
    &&& balance_in(debited, tx.to@) + tx.amount <= u64::MAX
}

/// No transfer of `txs`, applied in order to no accounts, saturates.
pub open spec fn never_saturates(txs: Seq<Transaction>) -> bool
    decreases txs.len(),
{
    if txs.len() == 0 {
        true
    } else {
        never_saturates(txs.drop_last()) && applies_exactly(replay(txs.drop_last()), txs.last())
    }
}

/// Total amount credited to `a` by `txs`.
pub open spec fn credits(txs: Seq<Transaction>, a: Seq<char>) -> nat
    decreases txs.len(),
{
    if txs.len() == 0 {
        0
    } else {
        credits(txs.drop_last(), a) + if txs.last().to@ == a {
            txs.last().amount as nat
        } else {
            0
        }
    }
}

/// Total amount debited from `a` by `txs`; genesis issuances debit nobody.
pub open spec fn debits(txs: Seq<Transaction>, a: Seq<char>) -> nat
    decreases txs.len(),
{
    if txs.len() == 0 {
        0
    } else {
        debits(txs.drop_last(), a) + if txs.last().from@ == a && a.len() != 0 {
            txs.last().amount as nat
        } else {
            0
        }
    }
}

/// Replaying two runs of transfers one after the other is replaying the
/// joined run.
pub proof fn lemma_replay_concat(m: Map<Seq<char>, u64>, a: Seq<Transaction>, b: Seq<Transaction>)
    ensures
        replay_from(replay_from(m, a), b) == replay_from(m, a + b),
    decreases b.len(),
{
    if b.len() == 0 {
        assert(a + b =~= a);
    } else {
        lemma_replay_concat(m, a, b.drop_last());
        assert((a + b).drop_last() =~= a + b.drop_last());
        assert((a + b).last() == b.last());
    }
}

/// Conservation of value: when no transfer saturated, everything credited
/// to an account was either debited from it again or is still its balance.
pub proof fn lemma_credits_equal_debits_plus_balance(txs: Seq<Transaction>, a: Seq<char>)
    requires
        never_saturates(txs),
    ensures
        credits(txs, a) == debits(txs, a) + balance_in(replay(txs), a),
    decreases txs.len(),
{
    if txs.len() == 0 {
        assert(balance_in(replay(txs), a) == 0);
    } else {
        let init = txs.drop_last();
        let t = txs.last();
        lemma_credits_equal_debits_plus_balance(init, a);
        let m = replay(init);
        assert(replay(txs) == apply_one(m, t));
    }
}

} // verus!
