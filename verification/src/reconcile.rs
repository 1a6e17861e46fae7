//! Reconciliation: subtract the amounts already represented by ledger
//! records from the requested allocations, producing the remaining work for
//! this run, and drop allocations whose residue is at most half a token.

use vstd::prelude::*;

use crate::types::{string_eq, Allocation, TransactionInfo, RESIDUE_EPSILON_LAMPORTS};

verus! {

/// The total amount requested for `recipient` across a list of allocations.
pub open spec fn sum_for(allocs: Seq<Allocation>, recipient: Seq<char>) -> int
    decreases allocs.len(),
{
    if allocs.len() == 0 {
        0
    } else {
        (if allocs.first().recipient@ == recipient {
            allocs.first().amount as int
        } else {
            0
        }) + sum_for(allocs.drop_first(), recipient)
    }
}

/// The total amount already recorded for `recipient` across ledger records.
pub open spec fn info_sum_for(infos: Seq<TransactionInfo>, recipient: Seq<char>) -> int
    decreases infos.len(),
{
    if infos.len() == 0 {
        0
    } else {
        info_sum_for(infos.drop_last(), recipient) + (if infos.last().recipient@ == recipient {
            infos.last().amount as int
        } else {
            0
        })
    }
}

/// Zero if negative, the value otherwise.
pub open spec fn clamp0(x: int) -> int {
    if x < 0 {
        0
    } else {
        x
    }
}

/// One step of reconciliation: deduct `amount` from the allocations owed to
/// `recipient`, scanning front to back. An allocation with enough remaining
/// absorbs the whole deduction; a smaller one is zeroed out and the rest of
/// the deduction carries on to the next matching allocation.
pub open spec fn deduct_one(allocs: Seq<Allocation>, recipient: Seq<char>, amount: u64) -> Seq<
    Allocation,
>
    decreases allocs.len(),
{
    if allocs.len() == 0 {
        allocs
    } else {
        let head = allocs.first();
        if head.recipient@ != recipient {
            seq![head] + deduct_one(allocs.drop_first(), recipient, amount)
        } else if head.amount >= amount {
            seq![Allocation { recipient: head.recipient, amount: (head.amount - amount) as u64 }]
                + allocs.drop_first()
        } else {
            seq![Allocation { recipient: head.recipient, amount: 0u64 }] + deduct_one(
                allocs.drop_first(),
                recipient,
                (amount - head.amount) as u64,
            )
        }
    }
}

/// Deduct every history record in order.
pub open spec fn deduct_all(allocs: Seq<Allocation>, infos: Seq<TransactionInfo>) -> Seq<Allocation>
    decreases infos.len(),
{
    if infos.len() == 0 {
        allocs
    } else {
        deduct_one(
            deduct_all(allocs, infos.drop_last()),
            infos.last().recipient@,
            infos.last().amount,
        )
    }
}

/// Keep only the allocations whose remaining amount is above the residue
/// threshold.
pub open spec fn drop_residue(allocs: Seq<Allocation>) -> Seq<Allocation>
    decreases allocs.len(),
{
    if allocs.len() == 0 {
        allocs
    } else {
        let rest = drop_residue(allocs.drop_last());
        if allocs.last().amount > RESIDUE_EPSILON_LAMPORTS {
            rest.push(allocs.last())
        } else {
            rest
        }
    }
}

proof fn lemma_sum_for_nonneg(allocs: Seq<Allocation>, recipient: Seq<char>)
    ensures
        sum_for(allocs, recipient) >= 0,
    decreases allocs.len(),
{
    if allocs.len() > 0 {
        lemma_sum_for_nonneg(allocs.drop_first(), recipient);
    }
}

proof fn lemma_deduct_one_sum(
    allocs: Seq<Allocation>,
    recipient: Seq<char>,
    amount: u64,
    target: Seq<char>,
)
    ensures
        sum_for(deduct_one(allocs, recipient, amount), target) == (if target == recipient {
            clamp0(sum_for(allocs, target) - amount)
        } else {
            sum_for(allocs, target)
        }),
    decreases allocs.len(),
{
    lemma_sum_for_nonneg(allocs, target);
    if allocs.len() == 0 {
    } else {
        let head = allocs.first();
        let rest = allocs.drop_first();
        lemma_sum_for_nonneg(rest, target);
        if head.recipient@ != recipient {
            lemma_deduct_one_sum(rest, recipient, amount, target);
            let d = deduct_one(rest, recipient, amount);
            assert((seq![head] + d).drop_first() =~= d);
        } else if head.amount >= amount {
            let h2 = Allocation { recipient: head.recipient, amount: (head.amount - amount) as u64 };
            assert((seq![h2] + rest).drop_first() =~= rest);
        } else {
            lemma_deduct_one_sum(rest, recipient, (amount - head.amount) as u64, target);
            let h0 = Allocation { recipient: head.recipient, amount: 0u64 };
            let d = deduct_one(rest, recipient, (amount - head.amount) as u64);
            assert((seq![h0] + d).drop_first() =~= d);
        }
    }
}

/// Reconciliation correctness: after deducting a full history from the
/// requested allocations, the amount remaining for any recipient equals the
/// requested total minus the recorded total, clamped at zero.
pub proof fn lemma_reconciliation_sums(
    allocs: Seq<Allocation>,
    infos: Seq<TransactionInfo>,
    target: Seq<char>,
)
    ensures
        sum_for(deduct_all(allocs, infos), target) == clamp0(
            sum_for(allocs, target) - info_sum_for(infos, target),
        ),
    decreases infos.len(),
{
    lemma_sum_for_nonneg(allocs, target);
    if infos.len() == 0 {
    } else {
        let prior = infos.drop_last();
        let last = infos.last();
        lemma_reconciliation_sums(allocs, prior, target);
        lemma_deduct_one_sum(deduct_all(allocs, prior), last.recipient@, last.amount, target);
    }
}

proof fn lemma_entry_le_sum(allocs: Seq<Allocation>, i: int)
    requires
        0 <= i < allocs.len(),
    ensures
        allocs[i].amount as int <= sum_for(allocs, allocs[i].recipient@),
    decreases allocs.len(),
{
    lemma_sum_for_nonneg(allocs.drop_first(), allocs[i].recipient@);
    if i == 0 {
    } else {
        lemma_entry_le_sum(allocs.drop_first(), i - 1);
    }
}

proof fn lemma_drop_residue_all_small(allocs: Seq<Allocation>)
    requires
        forall|i: int|
            0 <= i < allocs.len() ==> (#[trigger] allocs[i]).amount as int
                <= RESIDUE_EPSILON_LAMPORTS,
    ensures
        drop_residue(allocs) == Seq::<Allocation>::empty(),
    decreases allocs.len(),
{
    if allocs.len() > 0 {
        lemma_drop_residue_all_small(allocs.drop_last());
        assert(allocs.last() == allocs[allocs.len() - 1]);
    } else {
        assert(allocs =~= Seq::<Allocation>::empty());
    }
}

/// Run idempotence at the reconciliation layer: when the recorded history
/// already covers every recipient's requested total, reconciliation leaves
/// no remaining work at all.
pub proof fn lemma_covered_history_leaves_no_work(
    allocs: Seq<Allocation>,
    infos: Seq<TransactionInfo>,
)
    requires
        forall|t: Seq<char>| #[trigger] sum_for(allocs, t) <= info_sum_for(infos, t),
    ensures
        drop_residue(deduct_all(allocs, infos)) == Seq::<Allocation>::empty(),
{
    let d = deduct_all(allocs, infos);
    assert forall|i: int| 0 <= i < d.len() implies (#[trigger] d[i]).amount as int
        <= RESIDUE_EPSILON_LAMPORTS by {
        lemma_entry_le_sum(d, i);
        lemma_reconciliation_sums(allocs, infos, d[i].recipient@);
    }
    lemma_drop_residue_all_small(d);
}

/// One reconciliation step, as executable code: a fresh allocation list with
/// `amount` deducted from the entries owed to `recipient`, front to back.
fn deduct_one_exec(allocs: &Vec<Allocation>, recipient: &String, amount: u64) -> (r: Vec<
    Allocation,
>)
    ensures
        r@ == deduct_one(allocs@, recipient@, amount),
{
    let n: usize = allocs.len();
    let mut out: Vec<Allocation> = Vec::new();
    let mut rem: u64 = amount;
    let mut done: bool = false;
    let mut j: usize = 0;
    proof {
        assert(allocs@.skip(0) =~= allocs@);
        assert(Seq::<Allocation>::empty() + deduct_one(allocs@, recipient@, amount)
            =~= deduct_one(allocs@, recipient@, amount));
    }
    while j < n
        invariant
            n == allocs@.len(),
            0 <= j <= n,
            out@.len() == j,
            !done ==> deduct_one(allocs@, recipient@, amount) == out@ + deduct_one(
                allocs@.skip(j as int),
                recipient@,
                rem,
            ),
            done ==> deduct_one(allocs@, recipient@, amount) == out@ + allocs@.skip(j as int),
        decreases n - j,
    {
        let ghost pre_out = out@;
        let ghost suffix = allocs@.skip(j as int);
        proof {
            assert(suffix.len() > 0);
            assert(suffix.first() == allocs@[j as int]);
            assert(suffix.drop_first() =~= allocs@.skip(j as int + 1));
        }
        let entry = &allocs[j];
        if done {
            out.push(entry.duplicate_allocation());
            proof {
                assert(pre_out + suffix =~= pre_out.push(allocs@[j as int]) + allocs@.skip(
                    j as int + 1,
                ));
            }
        } else if !string_eq(&entry.recipient, recipient) {
            out.push(entry.duplicate_allocation());
            proof {
                assert(seq![suffix.first()] + suffix.drop_first() =~= suffix);
                assert(pre_out + (seq![suffix.first()] + deduct_one(
                    suffix.drop_first(),
                    recipient@,
                    rem,
                )) =~= pre_out.push(allocs@[j as int]) + deduct_one(
                    allocs@.skip(j as int + 1),
                    recipient@,
                    rem,
                ));
            }
        } else if entry.amount >= rem {
            let reduced = Allocation {
                recipient: entry.recipient.clone(),
                amount: entry.amount - rem,
            };
            proof {
                let h2 = Allocation {
                    recipient: suffix.first().recipient,
                    amount: (suffix.first().amount - rem) as u64,
                };
                assert(pre_out + (seq![h2] + suffix.drop_first()) =~= pre_out.push(h2)
                    + allocs@.skip(j as int + 1));
            }
            out.push(reduced);
            done = true;
        } else {
            let zeroed = Allocation { recipient: entry.recipient.clone(), amount: 0 };
            proof {
                let h0 = Allocation { recipient: suffix.first().recipient, amount: 0u64 };
                assert(pre_out + (seq![h0] + deduct_one(
                    suffix.drop_first(),
                    recipient@,
                    (rem - suffix.first().amount) as u64,
                )) =~= pre_out.push(h0) + deduct_one(
                    allocs@.skip(j as int + 1),
                    recipient@,
                    (rem - suffix.first().amount) as u64,
                ));
            }
            rem = rem - entry.amount;
            out.push(zeroed);
        }
        j = j + 1;
    }
    proof {
        assert(allocs@.skip(n as int) =~= Seq::<Allocation>::empty());
        if !done {
            assert(out@ + deduct_one(allocs@.skip(n as int), recipient@, rem) =~= out@);
        } else {
            assert(out@ + allocs@.skip(n as int) =~= out@);
        }
    }
    out
}

/// Deducts every historical record's amount from the matching allocations,
/// then drops the allocations whose remainder is at most the residue
/// threshold. What is left is exactly the work this run still owes.
pub fn apply_previous_transactions(
    allocations: &mut Vec<Allocation>,
    transaction_infos: &Vec<TransactionInfo>,
)
    ensures
        final(allocations)@ == drop_residue(
            deduct_all(old(allocations)@, transaction_infos@),
        ),
{
    let ghost orig = allocations@;
    let n: usize = transaction_infos.len();
    let mut i: usize = 0;
    while i < n
        invariant
            n == transaction_infos@.len(),
            0 <= i <= n,
            allocations@ == deduct_all(orig, transaction_infos@.take(i as int)),
        decreases n - i,
    {
        let info = &transaction_infos[i];
        let next = deduct_one_exec(&*allocations, &info.recipient, info.amount);
        *allocations = next;
        proof {
            let pfx = transaction_infos@.take(i as int + 1);
            assert(pfx.drop_last() =~= transaction_infos@.take(i as int));
            assert(pfx.last() == transaction_infos@[i as int]);
        }
        i = i + 1;
    }
    proof {
        assert(transaction_infos@.take(n as int) =~= transaction_infos@);
    }
    let m: usize = allocations.len();
    let ghost deducted = allocations@;
    let mut kept: Vec<Allocation> = Vec::new();
    let mut k: usize = 0;
    while k < m
        invariant
            m == deducted.len(),
            allocations@ == deducted,
            0 <= k <= m,
            kept@ == drop_residue(deducted.take(k as int)),
        decreases m - k,
    {
        proof {
            let pfx = deducted.take(k as int + 1);
            assert(pfx.drop_last() =~= deducted.take(k as int));
            assert(pfx.last() == deducted[k as int]);
        }
        let entry = &allocations[k];
        if entry.amount > RESIDUE_EPSILON_LAMPORTS {
            kept.push(entry.duplicate_allocation());
        }
        k = k + 1;
    }
    proof {
        assert(deducted.take(m as int) =~= deducted);
    }
    *allocations = kept;
}

} // verus!
