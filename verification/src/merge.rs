//! Merging of allocations: duplicate recipients are combined by summing
//! their amounts, and the first-seen order of recipients is preserved. The
//! running totals live in an insertion-ordered map of the `indexmap` crate,
//! whose contents are modelled by the uninterpreted sequence
//! [`totals_entries`].

use vstd::prelude::*;

use crate::reconcile::sum_for;
use crate::types::Allocation;
use std::collections::hash_map::RandomState;

verus! {

#[verifier::external_type_specification]
#[verifier::external_body]
#[verifier::reject_recursive_types(K)]
#[verifier::reject_recursive_types(V)]
#[verifier::reject_recursive_types(S)]
pub struct ExIndexMap<K, V, S>(indexmap::IndexMap<K, V, S>);

/// One running total: a recipient and the amount accumulated for it so far.
pub type TotalsEntry = (Seq<char>, u64);

/// What the insertion-ordered map holds, in its iteration order.
pub uninterp spec fn totals_entries(m: indexmap::IndexMap<String, u64, RandomState>) -> Seq<
    TotalsEntry,
>;

/// The contents of a map that holds nothing.
pub open spec fn no_totals() -> Seq<TotalsEntry> {
    Seq::empty()
}

/// The value stored under `k`: that of the first entry with key `k`.
pub open spec fn totals_lookup(es: Seq<TotalsEntry>, k: Seq<char>) -> Option<u64>
    decreases es.len(),
{
    if es.len() == 0 {
        None
    } else if es.first().0 == k {
        Some(es.first().1)
    } else {
        totals_lookup(es.drop_first(), k)
    }
}

/// The entries after storing `v` under `k`: the first entry with key `k` is
/// replaced in place, and a fresh key goes last.
pub open spec fn totals_update(es: Seq<TotalsEntry>, k: Seq<char>, v: u64) -> Seq<TotalsEntry>
    decreases es.len(),
{
    if es.len() == 0 {
        seq![(k, v)]
    } else if es.first().0 == k {
        seq![(k, v)] + es.drop_first()
    } else {
        seq![es.first()] + totals_update(es.drop_first(), k, v)
    }
}

/// The total amount the entries hold for key `t`.
pub open spec fn entry_sum(es: Seq<TotalsEntry>, t: Seq<char>) -> int
    decreases es.len(),
{
    if es.len() == 0 {
        0
    } else {
        (if es.first().0 == t {
            es.first().1 as int
        } else {
            0
        }) + entry_sum(es.drop_first(), t)
    }
}

/// No key occurs twice.
pub open spec fn entries_distinct(es: Seq<TotalsEntry>) -> bool {
    forall|a: int, b: int| 0 <= a < b < es.len() ==> (#[trigger] es[a]).0 != (#[trigger] es[b]).0
}

/// The recipients of the allocations, in order.
pub open spec fn recipients_of(s: Seq<Allocation>) -> Seq<Seq<char>> {
    s.map(|i: int, a: Allocation| a.recipient@)
}

/// Each recipient of `s`, once, in the order of its first appearance.
pub open spec fn first_occurrence_keys(s: Seq<Allocation>) -> Seq<Seq<char>>
    decreases s.len(),
{
    if s.len() == 0 {
        Seq::empty()
    } else {
        let rest = first_occurrence_keys(s.drop_last());
        if rest.contains(s.last().recipient@) {
            rest
        } else {
            rest.push(s.last().recipient@)
        }
    }
}

/// The total amount across all allocations, every recipient counted.
pub open spec fn sum_all(s: Seq<Allocation>) -> int
    decreases s.len(),
{
    if s.len() == 0 {
        0
    } else {
        s.first().amount + sum_all(s.drop_first())
    }
}

/// Relies on indexmap::IndexMap::new: a freshly constructed map is empty.
#[verifier::external_body]
fn totals_new() -> (m: indexmap::IndexMap<String, u64, RandomState>)
    ensures
        totals_entries(m) == no_totals(),
{
    indexmap::IndexMap::new()
}

/// Relies on indexmap::IndexMap::get: the value stored under the key, if any.
#[verifier::external_body]
fn totals_get(m: &indexmap::IndexMap<String, u64, RandomState>, key: &String) -> (r: Option<u64>)
    ensures
        r == totals_lookup(totals_entries(*m), key@),
{
    m.get(key.as_str()).copied()
}

/// Relies on indexmap::IndexMap::insert: an existing key keeps its place in
/// the order and its value is replaced; a new key is appended, last in
/// order. Returns the value previously stored under the key, if any.
#[verifier::external_body]
fn totals_insert(
    m: &mut indexmap::IndexMap<String, u64, RandomState>,
    key: &String,
    value: u64,
) -> (r: Option<u64>)
    ensures
        totals_entries(*final(m)) == totals_update(totals_entries(*old(m)), key@, value),
        r == totals_lookup(totals_entries(*old(m)), key@),
{
    m.insert(key.clone(), value)
}

/// Relies on indexmap::IndexMap::iter: the entries in insertion order.
#[verifier::external_body]
fn totals_list(m: &indexmap::IndexMap<String, u64, RandomState>) -> (r: Vec<(String, u64)>)
    ensures
        r@.len() == totals_entries(*m).len(),
        forall|i: int|
            0 <= i < r@.len() ==> (#[trigger] r@[i]).0@ == totals_entries(*m)[i].0 && r@[i].1
                == totals_entries(*m)[i].1,
{
    m.iter().map(|(k, v)| (k.clone(), *v)).collect()
}

proof fn lemma_sum_for_push(s: Seq<Allocation>, a: Allocation, t: Seq<char>)
    ensures
        sum_for(s.push(a), t) == sum_for(s, t) + (if a.recipient@ == t {
            a.amount as int
        } else {
            0
        }),
    decreases s.len(),
{
    let sp = s.push(a);
    assert(sp.len() == s.len() + 1);
    if s.len() == 0 {
        assert(sp.first() == a);
        assert(sp.drop_first() =~= Seq::<Allocation>::empty());
        assert(sum_for(sp.drop_first(), t) == 0);
        assert(sum_for(sp, t) == (if sp.first().recipient@ == t {
            sp.first().amount as int
        } else {
            0
        }) + sum_for(sp.drop_first(), t));
    } else {
        assert(sp.first() == s.first());
        assert(sp.drop_first() =~= s.drop_first().push(a));
        lemma_sum_for_push(s.drop_first(), a, t);
        assert(sum_for(sp, t) == (if sp.first().recipient@ == t {
            sp.first().amount as int
        } else {
            0
        }) + sum_for(sp.drop_first(), t));
    }
}

proof fn lemma_sum_for_le_sum_all(s: Seq<Allocation>, t: Seq<char>)
    ensures
        sum_for(s, t) <= sum_all(s),
        0 <= sum_all(s),
    decreases s.len(),
{
    if s.len() > 0 {
        lemma_sum_for_le_sum_all(s.drop_first(), t);
    }
}

proof fn lemma_sum_for_take_le(s: Seq<Allocation>, t: Seq<char>, j: int)
    requires
        0 <= j <= s.len(),
    ensures
        sum_for(s.take(j), t) <= sum_for(s, t),
    decreases s.len() - j,
{
    if j == s.len() {
        assert(s.take(j) =~= s);
    } else {
        lemma_sum_for_take_le(s, t, j + 1);
        assert(s.take(j + 1) =~= s.take(j).push(s[j]));
        lemma_sum_for_push(s.take(j), s[j], t);
    }
}

proof fn lemma_distinct_drop_first(es: Seq<TotalsEntry>)
    requires
        entries_distinct(es),
        es.len() > 0,
    ensures
        entries_distinct(es.drop_first()),
{
    assert forall|a: int, b: int|
        0 <= a < b < es.drop_first().len() implies (#[trigger] es.drop_first()[a]).0 != (
    #[trigger] es.drop_first()[b]).0 by {
        assert(es.drop_first()[a] == es[a + 1]);
        assert(es.drop_first()[b] == es[b + 1]);
    }
}

proof fn lemma_lookup_entry_sum(es: Seq<TotalsEntry>, k: Seq<char>)
    requires
        entries_distinct(es),
    ensures
        entry_sum(es, k) == (match totals_lookup(es, k) {
            Some(v) => v as int,
            None => 0,
        }),
    decreases es.len(),
{
    if es.len() > 0 {
        lemma_distinct_drop_first(es);
        lemma_lookup_entry_sum(es.drop_first(), k);
        if es.first().0 == k {
            // no later entry carries k, so the tail contributes nothing
            assert(totals_lookup(es.drop_first(), k) is None ==> entry_sum(es.drop_first(), k)
                == 0);
            lemma_lookup_in_keys(es.drop_first(), k);
            if totals_lookup(es.drop_first(), k) is Some {
                let b = choose|b: int|
                    0 <= b < es.drop_first().len() && (#[trigger] es.drop_first()[b]).0 == k;
                assert(es[b + 1].0 == k && es[0].0 == k);
                assert(false);
            }
        }
    }
}

proof fn lemma_lookup_in_keys(es: Seq<TotalsEntry>, k: Seq<char>)
    ensures
        totals_lookup(es, k) is Some <==> exists|b: int| 0 <= b < es.len() && (#[trigger] es[b]).0
            == k,
    decreases es.len(),
{
    if es.len() > 0 {
        lemma_lookup_in_keys(es.drop_first(), k);
        if es.first().0 == k {
            assert(es[0].0 == k);
        } else {
            if exists|b: int| 0 <= b < es.len() && (#[trigger] es[b]).0 == k {
                let b = choose|b: int| 0 <= b < es.len() && (#[trigger] es[b]).0 == k;
                assert(b != 0);
                assert(es.drop_first()[b - 1].0 == k);
            }
            if totals_lookup(es.drop_first(), k) is Some {
                let b = choose|b: int|
                    0 <= b < es.drop_first().len() && (#[trigger] es.drop_first()[b]).0 == k;
                assert(es[b + 1].0 == k);
            }
        }
    }
}

proof fn lemma_update_entry_sum(es: Seq<TotalsEntry>, k: Seq<char>, v: u64, t: Seq<char>)
    requires
        entries_distinct(es),
    ensures
        entry_sum(totals_update(es, k, v), t) == (if t == k {
            v as int
        } else {
            entry_sum(es, t)
        }),
    decreases es.len(),
{
    lemma_lookup_entry_sum(es, t);
    if es.len() == 0 {
        let u = totals_update(es, k, v);
        assert(u =~= seq![(k, v)]);
        assert(u.first() == (k, v));
        assert(u.drop_first() =~= Seq::<TotalsEntry>::empty());
        assert(entry_sum(u.drop_first(), t) == 0);
        assert(entry_sum(u, t) == (if u.first().0 == t {
            u.first().1 as int
        } else {
            0
        }) + entry_sum(u.drop_first(), t));
    } else {
        let rest = es.drop_first();
        lemma_distinct_drop_first(es);
        if es.first().0 == k {
            let u = totals_update(es, k, v);
            assert(u =~= seq![(k, v)] + rest);
            assert(u.first() == (k, v));
            assert(u.drop_first() =~= rest);
            assert(entry_sum(u, t) == (if u.first().0 == t {
                u.first().1 as int
            } else {
                0
            }) + entry_sum(rest, t));
            lemma_lookup_entry_sum(rest, t);
            if t == k {
                lemma_lookup_in_keys(rest, k);
                if totals_lookup(rest, k) is Some {
                    let b = choose|b: int| 0 <= b < rest.len() && (#[trigger] rest[b]).0 == k;
                    assert(es[b + 1].0 == k && es[0].0 == k);
                    assert(false);
                }
                assert(entry_sum(rest, k) == 0);
            }
        } else {
            lemma_update_entry_sum(rest, k, v, t);
            let ur = totals_update(rest, k, v);
            let u = totals_update(es, k, v);
            assert(u =~= seq![es.first()] + ur);
            assert(u.first() == es.first());
            assert(u.drop_first() =~= ur);
            assert(entry_sum(u, t) == (if u.first().0 == t {
                u.first().1 as int
            } else {
                0
            }) + entry_sum(ur, t));
        }
    }
}

proof fn lemma_update_keys(es: Seq<TotalsEntry>, k: Seq<char>, v: u64)
    requires
        entries_distinct(es),
    ensures
        entries_distinct(totals_update(es, k, v)),
        totals_lookup(es, k) is Some ==> totals_update(es, k, v).len() == es.len(),
        totals_lookup(es, k) is None ==> totals_update(es, k, v).len() == es.len() + 1
            && totals_update(es, k, v)[es.len() as int].0 == k,
        forall|q: int|
            0 <= q < es.len() ==> (#[trigger] totals_update(es, k, v)[q]).0 == es[q].0,
    decreases es.len(),
{
    let u = totals_update(es, k, v);
    if es.len() == 0 {
        assert(u[0] == (k, v));
    } else {
        let rest = es.drop_first();
        lemma_distinct_drop_first(es);
        if es.first().0 == k {
            assert(u =~= seq![(k, v)] + rest);
            assert forall|q: int| 0 <= q < es.len() implies (#[trigger] u[q]).0 == es[q].0 by {
                if q > 0 {
                    assert(u[q] == rest[q - 1]);
                    assert(es[q] == rest[q - 1]);
                }
            }
            assert forall|a: int, b: int|
                0 <= a < b < u.len() implies (#[trigger] u[a]).0 != (#[trigger] u[b]).0 by {
                assert(u[a].0 == es[a].0 && u[b].0 == es[b].0);
            }
        } else {
            lemma_update_keys(rest, k, v);
            lemma_lookup_in_keys(rest, k);
            let ur = totals_update(rest, k, v);
            assert(u =~= seq![es.first()] + ur);
            assert forall|q: int| 0 <= q < es.len() implies (#[trigger] u[q]).0 == es[q].0 by {
                if q > 0 {
                    assert(u[q] == ur[q - 1]);
                    assert(ur[q - 1].0 == rest[q - 1].0);
                    assert(es[q] == rest[q - 1]);
                }
            }
            if totals_lookup(es, k) is None {
                assert(u[es.len() as int] == ur[rest.len() as int]);
            }
            assert forall|a: int, b: int|
                0 <= a < b < u.len() implies (#[trigger] u[a]).0 != (#[trigger] u[b]).0 by {
                if a == 0 {
                    assert(u[b] == ur[b - 1]);
                    if b - 1 < rest.len() {
                        assert(ur[b - 1].0 == rest[b - 1].0);
                        assert(rest[b - 1] == es[b]);
                    } else {
                        assert(ur[b - 1].0 == k);
                    }
                } else {
                    assert(u[a] == ur[a - 1] && u[b] == ur[b - 1]);
                    assert(entries_distinct(ur));
                }
            }
        }
    }
}

proof fn lemma_sum_matches_entries(allocs: Seq<Allocation>, es: Seq<TotalsEntry>, t: Seq<char>)
    requires
        allocs.len() == es.len(),
        forall|q: int|
            0 <= q < allocs.len() ==> (#[trigger] allocs[q]).recipient@ == es[q].0
                && allocs[q].amount == es[q].1,
    ensures
        sum_for(allocs, t) == entry_sum(es, t),
    decreases allocs.len(),
{
    if allocs.len() > 0 {
        assert(allocs[0].recipient@ == es[0].0 && allocs[0].amount == es[0].1);
        assert forall|q: int|
            0 <= q < allocs.drop_first().len() implies (#[trigger] allocs.drop_first()[q]).recipient@
            == es.drop_first()[q].0 && allocs.drop_first()[q].amount == es.drop_first()[q].1 by {
            assert(allocs.drop_first()[q] == allocs[q + 1]);
            assert(es.drop_first()[q] == es[q + 1]);
        }
        lemma_sum_matches_entries(allocs.drop_first(), es.drop_first(), t);
    }
}

/// Merges allocations by recipient: the output carries each recipient once,
/// in the order of its first appearance, with the sum of every amount the
/// input holds for it. The per-recipient totals are preserved exactly.
pub fn merge_allocations(allocations: &Vec<Allocation>) -> (r: Vec<Allocation>)
    requires
        sum_all(allocations@) <= u64::MAX,
    ensures
        forall|t: Seq<char>| #[trigger] sum_for(r@, t) == sum_for(allocations@, t),
        forall|a: int, b: int|
            0 <= a < b < r@.len() ==> (#[trigger] r@[a]).recipient@ != (#[trigger] r@[b]).recipient@,
        recipients_of(r@) == first_occurrence_keys(allocations@),
{
    let mut totals = totals_new();
    let n: usize = allocations.len();
    let mut i: usize = 0;
    while i < n
        invariant
            n == allocations@.len(),
            0 <= i <= n,
            sum_all(allocations@) <= u64::MAX,
            forall|t: Seq<char>|
                #[trigger] entry_sum(totals_entries(totals), t) == sum_for(
                    allocations@.take(i as int),
                    t,
                ),
            entries_distinct(totals_entries(totals)),
            totals_entries(totals).len() == first_occurrence_keys(
                allocations@.take(i as int),
            ).len(),
            forall|q: int|
                0 <= q < totals_entries(totals).len() ==> (#[trigger] totals_entries(totals)[q]).0
                    == first_occurrence_keys(allocations@.take(i as int))[q],
        decreases n - i,
    {
        let a = &allocations[i];
        let prev = totals_get(&totals, &a.recipient);
        let ghost es = totals_entries(totals);
        let ghost k = a.recipient@;
        proof {
            lemma_lookup_entry_sum(es, k);
            lemma_sum_for_push(allocations@.take(i as int), allocations@[i as int], k);
            assert(allocations@.take(i as int).push(allocations@[i as int]) =~= allocations@.take(
                i as int + 1,
            ));
            lemma_sum_for_take_le(allocations@, k, i as int + 1);
            lemma_sum_for_le_sum_all(allocations@, k);
            lemma_sum_for_nonneg_total(allocations@.take(i as int), k);
        }
        let updated: u64 = match prev {
            Some(v) => v + a.amount,
            None => a.amount,
        };
        totals_insert(&mut totals, &a.recipient, updated);
        proof {
            lemma_lookup_in_keys(es, k);
            lemma_update_keys(es, k, updated);
            let pfx = allocations@.take(i as int + 1);
            assert(pfx.drop_last() =~= allocations@.take(i as int));
            assert(pfx.last() == allocations@[i as int]);
            assert forall|t: Seq<char>|
                #[trigger] entry_sum(totals_entries(totals), t) == sum_for(
                    allocations@.take(i as int + 1),
                    t,
                ) by {
                lemma_update_entry_sum(es, k, updated, t);
                lemma_sum_for_push(allocations@.take(i as int), allocations@[i as int], t);
            }
            // order of keys: a known recipient keeps the order, a new one is
            // appended, matching the first-occurrence sequence
            let fok = first_occurrence_keys(allocations@.take(i as int));
            let fok1 = first_occurrence_keys(pfx);
            lemma_lookup_in_keys(es, k);
            if totals_lookup(es, k) is Some {
                assert(fok.contains(k)) by {
                    let b = choose|b: int| 0 <= b < es.len() && (#[trigger] es[b]).0 == k;
                    assert(fok[b] == k);
                }
                assert(fok1 == fok);
            } else {
                if fok.contains(k) {
                    let b = choose|b: int| 0 <= b < fok.len() && fok[b] == k;
                    assert(es[b].0 == k);
                    assert(false);
                }
                assert(fok1 == fok.push(k));
            }
        }
        i = i + 1;
    }
    proof {
        assert(allocations@.take(n as int) =~= allocations@);
    }
    let list = totals_list(&totals);
    let ghost es = totals_entries(totals);
    let mut out: Vec<Allocation> = Vec::new();
    let m: usize = list.len();
    let mut j: usize = 0;
    while j < m
        invariant
            m == list@.len(),
            m == es.len(),
            totals_entries(totals) == es,
            forall|q: int|
                0 <= q < m ==> (#[trigger] list@[q]).0@ == es[q].0 && list@[q].1 == es[q].1,
            0 <= j <= m,
            out@.len() == j,
            forall|q: int|
                0 <= q < j ==> (#[trigger] out@[q]).recipient@ == es[q].0 && out@[q].amount
                    == es[q].1,
        decreases m - j,
    {
        out.push(Allocation { recipient: list[j].0.clone(), amount: list[j].1 });
        j = j + 1;
    }
    proof {
        assert forall|t: Seq<char>| #[trigger] sum_for(out@, t) == sum_for(allocations@, t) by {
            lemma_sum_matches_entries(out@, es, t);
        }
        let fok = first_occurrence_keys(allocations@);
        assert forall|q: int| 0 <= q < out@.len() implies recipients_of(out@)[q] == fok[q] by {
            assert(out@[q].recipient@ == es[q].0);
        }
        assert(recipients_of(out@) =~= fok);
    }
    out
}

proof fn lemma_sum_for_nonneg_total(s: Seq<Allocation>, t: Seq<char>)
    ensures
        sum_for(s, t) >= 0,
    decreases s.len(),
{
    if s.len() > 0 {
        lemma_sum_for_nonneg_total(s.drop_first(), t);
    }
}

} // verus!
