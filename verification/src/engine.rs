//! The distribution engine: reconciles allocations against the ledger,
//! submits one transaction per allocation (writing the ledger record before
//! the send), and drives the finalization state machine over the ledger's
//! non-finalized records.

use vstd::prelude::*;

use crate::client::{Client, ThinClient, TransactionStatus};
use crate::ledger::{
    db_all_decodable, db_records, db_remove_record, db_set_record, db_volatile,
    get_transaction_info, list_matches_records, open_db, read_transaction_data,
    set_transaction_info,
};
use crate::reconcile::apply_previous_transactions;
use crate::sdk::{
    hash_to_string, keypair_pubkey, message_with_payer, new_keypair, parse_pubkey,
    pubkey_to_string, stake_authorize_staker_instruction, stake_authorize_withdrawer_instruction,
    stake_split_instructions, transaction_first_signature, transaction_new_unsigned,
    transaction_try_sign, transfer_instruction,
};
use crate::types::{string_eq, Allocation, Error, RecordView, SignedTransactionInfo, TransactionInfo};
use pickledb::PickleDb;
use solana_sdk::instruction::Instruction;
use solana_sdk::pubkey::Pubkey;
use solana_sdk::signature::Keypair;

verus! {

/// The staking sub-configuration: the funded delegation account to split
/// from, its authorities, and the amount left aside for the recipient's
/// future transaction fees, in base units.
pub struct StakeArgs {
    pub stake_account_address: Pubkey,
    pub stake_authority: Option<Keypair>,
    pub withdraw_authority: Option<Keypair>,
    pub fee_reserve_lamports: u64,
}

/// The run configuration of the distribution engine.
pub struct DistributeTokensArgs {
    pub sender_keypair: Option<Keypair>,
    pub fee_payer: Option<Keypair>,
    pub dry_run: bool,
    pub no_wait: bool,
    pub transactions_db: String,
    pub force: bool,
    pub stake_args: Option<StakeArgs>,
}

/// The arguments of the audit-log projection.
pub struct TransactionLogArgs {
    pub transactions_db: String,
    pub output_path: String,
}

/// Outside a dry run, every signer the submitter unwraps must be present.
pub open spec fn args_have_signers(args: DistributeTokensArgs) -> bool {
    !args.dry_run ==> args.sender_keypair is Some && args.fee_payer is Some && (match args.stake_args {
        Some(sa) => sa.stake_authority is Some && sa.withdraw_authority is Some,
        None => true,
    })
}

/// The stored blockhash is still among the valid recent ones.
pub open spec fn recent_contains(recent: Seq<String>, h: Seq<char>) -> bool {
    exists|i: int| 0 <= i < recent.len() && recent[i]@ == h
}

/// The confirmation count one poll cycle reports for one record: zero for a
/// transaction the ledger does not know yet whose blockhash is still live,
/// the reported count while it is confirming, and nothing once the record is
/// finalized or discarded.
pub open spec fn record_confirmations(
    status: Option<TransactionStatus>,
    blockhash: Seq<char>,
    recent: Seq<String>,
) -> Option<int> {
    match status {
        None => if recent_contains(recent, blockhash) {
            Some(0int)
        } else {
            None
        },
        Some(st) => match st.confirmations {
            Some(c) => Some(c as int),
            None => None,
        },
    }
}

/// The record with its finalized mark set.
pub open spec fn finalized_record(rec: RecordView) -> RecordView {
    (rec.0, rec.1, rec.2, true, rec.4)
}

/// The poll step for this status only reports and never writes the store: a
/// still-confirming status, or an unknown status whose blockhash is live.
pub open spec fn status_needs_no_write(
    status: Option<TransactionStatus>,
    blockhash: Seq<char>,
    recent: Seq<String>,
) -> bool {
    match status {
        None => recent_contains(recent, blockhash),
        Some(st) => st.confirmations is Some,
    }
}

/// The poll step for this status discards the record: an unknown status
/// whose blockhash expired, or a finalized execution failure.
pub open spec fn discards_record(
    status: Option<TransactionStatus>,
    blockhash: Seq<char>,
    recent: Seq<String>,
) -> bool {
    match status {
        None => !recent_contains(recent, blockhash),
        Some(st) => st.confirmations is None && st.status is Err,
    }
}

/// Every record of the map carries the finalized mark: no pending work.
pub open spec fn all_records_finalized(m: Map<Seq<char>, RecordView>) -> bool {
    forall|k: Seq<char>| #[trigger] m.dom().contains(k) ==> m[k].3
}

/// What one poll step does to the record under `k`: an unknown status with
/// an expired blockhash discards it, a live unknown or confirming status
/// keeps it unchanged, a failed execution discards it, and a rooted success
/// finalizes it.
pub open spec fn record_outcome(
    pre: Map<Seq<char>, RecordView>,
    post: Map<Seq<char>, RecordView>,
    k: Seq<char>,
    status: Option<TransactionStatus>,
    blockhash: Seq<char>,
    recent: Seq<String>,
) -> bool {
    match status {
        None => if recent_contains(recent, blockhash) {
            post.dom().contains(k) && post[k] == pre[k]
        } else {
            !post.dom().contains(k)
        },
        Some(st) => match st.confirmations {
            Some(_) => post.dom().contains(k) && post[k] == pre[k],
            None => if st.status is Err {
                !post.dom().contains(k)
            } else {
                post.dom().contains(k) && post[k] == finalized_record(pre[k])
            },
        },
    }
}

/// The exact ledger transition of one poll step on the record under `k`:
/// unchanged, removed, or finalized in place.
pub open spec fn db_map_step(
    pre: Map<Seq<char>, RecordView>,
    post: Map<Seq<char>, RecordView>,
    k: Seq<char>,
    status: Option<TransactionStatus>,
    blockhash: Seq<char>,
    recent: Seq<String>,
) -> bool {
    match status {
        None => if recent_contains(recent, blockhash) {
            post == pre
        } else {
            post == pre.remove(k)
        },
        Some(st) => match st.confirmations {
            Some(_) => post == pre,
            None => if st.status is Err {
                post == pre.remove(k)
            } else {
                post == pre.insert(k, finalized_record(pre[k]))
            },
        },
    }
}

/// An optional count, as a mathematical integer.
pub open spec fn opt_usize_int(c: Option<usize>) -> Option<int> {
    match c {
        Some(v) => Some(v as int),
        None => None,
    }
}

/// The smaller of two optional counts, where absent means "no pending work".
pub open spec fn opt_min(a: Option<int>, b: Option<int>) -> Option<int> {
    match (a, b) {
        (None, x) => x,
        (Some(x), None) => Some(x),
        (Some(x), Some(y)) => Some(
            if x <= y {
                x
            } else {
                y
            },
        ),
    }
}

/// The minimum confirmation count one poll cycle reports across the pending
/// (signature, blockhash) pairs, or nothing once every record is finalized
/// or discarded.
pub open spec fn min_confirmations(
    pending: Seq<(String, String)>,
    statuses: Seq<Option<TransactionStatus>>,
    recent: Seq<String>,
) -> Option<int>
    decreases pending.len(),
{
    if pending.len() == 0 {
        None
    } else {
        opt_min(
            min_confirmations(pending.drop_last(), statuses.drop_last(), recent),
            record_confirmations(statuses[pending.len() - 1], pending.last().1@, recent),
        )
    }
}

proof fn lemma_min_none_iff(
    pending: Seq<(String, String)>,
    statuses: Seq<Option<TransactionStatus>>,
    recent: Seq<String>,
)
    requires
        pending.len() == statuses.len(),
    ensures
        min_confirmations(pending, statuses, recent) is None <==> forall|p: int|
            0 <= p < pending.len() ==> record_confirmations(
                #[trigger] statuses[p],
                pending[p].1@,
                recent,
            ) is None,
    decreases pending.len(),
{
    if pending.len() > 0 {
        lemma_min_none_iff(pending.drop_last(), statuses.drop_last(), recent);
        let last = pending.len() - 1;
        assert forall|p: int|
            0 <= p < pending.drop_last().len() implies #[trigger] statuses.drop_last()[p]
            == statuses[p] && pending.drop_last()[p] == pending[p] by {}
        assert(pending.last() == pending[last]);
        if min_confirmations(pending, statuses, recent) is None {
            assert forall|p: int|
                0 <= p < pending.len() implies record_confirmations(
                #[trigger] statuses[p],
                pending[p].1@,
                recent,
            ) is None by {
                if p < last {
                    assert(record_confirmations(
                        statuses.drop_last()[p],
                        pending.drop_last()[p].1@,
                        recent,
                    ) is None);
                }
            }
        }
        if forall|p: int|
            0 <= p < pending.len() ==> record_confirmations(
                #[trigger] statuses[p],
                pending[p].1@,
                recent,
            ) is None {
            assert forall|p: int|
                0 <= p < pending.drop_last().len() implies record_confirmations(
                #[trigger] statuses.drop_last()[p],
                pending.drop_last()[p].1@,
                recent,
            ) is None by {
                assert(record_confirmations(statuses[p], pending[p].1@, recent) is None);
            }
            assert(record_confirmations(statuses[last], pending[last].1@, recent) is None);
        }
    }
}

/// Some pending pair carries the key `k`.
pub open spec fn pending_has_key(pending: Seq<(String, String)>, k: Seq<char>) -> bool {
    exists|p: int| 0 <= p < pending.len() && pending[p].0@ == k
}

/// A record of the final map under a fresh key pays one of the allocations
/// and is not yet finalized; outside a staking distribution its auxiliary
/// stake account address is empty.
pub open spec fn is_new_submission(rec: RecordView, allocs: Seq<Allocation>, staking: bool) -> bool {
    &&& exists|i: int|
        0 <= i < allocs.len() && rec.0 == (#[trigger] allocs[i]).recipient@ && rec.1
            == allocs[i].amount
    &&& rec.3 == false
    &&& !staking ==> rec.2 == Seq::<char>::empty()
}

/// The planned movements of one staking submission, in base units: the
/// amount split into the new delegation account, and the amount sent
/// directly to the recipient to cover its future fees. Nothing of the
/// allocation is lost: the two parts add back up to the allocated amount.
pub fn stake_payment_amounts(amount: u64, fee_reserve_lamports: u64) -> (r: Option<(u64, u64)>)
    ensures
        r is Some <==> amount >= fee_reserve_lamports,
        r matches Some(p) ==> p.0 == amount - fee_reserve_lamports && p.1 == fee_reserve_lamports
            && p.0 + p.1 == amount,
{
    if amount < fee_reserve_lamports {
        None
    } else {
        Some((amount - fee_reserve_lamports, fee_reserve_lamports))
    }
}

/// Whether the stored blockhash is among the valid recent ones.
fn recent_contains_exec(recent: &Vec<String>, blockhash: &String) -> (r: bool)
    ensures
        r == recent_contains(recent@, blockhash@),
{
    let n: usize = recent.len();
    let mut i: usize = 0;
    while i < n
        invariant
            n == recent@.len(),
            0 <= i <= n,
            forall|j: int| 0 <= j < i ==> (#[trigger] recent@[j])@ != blockhash@,
        decreases n - i,
    {
        if string_eq(&recent[i], blockhash) {
            return true;
        }
        i = i + 1;
    }
    false
}

/// `sel` picks the kept signers: strictly increasing positions of `signers`,
/// one per kept element, in order.
pub open spec fn selection_matches(r: Seq<&Keypair>, signers: Seq<&Keypair>, sel: Seq<int>) -> bool {
    &&& sel.len() == r.len()
    &&& forall|q: int|
        0 <= q < sel.len() ==> 0 <= #[trigger] sel[q] < signers.len() && r[q] == signers[sel[q]]
    &&& forall|q1: int, q2: int| 0 <= q1 < q2 < sel.len() ==> sel[q1] < sel[q2]
}

/// `r` is a subsequence of `signers` in the original order.
pub open spec fn ordered_subsequence_of(r: Seq<&Keypair>, signers: Seq<&Keypair>) -> bool {
    exists|sel: Seq<int>| selection_matches(r, signers, sel)
}

/// Keeps the first signer for each distinct public key: the result is an
/// order-preserving subsequence of the given signers. Distinctness is by the
/// keys' base58 public-key strings, which the opaque key type keeps outside
/// the contract.
pub fn unique_signers<'a>(signers: Vec<&'a Keypair>) -> (r: Vec<&'a Keypair>)
    ensures
        r@.len() <= signers@.len(),
        ordered_subsequence_of(r@, signers@),
{
    let n: usize = signers.len();
    let mut out: Vec<&Keypair> = Vec::new();
    let mut keys: Vec<String> = Vec::new();
    let ghost mut sel: Seq<int> = Seq::empty();
    let mut i: usize = 0;
    while i < n
        invariant
            n == signers@.len(),
            0 <= i <= n,
            out@.len() <= i,
            selection_matches(out@, signers@, sel),
            forall|q: int| 0 <= q < sel.len() ==> #[trigger] sel[q] < i,
        decreases n - i,
    {
        let key = pubkey_to_string(&keypair_pubkey(signers[i]));
        let mut seen: bool = false;
        let m: usize = keys.len();
        let mut q: usize = 0;
        while q < m
            invariant
                m == keys@.len(),
                0 <= q <= m,
            decreases m - q,
        {
            if string_eq(&keys[q], &key) {
                seen = true;
            }
            q = q + 1;
        }
        if !seen {
            keys.push(key);
            out.push(signers[i]);
            proof {
                let prior = sel;
                sel = sel.push(i as int);
                assert(out@[out@.len() - 1] == signers@[i as int]);
                assert(sel[sel.len() - 1] == i as int);
                assert forall|q: int|
                    0 <= q < sel.len() implies 0 <= #[trigger] sel[q] < signers@.len()
                    && out@[q] == signers@[sel[q]] by {
                    if q < sel.len() - 1 {
                        assert(sel[q] == prior[q]);
                    }
                }
            }
        }
        i = i + 1;
    }
    proof {
        assert(ordered_subsequence_of(out@, signers@)) by {
            assert(selection_matches(out@, signers@, sel));
        }
    }
    out
}

/// One step of the finalization state machine, applied to the ledger record
/// under `signature`. An unknown status with an expired blockhash or a
/// failed execution discards the record; a rooted success sets its
/// finalized mark; anything else leaves the ledger unchanged and reports
/// the record's confirmation count. Records other than the one named are
/// never touched.
pub fn update_finalized_transaction(
    db: &mut PickleDb,
    signature: &String,
    opt_transaction_status: &Option<TransactionStatus>,
    blockhash: &String,
    recent_blockhashes: &Vec<String>,
) -> (r: Result<Option<usize>, Error>)
    requires
        db_records(*old(db)).dom().contains(signature@),
    ensures
        r is Err ==> db_records(*final(db)) == db_records(*old(db)) || (discards_record(
            *opt_transaction_status,
            blockhash@,
            recent_blockhashes@,
        ) && db_records(*final(db)) == db_records(*old(db)).remove(signature@)),
        r matches Err(e) ==> e matches Error::PickleDbError(_),
        status_needs_no_write(*opt_transaction_status, blockhash@, recent_blockhashes@) ==> r
            is Ok,
        db_volatile(*old(db)) ==> r is Ok,
        db_volatile(*final(db)) == db_volatile(*old(db)),
        r is Ok ==> record_outcome(
            db_records(*old(db)),
            db_records(*final(db)),
            signature@,
            *opt_transaction_status,
            blockhash@,
            recent_blockhashes@,
        ),
        r is Ok ==> db_map_step(
            db_records(*old(db)),
            db_records(*final(db)),
            signature@,
            *opt_transaction_status,
            blockhash@,
            recent_blockhashes@,
        ),
        r matches Ok(c) ==> opt_usize_int(c) == record_confirmations(
            *opt_transaction_status,
            blockhash@,
            recent_blockhashes@,
        ),
        forall|k: Seq<char>|
            #[trigger] db_records(*final(db)).dom().contains(k) && k != signature@
                ==> db_records(*old(db)).dom().contains(k) && db_records(*final(db))[k]
                == db_records(*old(db))[k],
        forall|k: Seq<char>|
            #[trigger] db_records(*old(db)).dom().contains(k) && k != signature@ ==> db_records(
                *final(db),
            ).dom().contains(k),
{
    match opt_transaction_status {
        None => {
            if !recent_contains_exec(recent_blockhashes, blockhash) {
                // the transaction can never land: discard its record
                match db_remove_record(db, signature) {
                    Ok(_) => Ok(None),
                    Err(e) => Err(Error::PickleDbError(e)),
                }
            } else {
                // it may still be in flight
                Ok(Some(0))
            }
        },
        Some(transaction_status) => {
            match transaction_status.confirmations {
                Some(confirmations) => {
                    // found but not yet finalized
                    Ok(Some(confirmations))
                },
                None => {
                    match &transaction_status.status {
                        Err(_) => {
                            // finalized but execution failed: drop it
                            match db_remove_record(db, signature) {
                                Ok(_) => Ok(None),
                                Err(e) => Err(Error::PickleDbError(e)),
                            }
                        },
                        Ok(()) => {
                            // rooted: set the finalized mark
                            let info = get_transaction_info(&*db, signature).unwrap();
                            let updated = TransactionInfo {
                                recipient: info.recipient,
                                amount: info.amount,
                                new_stake_account_address: info.new_stake_account_address,
                                finalized: true,
                                blockhash: info.blockhash,
                            };
                            match db_set_record(db, signature, &updated) {
                                Ok(()) => Ok(None),
                                Err(e) => Err(Error::PickleDbError(e)),
                            }
                        },
                    }
                },
            }
        },
    }
}

/// One poll cycle over the pending records, given the statuses and the
/// valid recent blockhashes fetched for them: applies the state machine to
/// each record and reports the minimum confirmation count across them, or
/// nothing once all are finalized or discarded. Records not named by
/// `pending` are never touched.
pub fn apply_status_updates(
    db: &mut PickleDb,
    pending: &Vec<(String, String)>,
    statuses: &Vec<Option<TransactionStatus>>,
    recent_blockhashes: &Vec<String>,
) -> (r: Result<Option<usize>, Error>)
    requires
        statuses@.len() == pending@.len(),
        forall|p: int|
            0 <= p < pending@.len() ==> db_records(*old(db)).dom().contains(
                (#[trigger] pending@[p]).0@,
            ),
        forall|p: int, q: int| 0 <= p < q < pending@.len() ==> pending@[p].0@ != pending@[q].0@,
    ensures
        r matches Ok(c) ==> opt_usize_int(c) == min_confirmations(
            pending@,
            statuses@,
            recent_blockhashes@,
        ),
        r is Ok ==> forall|p: int|
            0 <= p < pending@.len() ==> record_outcome(
                db_records(*old(db)),
                db_records(*final(db)),
                (#[trigger] pending@[p]).0@,
                statuses@[p],
                pending@[p].1@,
                recent_blockhashes@,
            ),
        forall|k: Seq<char>|
            !(#[trigger] pending_has_key(pending@, k)) ==> (db_records(*final(db)).dom().contains(
                k,
            ) <==> db_records(*old(db)).dom().contains(k)) && (db_records(
                *old(db),
            ).dom().contains(k) ==> db_records(*final(db))[k] == db_records(*old(db))[k]),
        (forall|p: int|
            0 <= p < pending@.len() ==> status_needs_no_write(
                statuses@[p],
                (#[trigger] pending@[p]).1@,
                recent_blockhashes@,
            )) ==> r is Ok,
        db_volatile(*old(db)) ==> r is Ok,
        db_volatile(*final(db)) == db_volatile(*old(db)),
        r matches Err(e) ==> e matches Error::PickleDbError(_),
        r is Err ==> forall|p: int|
            0 <= p < pending@.len() ==> (db_records(*final(db)).dom().contains(
                (#[trigger] pending@[p]).0@,
            ) && db_records(*final(db))[pending@[p].0@] == db_records(*old(db))[pending@[p].0@])
                || record_outcome(
                db_records(*old(db)),
                db_records(*final(db)),
                pending@[p].0@,
                statuses@[p],
                pending@[p].1@,
                recent_blockhashes@,
            ),
{
    let ghost m0 = db_records(*old(db));
    let n: usize = pending.len();
    let mut confirmations: Option<usize> = None;
    let mut p: usize = 0;
    while p < n
        invariant
            n == pending@.len(),
            statuses@.len() == pending@.len(),
            forall|a: int, b: int| 0 <= a < b < pending@.len() ==> pending@[a].0@ != pending@[b].0@,
            0 <= p <= n,
            m0 == db_records(*old(db)),
            db_volatile(*db) == db_volatile(*old(db)),
            forall|q: int|
                p <= q < n ==> db_records(*db).dom().contains((#[trigger] pending@[q]).0@)
                    && db_records(*db)[pending@[q].0@] == m0[pending@[q].0@],
            forall|q: int| p <= q < n ==> m0.dom().contains((#[trigger] pending@[q]).0@),
            forall|q: int|
                0 <= q < p ==> record_outcome(
                    m0,
                    db_records(*db),
                    (#[trigger] pending@[q]).0@,
                    statuses@[q],
                    pending@[q].1@,
                    recent_blockhashes@,
                ),
            forall|k: Seq<char>|
                !(#[trigger] pending_has_key(pending@, k)) ==> (db_records(*db).dom().contains(k)
                    <==> m0.dom().contains(k)) && (m0.dom().contains(k) ==> db_records(*db)[k]
                    == m0[k]),
            opt_usize_int(confirmations) == min_confirmations(
                pending@.take(p as int),
                statuses@.take(p as int),
                recent_blockhashes@,
            ),
        decreases n - p,
    {
        let ghost pre = db_records(*db);
        let rc = match update_finalized_transaction(
            db,
            &pending[p].0,
            &statuses[p],
            &pending[p].1,
            recent_blockhashes,
        ) {
            Ok(c) => c,
            Err(e) => {
                proof {
                    let k = pending@[p as int].0@;
                    assert(pending_has_key(pending@, k)) by {
                        assert(0 <= p < pending@.len() && pending@[p as int].0@ == k);
                    }
                    if db_volatile(*old(db)) {
                        assert(false);
                    }
                    if forall|q: int|
                        0 <= q < pending@.len() ==> status_needs_no_write(
                            statuses@[q],
                            (#[trigger] pending@[q]).1@,
                            recent_blockhashes@,
                        ) {
                        assert(status_needs_no_write(
                            statuses@[p as int],
                            pending@[p as int].1@,
                            recent_blockhashes@,
                        ));
                        assert(false);
                    }
                    assert(db_records(*db) == pre || db_records(*db) == pre.remove(k));
                    assert forall|kx: Seq<char>| !pending_has_key(pending@, kx) implies (
                    db_records(*db).dom().contains(kx) <==> m0.dom().contains(kx)) && (
                    m0.dom().contains(kx) ==> db_records(*db)[kx] == m0[kx]) by {
                        assert(kx != k);
                    }
                    assert forall|q: int|
                        0 <= q < pending@.len() implies (db_records(*db).dom().contains(
                        (#[trigger] pending@[q]).0@,
                    ) && db_records(*db)[pending@[q].0@] == m0[pending@[q].0@]) || record_outcome(
                        m0,
                        db_records(*db),
                        pending@[q].0@,
                        statuses@[q],
                        pending@[q].1@,
                        recent_blockhashes@,
                    ) by {
                        if q < p {
                            assert(pending@[q].0@ != k);
                        } else if q > p {
                            assert(pending@[q].0@ != k);
                        } else {
                            if db_records(*db) == pre.remove(k) {
                                assert(discards_record(
                                    statuses@[p as int],
                                    pending@[p as int].1@,
                                    recent_blockhashes@,
                                ));
                                assert(!db_records(*db).dom().contains(k));
                            }
                        }
                    }
                }
                return Err(e);
            },
        };
        proof {
            let k = pending@[p as int].0@;
            // the step touched only this record, which still held its entry value
            assert(record_outcome(
                pre,
                db_records(*db),
                k,
                statuses@[p as int],
                pending@[p as int].1@,
                recent_blockhashes@,
            ));
            assert(pre[k] == m0[k]);
            assert(pending_has_key(pending@, k)) by {
                assert(0 <= p < pending@.len() && pending@[p as int].0@ == k);
            }
            let cur = db_records(*db);
            assert(cur == pre || cur == pre.remove(k) || cur == pre.insert(
                k,
                finalized_record(pre[k]),
            ));
            assert forall|kx: Seq<char>| !pending_has_key(pending@, kx) implies (db_records(
                *db,
            ).dom().contains(kx) <==> m0.dom().contains(kx)) && (m0.dom().contains(kx)
                ==> db_records(*db)[kx] == m0[kx]) by {
                assert(kx != k);
            }
            assert forall|q: int|
                p + 1 <= q < n implies db_records(*db).dom().contains(
                (#[trigger] pending@[q]).0@,
            ) && db_records(*db)[pending@[q].0@] == m0[pending@[q].0@] by {
                assert(pending@[q].0@ != k);
            }
            assert forall|q: int|
                0 <= q < p + 1 implies record_outcome(
                m0,
                db_records(*db),
                (#[trigger] pending@[q]).0@,
                statuses@[q],
                pending@[q].1@,
                recent_blockhashes@,
            ) by {
                if q < p {
                    assert(pending@[q].0@ != k);
                }
            }
            // the running minimum follows the specification
            let pfx = pending@.take(p as int + 1);
            let sfx = statuses@.take(p as int + 1);
            assert(pfx.drop_last() =~= pending@.take(p as int));
            assert(sfx.drop_last() =~= statuses@.take(p as int));
            assert(pfx.last() == pending@[p as int]);
            assert(sfx[pfx.len() - 1] == statuses@[p as int]);
        }
        confirmations = match (confirmations, rc) {
            (None, x) => x,
            (Some(c), None) => Some(c),
            (Some(c), Some(nc)) => Some(
                if nc < c {
                    nc
                } else {
                    c
                },
            ),
        };
        p = p + 1;
    }
    proof {
        assert(pending@.take(n as int) =~= pending@);
        assert(statuses@.take(n as int) =~= statuses@);
    }
    Ok(confirmations)
}

/// Submits one transaction per allocation: builds the transfer (or
/// stake-delegation) instructions, signs against a fresh reference
/// blockhash, persists the ledger record under the transaction's signature
/// BEFORE issuing the non-blocking send, and tolerates per-transaction send
/// failures. Every record it writes pays one of the given allocations and is
/// not yet finalized; existing records are never removed. In a dry run the
/// ledger is untouched and nothing is sent. Records are keyed by the opaque
/// signatures the signer returns, and nothing promises distinct transactions
/// distinct signatures, so the contract states that submitted work exists in
/// the ledger rather than one record per allocation.
pub fn distribute_tokens<C: Client>(
    client: &ThinClient<C>,
    db: &mut PickleDb,
    allocations: &Vec<Allocation>,
    args: &DistributeTokensArgs,
) -> (r: Result<(), Error>)
    requires
        args_have_signers(*args),
    ensures
        args.dry_run ==> db_records(*final(db)) == db_records(*old(db)),
        args.dry_run ==> r is Ok,
        allocations@.len() == 0 ==> db_records(*final(db)) == db_records(*old(db)),
        !args.dry_run && allocations@.len() > 0 && r is Ok ==> exists|k: Seq<char>|
            #[trigger] db_records(*final(db)).dom().contains(k) && is_new_submission(
                db_records(*final(db))[k],
                allocations@,
                args.stake_args is Some,
            ),
        !args.dry_run ==> ((args.stake_args matches Some(sa) && allocations@.len() > 0
            && allocations@[0].amount < sa.fee_reserve_lamports) ==> r is Err),
        forall|k: Seq<char>|
            #[trigger] db_records(*old(db)).dom().contains(k) ==> db_records(
                *final(db),
            ).dom().contains(k),
        forall|k: Seq<char>|
            #[trigger] db_records(*final(db)).dom().contains(k) ==> db_records(
                *old(db),
            ).dom().contains(k) || is_new_submission(db_records(*final(db))[k], allocations@, args.stake_args is Some),
        forall|k: Seq<char>|
            #[trigger] db_records(*old(db)).dom().contains(k) ==> db_records(*final(db))[k]
                == db_records(*old(db))[k] || is_new_submission(
                db_records(*final(db))[k],
                allocations@,
                args.stake_args is Some,
            ),
{
    let n: usize = allocations.len();
    let mut i: usize = 0;
    while i < n
        invariant
            n == allocations@.len(),
            0 <= i <= n,
            args_have_signers(*args),
            args.dry_run ==> db_records(*db) == db_records(*old(db)),
            n == 0 ==> db_records(*db) == db_records(*old(db)),
            !args.dry_run && i > 0 ==> exists|k: Seq<char>|
                #[trigger] db_records(*db).dom().contains(k) && is_new_submission(
                    db_records(*db)[k],
                    allocations@,
                    args.stake_args is Some,
                ),
            !args.dry_run && i > 0 ==> ((args.stake_args matches Some(sa)
                && allocations@[0].amount < sa.fee_reserve_lamports) ==> false),
            forall|k: Seq<char>|
                #[trigger] db_records(*old(db)).dom().contains(k) ==> db_records(
                    *db,
                ).dom().contains(k),
            forall|k: Seq<char>|
                #[trigger] db_records(*db).dom().contains(k) ==> db_records(
                    *old(db),
                ).dom().contains(k) || is_new_submission(db_records(*db)[k], allocations@, args.stake_args is Some),
            forall|k: Seq<char>|
                #[trigger] db_records(*old(db)).dom().contains(k) ==> db_records(*db)[k]
                    == db_records(*old(db))[k] || is_new_submission(
                    db_records(*db)[k],
                    allocations@,
                    args.stake_args is Some,
                ),
        decreases n - i,
    {
        let allocation = &allocations[i];
        let new_stake_account_keypair = new_keypair();
        let new_stake_account_address = keypair_pubkey(&new_stake_account_keypair);
        if !args.dry_run {
            let mut signers: Vec<&Keypair> = Vec::new();
            signers.push(args.fee_payer.as_ref().unwrap());
            signers.push(args.sender_keypair.as_ref().unwrap());
            match &args.stake_args {
                Some(stake_args) => {
                    signers.push(stake_args.stake_authority.as_ref().unwrap());
                    signers.push(stake_args.withdraw_authority.as_ref().unwrap());
                    signers.push(&new_stake_account_keypair);
                },
                None => {},
            }
            let signers = unique_signers(signers);
            let instructions: Vec<Instruction> = match &args.stake_args {
                Some(stake_args) => {
                    let (split_lamports, fee_lamports) = match stake_payment_amounts(
                        allocation.amount,
                        stake_args.fee_reserve_lamports,
                    ) {
                        Some(p) => p,
                        None => {
                            return Err(
                                Error::AllocationBelowFeeReserve(allocation.recipient.clone()),
                            );
                        },
                    };
                    let recipient = match parse_pubkey(&allocation.recipient) {
                        Ok(p) => p,
                        Err(e) => {
                            return Err(e);
                        },
                    };
                    let sender_pubkey = keypair_pubkey(args.sender_keypair.as_ref().unwrap());
                    let stake_authority = keypair_pubkey(
                        stake_args.stake_authority.as_ref().unwrap(),
                    );
                    let withdraw_authority = keypair_pubkey(
                        stake_args.withdraw_authority.as_ref().unwrap(),
                    );
                    let mut instructions = stake_split_instructions(
                        &stake_args.stake_account_address,
                        &stake_authority,
                        split_lamports,
                        &new_stake_account_address,
                    );
                    // make the recipient the new staker and withdrawer
                    instructions.push(
                        stake_authorize_staker_instruction(
                            &new_stake_account_address,
                            &stake_authority,
                            &recipient,
                        ),
                    );
                    instructions.push(
                        stake_authorize_withdrawer_instruction(
                            &new_stake_account_address,
                            &withdraw_authority,
                            &recipient,
                        ),
                    );
                    // and cover the recipient's future fees directly
                    instructions.push(
                        transfer_instruction(&sender_pubkey, &recipient, fee_lamports),
                    );
                    instructions
                },
                None => {
                    let from = keypair_pubkey(args.sender_keypair.as_ref().unwrap());
                    let to = match parse_pubkey(&allocation.recipient) {
                        Ok(p) => p,
                        Err(e) => {
                            return Err(e);
                        },
                    };
                    let instruction = transfer_instruction(&from, &to, allocation.amount);
                    vec![instruction]
                },
            };
            let fee_payer_pubkey = keypair_pubkey(args.fee_payer.as_ref().unwrap());
            let message = message_with_payer(&instructions, &fee_payer_pubkey);
            let blockhash = match client.get_recent_blockhash() {
                Ok(b) => b,
                Err(e) => {
                    return Err(Error::TransportError(e));
                },
            };
            let mut transaction = transaction_new_unsigned(message);
            match transaction_try_sign(&mut transaction, &signers, &blockhash) {
                Ok(()) => {},
                Err(m) => {
                    return Err(Error::SigningError(m));
                },
            }
            let signature = match transaction_first_signature(&transaction) {
                Some(s) => s,
                None => {
                    return Err(Error::SigningError("transaction has no signature".to_string()));
                },
            };
            // the record is durable before the send: a crash after this
            // point is resolved by reconciliation and polling, never by
            // paying the allocation again
            let blockhash_string = hash_to_string(&blockhash);
            let stake_address_string = pubkey_to_string(&new_stake_account_address);
            // only a staking submission created a delegation account; a plain
            // transfer records no auxiliary address
            let aux_address = match &args.stake_args {
                Some(_) => Some(&stake_address_string),
                None => None,
            };
            let ghost pre = db_records(*db);
            match set_transaction_info(
                db,
                allocation,
                &signature,
                &blockhash_string,
                aux_address,
                false,
            ) {
                Ok(()) => {},
                Err(e) => {
                    return Err(e);
                },
            }
            proof {
                assert(is_new_submission(
                    db_records(*db)[signature@],
                    allocations@,
                    args.stake_args is Some,
                )) by {
                    assert(db_records(*db)[signature@].0 == allocations@[i as int].recipient@
                        && db_records(*db)[signature@].1 == allocations@[i as int].amount
                        && db_records(*db)[signature@].3 == false);
                    if args.stake_args is None {
                        assert(db_records(*db)[signature@].2 == Seq::<char>::empty());
                    }
                }
                assert(db_records(*db).dom().contains(signature@));
            }
            // non-blocking send; a failure here is tolerated: the record is
            // already durable and the poller resolves the outcome
            match client.async_send_transaction(transaction) {
                Ok(_) => {},
                Err(_) => {},
            }
        }
        i = i + 1;
    }
    Ok(())
}

/// One poll cycle over the ledger: reads every record, fetches the statuses
/// of the non-finalized ones and the valid recent blockhashes in one batched
/// round trip each, applies the finalization state machine to each pending
/// record, and reports the minimum confirmation count among them, or nothing
/// once every record is finalized or discarded. A batched fetch failure is
/// fatal. Finalized records are never touched, and when every record is
/// already finalized the ledger comes back unchanged.
pub fn update_finalized_transactions<C: Client>(client: &ThinClient<C>, db: &mut PickleDb) -> (r:
    Result<Option<usize>, Error>)
    ensures
        r is Ok ==> forall|k: Seq<char>|
            #[trigger] db_records(*old(db)).dom().contains(k) && db_records(*old(db))[k].3
                ==> db_records(*final(db)).dom().contains(k) && db_records(*final(db))[k]
                == db_records(*old(db))[k],
        (r is Ok && all_records_finalized(db_records(*old(db)))) ==> db_records(*final(db))
            == db_records(*old(db)) && (r matches Ok(c2) && c2 is None),
        r matches Ok(c) ==> (c is None <==> all_records_finalized(db_records(*final(db)))),
        r is Ok ==> forall|k: Seq<char>|
            #[trigger] db_records(*final(db)).dom().contains(k) ==> db_records(
                *old(db),
            ).dom().contains(k) && (db_records(*final(db))[k] == db_records(*old(db))[k]
                || db_records(*final(db))[k] == finalized_record(db_records(*old(db))[k])),
        r matches Err(e) ==> db_records(*final(db)) == db_records(*old(db)) || e matches Error::PickleDbError(
            _,
        ),
{
    let data = match read_transaction_data(&*db) {
        Ok(d) => d,
        Err(e) => {
            return Err(e);
        },
    };
    let ghost m0 = db_records(*db);
    let nd: usize = data.len();
    let mut pending: Vec<(String, String)> = Vec::new();
    let ghost mut srcs: Seq<int> = Seq::empty();
    let mut i: usize = 0;
    while i < nd
        invariant
            nd == data@.len(),
            m0 == db_records(*db),
            list_matches_records(data@, m0),
            0 <= i <= nd,
            pending@.len() == srcs.len(),
            forall|p: int| 0 <= p < srcs.len() ==> 0 <= #[trigger] srcs[p] < i,
            forall|p: int, q: int| 0 <= p < q < srcs.len() ==> srcs[p] < srcs[q],
            forall|p: int|
                0 <= p < pending@.len() ==> (#[trigger] pending@[p]).0@ == data@[srcs[p]].0@
                    && pending@[p].1@ == data@[srcs[p]].1.blockhash@ && data@[srcs[p]].1.finalized
                    == false,
            forall|j: int|
                0 <= j < i && (#[trigger] data@[j]).1.finalized == false ==> exists|p: int|
                    0 <= p < srcs.len() && srcs[p] == j,
        decreases nd - i,
    {
        if !data[i].1.finalized {
            pending.push((data[i].0.clone(), data[i].1.blockhash.clone()));
            proof {
                let prior = srcs;
                srcs = srcs.push(i as int);
                assert(srcs[srcs.len() - 1] == i as int);
                assert forall|j: int|
                    0 <= j < i + 1 && (#[trigger] data@[j]).1.finalized == false implies exists|
                    p: int|
                    0 <= p < srcs.len() && srcs[p] == j by {
                    if j < i {
                        let p = choose|p: int| 0 <= p < prior.len() && prior[p] == j;
                        assert(srcs[p] == j);
                    } else {
                        assert(srcs[srcs.len() - 1] == j);
                    }
                }
            }
        }
        i = i + 1;
    }
    let np: usize = pending.len();
    let mut signatures: Vec<String> = Vec::new();
    let mut j: usize = 0;
    while j < np
        invariant
            np == pending@.len(),
            0 <= j <= np,
        decreases np - j,
    {
        signatures.push(pending[j].0.clone());
        j = j + 1;
    }
    let statuses = match client.get_signature_statuses(&signatures) {
        Ok(s) => s,
        Err(e) => {
            return Err(Error::TransportError(e));
        },
    };
    let recent_blockhashes = match client.get_recent_blockhashes() {
        Ok(h) => h,
        Err(e) => {
            return Err(Error::TransportError(e));
        },
    };
    if statuses.len() != pending.len() {
        return Err(Error::StatusCountMismatch);
    }
    proof {
        assert forall|p: int, q: int|
            0 <= p < q < pending@.len() implies pending@[p].0@ != pending@[q].0@ by {
            assert(srcs[p] < srcs[q]);
            assert(data@[srcs[p]].0@ != data@[srcs[q]].0@);
        }
        assert forall|p: int|
            0 <= p < pending@.len() implies db_records(*db).dom().contains(
            (#[trigger] pending@[p]).0@,
        ) by {
            assert(m0.dom().contains(data@[srcs[p]].0@));
        }
    }
    let result = match apply_status_updates(db, &pending, &statuses, &recent_blockhashes) {
        Ok(c) => c,
        Err(e) => {
            return Err(e);
        },
    };
    proof {
        let mf = db_records(*db);
        // a finalized record never stands in the pending list
        assert forall|k: Seq<char>|
            m0.dom().contains(k) && m0[k].3 implies !pending_has_key(pending@, k) by {
            if pending_has_key(pending@, k) {
                let p = choose|p: int| 0 <= p < pending@.len() && pending@[p].0@ == k;
                assert(data@[srcs[p]].1.finalized == false);
                assert(m0[data@[srcs[p]].0@] == data@[srcs[p]].1@);
                assert(false);
            }
        }
        // every non-finalized record stands in the pending list
        assert forall|k: Seq<char>|
            m0.dom().contains(k) && !m0[k].3 implies pending_has_key(pending@, k) by {
            let j = choose|j: int| 0 <= j < data@.len() && data@[j].0@ == k;
            assert(m0[data@[j].0@] == data@[j].1@);
            assert(data@[j].1.finalized == false);
            let p = choose|p: int| 0 <= p < srcs.len() && srcs[p] == j;
            assert(pending@[p].0@ == k);
        }
        // pending keys are keys of the read store
        assert forall|p: int|
            0 <= p < pending@.len() implies m0.dom().contains((#[trigger] pending@[p]).0@)
            && !m0[pending@[p].0@].3 by {
            assert(m0.dom().contains(data@[srcs[p]].0@));
            assert(m0[data@[srcs[p]].0@] == data@[srcs[p]].1@);
        }
        // every surviving record is an old record, kept or finalized in place
        assert forall|k: Seq<char>|
            #[trigger] mf.dom().contains(k) implies m0.dom().contains(k) && (mf[k] == m0[k]
            || mf[k] == finalized_record(m0[k])) by {
            if pending_has_key(pending@, k) {
                let p = choose|p: int| 0 <= p < pending@.len() && pending@[p].0@ == k;
                assert(record_outcome(
                    m0,
                    mf,
                    k,
                    statuses@[p],
                    pending@[p].1@,
                    recent_blockhashes@,
                ));
            }
        }
        // the reported count is absent exactly when no pending work survives
        lemma_min_none_iff(pending@, statuses@, recent_blockhashes@);
        if result is None {
            assert forall|k: Seq<char>| #[trigger] mf.dom().contains(k) implies mf[k].3 by {
                if !mf[k].3 {
                    assert(m0.dom().contains(k));
                    if pending_has_key(pending@, k) {
                        let p = choose|p: int| 0 <= p < pending@.len() && pending@[p].0@ == k;
                        assert(record_outcome(
                            m0,
                            mf,
                            k,
                            statuses@[p],
                            pending@[p].1@,
                            recent_blockhashes@,
                        ));
                        assert(record_confirmations(
                            statuses@[p],
                            pending@[p].1@,
                            recent_blockhashes@,
                        ) is None);
                        assert(false);
                    } else {
                        assert(mf[k] == m0[k]);
                        assert(!m0[k].3);
                        assert(false);
                    }
                }
            }
            assert(all_records_finalized(mf));
        }
        if result is Some {
            let p = choose|p: int|
                0 <= p < pending@.len() && !(record_confirmations(
                    #[trigger] statuses@[p],
                    pending@[p].1@,
                    recent_blockhashes@,
                ) is None);
            let k = pending@[p].0@;
            assert(record_outcome(m0, mf, k, statuses@[p], pending@[p].1@, recent_blockhashes@));
            assert(mf.dom().contains(k) && mf[k] == m0[k]);
            assert(!mf[k].3);
            assert(!all_records_finalized(mf));
        }
        // when everything is finalized there is no pending work at all
        if all_records_finalized(m0) {
            if pending@.len() > 0 {
                assert(m0.dom().contains(data@[srcs[0]].0@));
                assert(m0[data@[srcs[0]].0@].3 == false);
                assert(false);
            }
            assert(pending@.take(0) =~= pending@);
            assert forall|k: Seq<char>| !(#[trigger] pending_has_key(pending@, k)) by {
                if pending_has_key(pending@, k) {
                    let p = choose|p: int| 0 <= p < pending@.len() && pending@[p].0@ == k;
                }
            }
            assert forall|k: Seq<char>|
                #[trigger] m0.dom().contains(k) implies db_records(*db).dom().contains(k)
                && db_records(*db)[k] == m0[k] by {
                assert(!pending_has_key(pending@, k));
            }
            assert forall|k: Seq<char>|
                #[trigger] db_records(*db).dom().contains(k) implies m0.dom().contains(k) by {
                assert(!pending_has_key(pending@, k));
            }
            assert(db_records(*db) =~= m0);
        }
    }
    Ok(result)
}

/// Distributes the given allocations: reconciles them against the ledger at
/// `args.transactions_db`, aborts when a plain-transfer recipient already
/// carries a balance (unless forced), submits the remaining work, and runs
/// one finalization poll cycle. Returns the opened ledger together with the
/// cycle's minimum confirmation count; the caller repeats
/// [`update_finalized_transactions`] until it reports no pending work.
pub fn process_distribute_tokens<C: Client>(
    client: &ThinClient<C>,
    allocations: Vec<Allocation>,
    args: &DistributeTokensArgs,
) -> (r: Result<(PickleDb, Option<usize>), Error>)
    requires
        args_have_signers(*args),
    ensures
        r matches Ok(res) ==> (res.1 is None <==> all_records_finalized(db_records(res.0))),
{
    let mut allocations = allocations;
    let mut db = match open_db(&args.transactions_db, args.dry_run) {
        Ok(db) => db,
        Err(e) => {
            return Err(e);
        },
    };
    let confirmations = match update_finalized_transactions(client, &mut db) {
        Ok(c) => c,
        Err(e) => {
            return Err(e);
        },
    };
    let transaction_infos = match crate::ledger::read_transaction_infos(&db) {
        Ok(infos) => infos,
        Err(e) => {
            return Err(e);
        },
    };
    apply_previous_transactions(&mut allocations, &transaction_infos);
    if allocations.is_empty() {
        return Ok((db, confirmations));
    }
    // pre-flight guard: a plain-transfer recipient must start from a zero
    // balance, or the run aborts before anything is sent
    let na: usize = allocations.len();
    let mut g: usize = 0;
    while g < na
        invariant
            na == allocations@.len(),
        decreases na - g,
    {
        let address = match parse_pubkey(&allocations[g].recipient) {
            Ok(p) => p,
            Err(e) => {
                return Err(e);
            },
        };
        let balance = match client.get_balance(&address) {
            Ok(b) => b,
            Err(e) => {
                return Err(Error::TransportError(e));
            },
        };
        if args.stake_args.is_none() && !args.force && balance != 0 {
            return Err(
                Error::NonZeroRecipientBalance(allocations[g].recipient.clone(), balance),
            );
        }
        g = g + 1;
    }
    match distribute_tokens(client, &mut db, &allocations, args) {
        Ok(()) => {},
        Err(e) => {
            return Err(e);
        },
    }
    let confirmations = match update_finalized_transactions(client, &mut db) {
        Ok(c) => c,
        Err(e) => {
            return Err(e);
        },
    };
    Ok((db, confirmations))
}

/// A row of the audit log for some record of the ledger.
pub open spec fn row_is_record(
    m: Map<Seq<char>, RecordView>,
    row: (Seq<char>, u64, Seq<char>, bool, Seq<char>, Seq<char>),
) -> bool {
    m.dom().contains(row.5) && m[row.5] == (row.0, row.1, row.2, row.3, row.4)
}

/// Some row carries the signature `k`.
pub open spec fn logs_key(rows: Seq<SignedTransactionInfo>, k: Seq<char>) -> bool {
    exists|i: int| 0 <= i < rows.len() && rows[i].signature@ == k
}

/// The audit-log rows of the ledger: one per record, carrying the record and
/// its signature, in no promised order.
pub fn transaction_log_rows(db: &PickleDb) -> (r: Result<Vec<SignedTransactionInfo>, Error>)
    ensures
        r matches Ok(rows) ==> forall|i: int|
            0 <= i < rows@.len() ==> row_is_record(db_records(*db), (#[trigger] rows@[i])@),
        r matches Ok(rows) ==> forall|k: Seq<char>|
            #[trigger] db_records(*db).dom().contains(k) ==> logs_key(rows@, k),
        r matches Ok(rows) ==> forall|i: int, j: int|
            0 <= i < j < rows@.len() ==> rows@[i].signature@ != rows@[j].signature@,
{
    let data = match read_transaction_data(db) {
        Ok(d) => d,
        Err(e) => {
            return Err(e);
        },
    };
    let nd: usize = data.len();
    let mut rows: Vec<SignedTransactionInfo> = Vec::new();
    let mut i: usize = 0;
    while i < nd
        invariant
            nd == data@.len(),
            list_matches_records(data@, db_records(*db)),
            0 <= i <= nd,
            rows@.len() == i,
            forall|j: int|
                0 <= j < i ==> (#[trigger] rows@[j]).signature@ == data@[j].0@ && rows@[j].recipient@
                    == data@[j].1.recipient@ && rows@[j].amount == data@[j].1.amount
                    && rows@[j].new_stake_account_address@ == data@[j].1.new_stake_account_address@
                    && rows@[j].finalized == data@[j].1.finalized && rows@[j].blockhash@
                    == data@[j].1.blockhash@,
        decreases nd - i,
    {
        let info = data[i].1.duplicate();
        rows.push(
            SignedTransactionInfo {
                recipient: info.recipient,
                amount: info.amount,
                new_stake_account_address: info.new_stake_account_address,
                finalized: info.finalized,
                blockhash: info.blockhash,
                signature: data[i].0.clone(),
            },
        );
        i = i + 1;
    }
    proof {
        let m = db_records(*db);
        assert forall|i2: int|
            0 <= i2 < rows@.len() implies row_is_record(m, (#[trigger] rows@[i2])@) by {
            assert(m.dom().contains(data@[i2].0@) && m[data@[i2].0@] == data@[i2].1@);
        }
        assert forall|k: Seq<char>| #[trigger] m.dom().contains(k) implies logs_key(rows@, k) by {
            let j = choose|j: int| 0 <= j < data@.len() && data@[j].0@ == k;
            assert(0 <= j < rows@.len() && rows@[j].signature@ == k);
        }
    }
    Ok(rows)
}

/// Derives the audit-log rows from the ledger at the configured path,
/// without touching it; the caller renders them.
pub fn process_transaction_log(args: &TransactionLogArgs) -> (r: Result<
    Vec<SignedTransactionInfo>,
    Error,
>) {
    let db = match open_db(&args.transactions_db, true) {
        Ok(db) => db,
        Err(e) => {
            return Err(e);
        },
    };
    transaction_log_rows(&db)
}

} // verus!
