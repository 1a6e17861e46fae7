//! The persisted transaction ledger: a durable key-value store mapping a
//! transaction signature to its [`TransactionInfo`] record, backed by
//! `pickledb`. The store's contents are modelled by the uninterpreted map
//! [`db_records`], and every operation of the outside crate that the engine
//! relies on is stated over that map.

use vstd::prelude::*;

use crate::types::{Allocation, Error, RecordView, TransactionInfo};
use pickledb::PickleDb;
use pickledb::PickleDbDumpPolicy;

verus! {

#[verifier::external_type_specification]
#[verifier::external_body]
pub struct ExPickleDb(PickleDb);

/// What the store holds: the decodable ledger records, keyed by signature.
/// Keys whose stored bytes do not decode as a record are not in this map.
pub uninterp spec fn db_records(db: PickleDb) -> Map<Seq<char>, RecordView>;

/// The contents of a store that holds nothing.
pub open spec fn empty_records() -> Map<Seq<char>, RecordView> {
    Map::empty()
}

/// The store keeps its writes in memory only (the never-dump policy): its
/// mutations never touch the disk, so they cannot fail.
pub uninterp spec fn db_volatile(db: PickleDb) -> bool;

/// Every value the store holds decodes as a ledger record, so a full read
/// cannot fail.
pub uninterp spec fn db_all_decodable(db: PickleDb) -> bool;

/// Relies on pickledb::PickleDb::new_yaml: a freshly constructed store is
/// empty. The auto-dump policy persists every write to disk.
#[verifier::external_body]
fn db_new_durable(path: &String) -> (r: PickleDb)
    ensures
        db_records(r) == empty_records(),
        !db_volatile(r),
        db_all_decodable(r),
{
    PickleDb::new_yaml(path.as_str(), PickleDbDumpPolicy::AutoDump)
}

/// Relies on pickledb::PickleDb::new_yaml: a freshly constructed store is
/// empty. The never-dump policy keeps all writes in memory only.
#[verifier::external_body]
fn db_new_volatile(path: &String) -> (r: PickleDb)
    ensures
        db_records(r) == empty_records(),
        db_volatile(r),
        db_all_decodable(r),
{
    PickleDb::new_yaml(path.as_str(), PickleDbDumpPolicy::NeverDump)
}

/// Relies on pickledb::PickleDb::load_yaml. The contents come from disk, so
/// nothing is known of the records of a loaded store. Caveat: pickledb reads
/// the file with an unchecked UTF-8 conversion, so loading a file that is
/// not UTF-8 panics inside the outside crate instead of returning its error.
#[verifier::external_body]
fn db_load_durable(path: &String) -> (r: Result<PickleDb, String>)
    ensures
        r matches Ok(db) ==> !db_volatile(db),
{
    PickleDb::load_yaml(path.as_str(), PickleDbDumpPolicy::AutoDump).map_err(|e| e.to_string())
}

/// Relies on pickledb::PickleDb::load_yaml, with writes kept in memory only.
/// The same non-UTF-8 panic caveat as the durable load applies.
#[verifier::external_body]
fn db_load_volatile(path: &String) -> (r: Result<PickleDb, String>)
    ensures
        r matches Ok(db) ==> db_volatile(db),
{
    PickleDb::load_yaml(path.as_str(), PickleDbDumpPolicy::NeverDump).map_err(|e| e.to_string())
}

/// Relies on std::path::Path::exists.
#[verifier::external_body]
fn path_exists(path: &String) -> (r: bool) {
    std::path::Path::new(path.as_str()).exists()
}

/// Relies on pickledb::PickleDb::set: on success the key now maps to the
/// record written; on failure the store rolls the write back (pickledb
/// restores the previous value when a dump fails), leaving the contents
/// unchanged. Serializing the record cannot fail and a volatile store never
/// dumps, so a write to a volatile store always succeeds. The dump policy is
/// never changed, and writing a decodable record keeps the store decodable.
#[verifier::external_body]
pub(crate) fn db_set_record(db: &mut PickleDb, signature: &String, info: &TransactionInfo) -> (r: Result<
    (),
    String,
>)
    ensures
        r is Ok ==> db_records(*final(db)) == db_records(*old(db)).insert(signature@, info@),
        r is Err ==> db_records(*final(db)) == db_records(*old(db)),
        db_volatile(*old(db)) ==> r is Ok,
        db_volatile(*final(db)) == db_volatile(*old(db)),
        db_all_decodable(*old(db)) ==> db_all_decodable(*final(db)),
{
    db.set(
        signature.as_str(),
        &(
            info.recipient.clone(),
            info.amount,
            info.new_stake_account_address.clone(),
            info.finalized,
            info.blockhash.clone(),
        ),
    ).map_err(|e| e.to_string())
}

/// Relies on pickledb::PickleDb::get: returns the decoded record under the
/// key, or nothing when the key is absent or its bytes do not decode.
#[verifier::external_body]
fn db_get_record(db: &PickleDb, signature: &String) -> (r: Option<TransactionInfo>)
    ensures
        r is Some <==> db_records(*db).dom().contains(signature@),
        r matches Some(info) ==> info@ == db_records(*db)[signature@],
{
    db.get::<(String, u64, String, bool, String)>(signature.as_str()).map(
        |t| TransactionInfo {
            recipient: t.0,
            amount: t.1,
            new_stake_account_address: t.2,
            finalized: t.3,
            blockhash: t.4,
        },
    )
}

/// Relies on pickledb::PickleDb::rem: on success the key is gone. On failure
/// pickledb restores the removed value, except that a store loaded from a
/// foreign file could hold the key on its list side too, whose later dump
/// failure leaves the value already removed; so an error leaves the contents
/// unchanged or with just this key removed. A volatile store never dumps, so
/// its removals always succeed. The dump policy is never changed, and
/// removing a record keeps the store decodable.
#[verifier::external_body]
pub(crate) fn db_remove_record(db: &mut PickleDb, signature: &String) -> (r: Result<
    bool,
    String,
>)
    ensures
        r is Ok ==> db_records(*final(db)) == db_records(*old(db)).remove(signature@),
        r is Err ==> db_records(*final(db)) == db_records(*old(db)) || db_records(*final(db))
            == db_records(*old(db)).remove(signature@),
        db_volatile(*old(db)) ==> r is Ok,
        db_volatile(*final(db)) == db_volatile(*old(db)),
        db_all_decodable(*old(db)) ==> db_all_decodable(*final(db)),
{
    db.rem(signature.as_str()).map_err(|e| e.to_string())
}

/// Relies on pickledb::PickleDb::iter: one item per stored key, keys
/// pairwise distinct, every record of the store listed; the order is the
/// store's hash-map order and nothing is promised of it. An item's record is
/// nothing when its bytes do not decode.
#[verifier::external_body]
fn db_record_list(db: &PickleDb) -> (r: Vec<(String, Option<TransactionInfo>)>)
    ensures
        forall|i: int|
            0 <= i < r@.len() ==> (#[trigger] r@[i].1 matches Some(info) ==> db_records(
                *db,
            ).dom().contains(r@[i].0@) && info@ == db_records(*db)[r@[i].0@]),
        forall|i: int|
            0 <= i < r@.len() ==> (#[trigger] r@[i].1 is None ==> !db_records(*db).dom().contains(
                r@[i].0@,
            )),
        forall|i: int, j: int| 0 <= i < j < r@.len() ==> r@[i].0@ != r@[j].0@,
        forall|k: Seq<char>|
            #[trigger] db_records(*db).dom().contains(k) ==> exists|i: int|
                0 <= i < r@.len() && r@[i].0@ == k,
        db_all_decodable(*db) ==> forall|i: int| 0 <= i < r@.len() ==> (#[trigger] r@[i]).1
            is Some,
{
    db.iter().map(
        |kv| (
            kv.get_key().to_string(),
            kv.get_value::<(String, u64, String, bool, String)>().map(
                |t| TransactionInfo {
                    recipient: t.0,
                    amount: t.1,
                    new_stake_account_address: t.2,
                    finalized: t.3,
                    blockhash: t.4,
                },
            ),
        ),
    ).collect()
}

/// The read list holds exactly the records of the map: every entry is a
/// record of the map, keys are pairwise distinct, and every key of the map
/// appears.
pub open spec fn list_matches_records(
    list: Seq<(String, TransactionInfo)>,
    m: Map<Seq<char>, RecordView>,
) -> bool {
    &&& forall|i: int|
        0 <= i < list.len() ==> m.dom().contains(#[trigger] list[i].0@) && m[list[i].0@]
            == list[i].1@
    &&& forall|i: int, j: int| 0 <= i < j < list.len() ==> list[i].0@ != list[j].0@
    &&& forall|k: Seq<char>|
        #[trigger] m.dom().contains(k) ==> exists|i: int| 0 <= i < list.len() && list[i].0@ == k
}

/// Opens the ledger at `path`: loads it when the file exists, creates it
/// otherwise. With `dry_run` set, writes are kept in memory only, so no side
/// effect of the run survives the process.
pub fn open_db(path: &String, dry_run: bool) -> (r: Result<PickleDb, Error>)
    ensures
        r matches Ok(db) ==> (db_volatile(db) <==> dry_run),
{
    if path_exists(path) {
        let loaded = if dry_run {
            db_load_volatile(path)
        } else {
            db_load_durable(path)
        };
        match loaded {
            Ok(db) => Ok(db),
            Err(e) => Err(Error::PickleDbError(e)),
        }
    } else {
        if dry_run {
            Ok(db_new_volatile(path))
        } else {
            Ok(db_new_durable(path))
        }
    }
}

/// Writes the ledger record for one submitted transaction under its
/// signature: the recipient and amount of the allocation it pays, the new
/// stake account address if the submission created one, the finalized mark,
/// and the blockhash the transaction was signed against.
pub fn set_transaction_info(
    db: &mut PickleDb,
    allocation: &Allocation,
    signature: &String,
    blockhash: &String,
    new_stake_account_address: Option<&String>,
    finalized: bool,
) -> (r: Result<(), Error>)
    ensures
        r is Ok ==> db_records(*final(db)) == db_records(*old(db)).insert(
            signature@,
            (
                allocation.recipient@,
                allocation.amount,
                (match new_stake_account_address {
                    Some(addr) => addr@,
                    None => Seq::<char>::empty(),
                }),
                finalized,
                blockhash@,
            ),
        ),
        r is Err ==> db_records(*final(db)) == db_records(*old(db)),
        db_volatile(*old(db)) ==> r is Ok,
        db_volatile(*final(db)) == db_volatile(*old(db)),
        db_all_decodable(*old(db)) ==> db_all_decodable(*final(db)),
{
    let stake_address = match new_stake_account_address {
        Some(addr) => addr.clone(),
        None => String::new(),
    };
    let info = TransactionInfo {
        recipient: allocation.recipient.clone(),
        amount: allocation.amount,
        new_stake_account_address: stake_address,
        finalized,
        blockhash: blockhash.clone(),
    };
    match db_set_record(db, signature, &info) {
        Ok(()) => Ok(()),
        Err(e) => Err(Error::PickleDbError(e)),
    }
}

/// Reads the record stored under a signature, if any.
pub fn get_transaction_info(db: &PickleDb, signature: &String) -> (r: Option<TransactionInfo>)
    ensures
        r is Some <==> db_records(*db).dom().contains(signature@),
        r matches Some(info) ==> info@ == db_records(*db)[signature@],
{
    db_get_record(db, signature)
}

/// Reads every (signature, record) pair of the ledger, in no promised order.
/// Fails with a ledger error when a stored value does not decode as a record.
pub fn read_transaction_data(db: &PickleDb) -> (r: Result<Vec<(String, TransactionInfo)>, Error>)
    ensures
        r matches Ok(list) ==> list_matches_records(list@, db_records(*db)),
        db_all_decodable(*db) ==> r is Ok,
{
    let raw = db_record_list(db);
    let mut out: Vec<(String, TransactionInfo)> = Vec::new();
    let n: usize = raw.len();
    let mut i: usize = 0;
    while i < n
        invariant
            n == raw@.len(),
            0 <= i <= n,
            out@.len() == i,
            forall|j: int| 0 <= j < i ==> #[trigger] out@[j].0@ == raw@[j].0@,
            forall|j: int| 0 <= j < i ==> (#[trigger] raw@[j]).1 is Some,
            forall|j: int| 0 <= j < i ==> #[trigger] out@[j].1 == raw@[j].1->0,
            forall|j: int|
                0 <= j < raw@.len() ==> (#[trigger] raw@[j].1 matches Some(info) ==> db_records(
                    *db,
                ).dom().contains(raw@[j].0@) && info@ == db_records(*db)[raw@[j].0@]),
            forall|j: int, k: int| 0 <= j < k < raw@.len() ==> raw@[j].0@ != raw@[k].0@,
            forall|k: Seq<char>|
                #[trigger] db_records(*db).dom().contains(k) ==> exists|j: int|
                    0 <= j < raw@.len() && raw@[j].0@ == k,
            db_all_decodable(*db) ==> forall|j: int|
                0 <= j < raw@.len() ==> (#[trigger] raw@[j]).1 is Some,
        decreases n - i,
    {
        let key = raw[i].0.clone();
        match &raw[i].1 {
            Some(info) => {
                out.push((key, info.duplicate()));
                proof {
                    assert(raw@[i as int].1 is Some);
                    assert(out@[i as int].1 == raw@[i as int].1->0);
                    assert(out@[i as int].0@ == raw@[i as int].0@);
                }
            },
            None => {
                proof {
                    assert(!db_all_decodable(*db)) by {
                        if db_all_decodable(*db) {
                            assert(raw@[i as int].1 is Some);
                        }
                    }
                }
                return Err(Error::CorruptRecordError);
            },
        }
        i = i + 1;
    }
    proof {
        let m = db_records(*db);
        assert forall|j: int| 0 <= j < out@.len() implies m.dom().contains(
            #[trigger] out@[j].0@,
        ) && m[out@[j].0@] == out@[j].1@ by {
            assert(raw@[j].1 is Some);
            assert(m.dom().contains(raw@[j].0@) && raw@[j].1->0@ == m[raw@[j].0@]);
        }
        assert forall|k: Seq<char>| #[trigger] m.dom().contains(k) implies exists|j: int|
            0 <= j < out@.len() && out@[j].0@ == k by {
            let j = choose|j: int| 0 <= j < raw@.len() && raw@[j].0@ == k;
            assert(out@[j].0@ == k);
        }
    }
    Ok(out)
}

/// `rec` is the value of some record of the map.
pub open spec fn is_record_of(m: Map<Seq<char>, RecordView>, rec: RecordView) -> bool {
    exists|k: Seq<char>| m.dom().contains(k) && m[k] == rec
}

/// Some listed record has the value `rec`.
pub open spec fn some_info_equals(list: Seq<TransactionInfo>, rec: RecordView) -> bool {
    exists|i: int| 0 <= i < list.len() && list[i]@ == rec
}

/// Reads every record of the ledger, in no promised order.
pub fn read_transaction_infos(db: &PickleDb) -> (r: Result<Vec<TransactionInfo>, Error>)
    ensures
        r matches Ok(list) ==> forall|i: int|
            0 <= i < list@.len() ==> is_record_of(db_records(*db), #[trigger] list@[i]@),
        r matches Ok(list) ==> forall|k: Seq<char>|
            #[trigger] db_records(*db).dom().contains(k) ==> some_info_equals(
                list@,
                db_records(*db)[k],
            ),
        db_all_decodable(*db) ==> r is Ok,
{
    let data = match read_transaction_data(db) {
        Ok(d) => d,
        Err(e) => {
            return Err(e);
        },
    };
    let mut out: Vec<TransactionInfo> = Vec::new();
    let n: usize = data.len();
    let mut i: usize = 0;
    while i < n
        invariant
            n == data@.len(),
            0 <= i <= n,
            out@.len() == i,
            forall|j: int| 0 <= j < i ==> #[trigger] out@[j]@ == data@[j].1@,
            list_matches_records(data@, db_records(*db)),
        decreases n - i,
    {
        out.push(data[i].1.duplicate());
        i = i + 1;
    }
    proof {
        let m = db_records(*db);
        assert forall|j: int| 0 <= j < out@.len() implies is_record_of(
            m,
            #[trigger] out@[j]@,
        ) by {
            let k0 = data@[j].0@;
            assert(m.dom().contains(k0));
            assert(m[k0] == out@[j]@);
        }
        assert forall|k: Seq<char>| #[trigger] m.dom().contains(k) implies some_info_equals(
            out@,
            m[k],
        ) by {
            let j = choose|j: int| 0 <= j < data@.len() && data@[j].0@ == k;
            assert(0 <= j < out@.len() && out@[j]@ == m[k]);
        }
    }
    Ok(out)
}

} // verus!
