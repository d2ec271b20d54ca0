//! The storage engine's operations on the cluster's column family: what each
//! gives back from the database's reply, and how a value is written.
use vstd::prelude::*;
use crate::errors::RobustMQError;
use crate::storage::StorageDataWrap;
use crate::storage::codec::record_json;
use crate::storage::rocksdb::{DB_COLUMN_FAMILY_CLUSTER, put_failure, write_reply, delete_reply};

verus! {

/// Whether the engine keeps the column family named `rocksdb_cluster`; an
/// unknown family is refused as `ClusterNoAvailableNode`.
pub fn check_column_family(rocksdb_cluster: &str) -> (r: Result<(), RobustMQError>)
    ensures
        r is Ok <==> rocksdb_cluster@ == DB_COLUMN_FAMILY_CLUSTER@,
        r matches Err(e) ==> e is ClusterNoAvailableNode,
{
    let asked = String::from_str(rocksdb_cluster);
    let kept = String::from_str(DB_COLUMN_FAMILY_CLUSTER);
    if asked == kept {
        Ok(())
    } else {
        Err(RobustMQError::ClusterNoAvailableNode)
    }
}

/// The record that a save writes for a value whose JSON text is `content`.
pub fn engine_save_record(content: Vec<u8>) -> (r: Vec<u8>)
    ensures
        r@ == record_json(content@),
{
    let data = StorageDataWrap::new(content);
    data.to_json()
}

/// What a save gives, from the database's reply to the put of the record:
/// nothing, or a common error with the put's message.
pub fn engine_save_reply(put: Result<(), String>) -> (r: Result<(), RobustMQError>)
    ensures
        match put {
            Ok(()) => r is Ok,
            Err(e) => r matches Err(RobustMQError::CommmonError(m)) && m@ == put_failure(e@),
        },
{
    match write_reply(put) {
        Ok(()) => Ok(()),
        Err(m) => Err(RobustMQError::CommmonError(m)),
    }
}

/// What a read of `key_name` in the cluster's family gives, from what the
/// record read gave: the record or nothing, or a common error carrying the
/// read's message.
pub fn engine_get_by_cluster(read: Result<Option<StorageDataWrap>, String>) -> (r: Result<Option<StorageDataWrap>, RobustMQError>)
    ensures
        match read {
            Ok(found) => r matches Ok(x) && x == found,
            Err(m) => r matches Err(RobustMQError::CommmonError(e)) && e@ == m@,
        },
{
    match read {
        Ok(found) => Ok(found),
        Err(m) => Err(RobustMQError::CommmonError(m)),
    }
}

/// What an existence check in the cluster's family gives: the database's
/// answer whether the key exists.
pub fn engine_exists_by_cluster(key_exists: bool) -> (r: Result<bool, RobustMQError>)
    ensures
        r matches Ok(b) && b == key_exists,
{
    Ok(key_exists)
}

/// What a delete in the cluster's family gives, from the database's reply.
pub fn engine_delete_by_cluster(deleted: Result<(), String>) -> (r: Result<(), RobustMQError>)
    ensures
        match deleted {
            Ok(()) => r is Ok,
            Err(e) => r matches Err(RobustMQError::RocksdbError(m)) && m@ == e@,
        },
{
    delete_reply(deleted)
}

/// The records among the outcomes of parsing a listing's values, in order.
pub open spec fn parsed_records(parsed: Seq<Result<StorageDataWrap, String>>) -> Seq<StorageDataWrap>
    decreases parsed.len(),
{
    if parsed.len() == 0 {
        seq![]
    } else {
        let before = parsed_records(parsed.drop_last());
        match parsed.last() {
            Ok(w) => before.push(w),
            Err(_) => before,
        }
    }
}

/// Listing the outcomes of two scans one after the other gives the records
/// of the first, then those of the second; an outcome that parsed lists its
/// record, one that did not lists nothing. So the listing holds every record
/// that parsed, each once, in order, however many there are.
pub proof fn lemma_prefix_list_keeps_every_record(
    a: Seq<Result<StorageDataWrap, String>>,
    b: Seq<Result<StorageDataWrap, String>>,
    w: StorageDataWrap,
    e: String,
)
    ensures
        parsed_records(a + b) == parsed_records(a) + parsed_records(b),
        parsed_records(seq![Ok(w)]) == seq![w],
        parsed_records(seq![Err::<StorageDataWrap, String>(e)]) == Seq::<StorageDataWrap>::empty(),
    decreases b.len(),
{
    let one: Seq<Result<StorageDataWrap, String>> = seq![Ok(w)];
    assert(one.drop_last() =~= Seq::<Result<StorageDataWrap, String>>::empty());
    assert(parsed_records(one.drop_last()) =~= Seq::<StorageDataWrap>::empty());
    assert(one.last() == Ok::<StorageDataWrap, String>(w));
    assert(parsed_records(one) =~= seq![w]);
    let none: Seq<Result<StorageDataWrap, String>> = seq![Err(e)];
    assert(none.drop_last() =~= Seq::<Result<StorageDataWrap, String>>::empty());
    assert(parsed_records(none.drop_last()) =~= Seq::<StorageDataWrap>::empty());
    assert(none.last() == Err::<StorageDataWrap, String>(e));
    assert(parsed_records(none) =~= Seq::<StorageDataWrap>::empty());
    if b.len() == 0 {
        assert(a + b =~= a);
        assert(parsed_records(a) + parsed_records(b) =~= parsed_records(a));
    } else {
        lemma_prefix_list_keeps_every_record(a, b.drop_last(), w, e);
        assert((a + b).drop_last() =~= a + b.drop_last());
        assert((a + b).last() == b.last());
        match b.last() {
            Ok(x) => {
                assert(parsed_records(a + b) =~= parsed_records(a) + parsed_records(b));
            },
            Err(_) => {
                assert(parsed_records(a + b) =~= parsed_records(a) + parsed_records(b));
            },
        }
    }
}

/// What a prefix listing in the cluster's family gives, from the outcomes of
/// parsing the values that the prefix scan kept, in order: the records,
/// passing over the values that did not parse.
pub fn engine_prefix_list_by_cluster(parsed: Vec<Result<StorageDataWrap, String>>) -> (r: Result<Vec<StorageDataWrap>, RobustMQError>)
    ensures
        r matches Ok(list) && list@ == parsed_records(parsed@),
{
    let mut result: Vec<StorageDataWrap> = Vec::new();
    for p in it: parsed.into_iter()
        invariant
            it.seq() == parsed@,
            result@ == parsed_records(parsed@.take(it.index() as int)),
    {
        assert(parsed@.take(it.index() + 1).drop_last() =~= parsed@.take(it.index() as int));
        match p {
            Ok(w) => {
                result.push(w);
            },
            Err(_) => {},
        }
    }
    assert(parsed@.take(parsed@.len() as int) =~= parsed@);
    Ok(result)
}

} // verus!
