//! The engine's side of the database: its column families and options, what
//! it makes of the replies of reads and writes, and the decisions of a
//! prefix scan. The database handle is held and called by the caller.
use vstd::prelude::*;
use vstd::utf8::{valid_utf8, decode_utf8};
use crate::errors::RobustMQError;
use crate::storage::codec::{
    byte_array_json, json_byte_array_parse, parse_byte_array_json, lemma_byte_array_json_valid_utf8,
};

verus! {

/// The column family that holds the cluster's data.
pub const DB_COLUMN_FAMILY_CLUSTER: &'static str = "cluster";

/// The directory of the database under the data directory `data_path`.
pub fn db_path(data_path: &str) -> (r: String)
    ensures
        r@ == data_path@ + "/"@ + "_storage_rocksdb"@,
{
    let mut r = String::from_str(data_path);
    r.append("/");
    r.append("_storage_rocksdb");
    r
}

/// The names of the column families the engine keeps.
pub open spec fn column_families() -> Seq<Seq<char>> {
    seq![DB_COLUMN_FAMILY_CLUSTER@]
}

/// The names held by a list of strings.
pub open spec fn names(list: Seq<String>) -> Seq<Seq<char>> {
    list.map_values(|s: String| s@)
}

/// The column families the engine keeps.
pub fn column_family_list() -> (r: Vec<String>)
    ensures
        names(r@) == column_families(),
{
    let mut list: Vec<String> = Vec::new();
    list.push(String::from_str(DB_COLUMN_FAMILY_CLUSTER));
    assert(names(list@) =~= column_families());
    list
}

/// The families the engine keeps that are not among `existing`, in the
/// engine's order.
pub open spec fn families_to_create(existing: Seq<Seq<char>>) -> Seq<Seq<char>> {
    column_families().filter(|g: Seq<char>| !existing.contains(g))
}

/// Whether `name` is one of `list`.
fn contains_name(list: &Vec<String>, name: &String) -> (r: bool)
    ensures
        r == names(list@).contains(name@),
{
    let mut i: usize = 0;
    while i < list.len()
        invariant
            i <= list@.len(),
            forall|j: int| 0 <= j < i ==> names(list@)[j] != name@,
        decreases list@.len() - i,
    {
        if list[i] == *name {
            assert(names(list@)[i as int] == name@);
            return true;
        }
        i = i + 1;
    }
    proof {
        if names(list@).contains(name@) {
            let j = choose|j: int| 0 <= j < names(list@).len() && names(list@)[j] == name@;
            assert(names(list@)[j] != name@);
        }
    }
    false
}

/// The column families that an opened database lacks and the engine
/// creates, given those that the database lists, in the engine's order.
pub fn missing_column_families(cf_list: &Vec<String>) -> (r: Vec<String>)
    ensures
        names(r@) == families_to_create(names(cf_list@)),
{
    let families = column_family_list();
    let mut missing: Vec<String> = Vec::new();
    let mut i: usize = 0;
    while i < families.len()
        invariant
            i <= families@.len(),
            names(families@) == column_families(),
            names(missing@) == column_families().take(i as int).filter(
                |g: Seq<char>| !names(cf_list@).contains(g),
            ),
        decreases families@.len() - i,
    {
        let family = families[i].clone();
        proof {
            reveal(Seq::filter);
            assert(column_families().take(i + 1).drop_last() =~= column_families().take(i as int));
            assert(names(families@)[i as int] == family@);
        }
        if !contains_name(cf_list, &family) {
            missing.push(family);
        }
        assert(names(missing@) =~= column_families().take(i + 1).filter(
            |g: Seq<char>| !names(cf_list@).contains(g),
        ));
        i = i + 1;
    }
    assert(column_families().take(families@.len() as int) =~= column_families());
    missing
}

/// Once the families that an opened database lacks are created, it holds
/// every family the engine keeps, and none of those created was there before.
pub proof fn lemma_missing_families_complete(existing: Seq<Seq<char>>)
    ensures
        forall|f: Seq<char>| #[trigger] column_families().contains(f) ==> existing.contains(f)
            || families_to_create(existing).contains(f),
        forall|f: Seq<char>| #[trigger] families_to_create(existing).contains(f)
            ==> column_families().contains(f) && !existing.contains(f),
{
    let pred = |g: Seq<char>| !existing.contains(g);
    let kept = families_to_create(existing);
    assert(kept == column_families().filter(pred));
    assert forall|f: Seq<char>| #[trigger] column_families().contains(f) implies existing.contains(f)
        || kept.contains(f) by {
        if !existing.contains(f) {
            let i = choose|i: int| 0 <= i < column_families().len() && column_families()[i] == f;
            column_families().lemma_filter_contains(pred, i);
        }
    }
    assert forall|f: Seq<char>| #[trigger] kept.contains(f) implies column_families().contains(f)
        && !existing.contains(f) by {
        let i = choose|i: int| 0 <= i < kept.len() && kept[i] == f;
        column_families().lemma_filter_pred(pred, i);
        column_families().lemma_filter_contains_rev(pred, f);
    }
}

/// How the engine compacts its files.
#[derive(Debug, Clone, Copy, PartialEq, Eq)]
pub enum CompactionStyle {
    Level,
    Universal,
    Fifo,
}

/// The options the engine opens its database with. The bloom ratio of the
/// memtable prefix, a float, is set by the caller beside these.
#[derive(Debug, Clone, Copy, PartialEq, Eq)]
pub struct DbOptions {
    pub create_if_missing: bool,
    pub create_missing_column_families: bool,
    pub max_open_files: i32,
    pub use_fsync: bool,
    pub bytes_per_sync: u64,
    pub point_lookup_block_cache_mb: u64,
    pub table_cache_num_shard_bits: i32,
    pub max_write_buffer_number: i32,
    pub write_buffer_size: usize,
    pub target_file_size_base: u64,
    pub min_write_buffer_number_to_merge: i32,
    pub level_zero_stop_writes_trigger: i32,
    pub level_zero_slowdown_writes_trigger: i32,
    pub compaction_style: CompactionStyle,
    pub disable_auto_compactions: bool,
    pub fixed_prefix_len: usize,
}

/// The options the engine opens its database with.
pub fn open_db_opts() -> (r: DbOptions)
    ensures
        r.create_if_missing,
        r.create_missing_column_families,
        r.max_open_files == 1000,
        !r.use_fsync,
        r.bytes_per_sync == 8388608,
        r.point_lookup_block_cache_mb == 1024,
        r.table_cache_num_shard_bits == 6,
        r.max_write_buffer_number == 32,
        r.write_buffer_size == 536870912,
        r.target_file_size_base == 1073741824,
        r.min_write_buffer_number_to_merge == 4,
        r.level_zero_stop_writes_trigger == 2000,
        r.level_zero_slowdown_writes_trigger == 0,
        r.compaction_style == CompactionStyle::Universal,
        r.disable_auto_compactions,
        r.fixed_prefix_len == 10,
{
    DbOptions {
        create_if_missing: true,
        create_missing_column_families: true,
        max_open_files: 1000,
        use_fsync: false,
        bytes_per_sync: 8388608,
        point_lookup_block_cache_mb: 1024,
        table_cache_num_shard_bits: 6,
        max_write_buffer_number: 32,
        write_buffer_size: 536870912,
        target_file_size_base: 1073741824,
        min_write_buffer_number_to_merge: 4,
        level_zero_stop_writes_trigger: 2000,
        level_zero_slowdown_writes_trigger: 0,
        compaction_style: CompactionStyle::Universal,
        disable_auto_compactions: true,
        fixed_prefix_len: 10,
    }
}

/// The debug text of the error that `String::from_utf8` gives for `bytes`.
pub uninterp spec fn utf8_error_text(bytes: Seq<u8>) -> Seq<char>;

/// Reads `bytes` as UTF-8 text with `String::from_utf8`; on refusal the
/// error's debug text is returned, named by `utf8_error_text`.
#[verifier::external_body]
fn string_from_utf8(bytes: Vec<u8>) -> (r: Result<String, String>)
    ensures
        r is Ok <==> valid_utf8(bytes@),
        r matches Ok(s) ==> s@ == decode_utf8(bytes@),
        r matches Err(e) ==> e@ == utf8_error_text(bytes@),
{
    String::from_utf8(bytes).map_err(|e| format!("{:?}", e))
}

/// Reads `bytes` as UTF-8 text.
pub fn utf8_text(bytes: &[u8]) -> (r: Option<String>)
    ensures
        r is Some <==> valid_utf8(bytes@),
        r matches Some(s) ==> s@ == decode_utf8(bytes@),
{
    match string_from_utf8(vstd::slice::slice_to_vec(bytes)) {
        Ok(s) => Some(s),
        Err(_) => None,
    }
}

/// The message of a read that the database refused.
pub open spec fn get_failure(detail: Seq<char>) -> Seq<char> {
    "Failed to get from ColumnFamily: "@ + detail
}

/// The message for a stored value that is not UTF-8 text.
pub open spec fn text_failure(detail: Seq<char>) -> Seq<char> {
    "Failed to deserialize: "@ + detail
}

/// The message for a stored text that does not parse.
pub open spec fn parse_failure(detail: Seq<char>) -> Seq<char> {
    "Failed to deserialize value to T. err: "@ + detail
}

/// The message of a write that the database refused.
pub open spec fn put_failure(detail: Seq<char>) -> Seq<char> {
    "Failed to put to ColumnFamily:"@ + detail
}

/// Prefixes `detail` with `start`.
fn message(start: &str, detail: &str) -> (r: String)
    ensures
        r@ == start@ + detail@,
{
    let mut r = String::from_str(start);
    r.append(detail);
    r
}

/// What a read gives before the stored text is parsed, from the database's
/// reply: its error's debug text, no value, or the stored bytes, which must
/// be UTF-8 text.
pub fn read_text(stored: Result<Option<Vec<u8>>, String>) -> (r: Result<Option<String>, String>)
    ensures
        match stored {
            Err(e) => r matches Err(m) && m@ == get_failure(e@),
            Ok(None) => r matches Ok(None),
            Ok(Some(b)) => if valid_utf8(b@) {
                r matches Ok(Some(s)) && s@ == decode_utf8(b@)
            } else {
                r matches Err(m) && m@ == text_failure(utf8_error_text(b@))
            },
        },
{
    match stored {
        Err(e) => Err(message("Failed to get from ColumnFamily: ", e.as_str())),
        Ok(None) => Ok(None),
        Ok(Some(found)) => match string_from_utf8(found) {
            Ok(s) => Ok(Some(s)),
            Err(e) => Err(message("Failed to deserialize: ", e.as_str())),
        },
    }
}

/// What a read gives once the stored text has been parsed: the value, or
/// the parse's error with its debug text.
pub fn read_parsed<T>(parsed: Result<T, String>) -> (r: Result<Option<T>, String>)
    ensures
        match parsed {
            Ok(v) => r matches Ok(Some(w)) && w == v,
            Err(d) => r matches Err(m) && m@ == parse_failure(d@),
        },
{
    match parsed {
        Ok(v) => Ok(Some(v)),
        Err(d) => Err(message("Failed to deserialize value to T. err: ", d.as_str())),
    }
}

/// What a read of a stored byte string gives, from the database's reply:
/// its error's debug text, no value, or the stored bytes, which must be
/// UTF-8 text holding a JSON array of bytes.
pub fn read_bytes(stored: Result<Option<Vec<u8>>, String>) -> (r: Result<Option<Vec<u8>>, String>)
    ensures
        match stored {
            Err(e) => r matches Err(m) && m@ == get_failure(e@),
            Ok(None) => r matches Ok(None),
            Ok(Some(b)) => {
                &&& !valid_utf8(b@) ==> (r matches Err(m) && m@ == text_failure(utf8_error_text(b@)))
                &&& valid_utf8(b@) ==> match json_byte_array_parse(b@) {
                    Ok(x) => r matches Ok(Some(v)) && v@ == x,
                    Err(d) => r matches Err(m) && m@ == parse_failure(d),
                }
                &&& forall|x: Seq<u8>| #[trigger] byte_array_json(x) == b@ ==> (r matches Ok(Some(v)) && v@ == x)
            },
        },
{
    match stored {
        Err(e) => Err(message("Failed to get from ColumnFamily: ", e.as_str())),
        Ok(None) => Ok(None),
        Ok(Some(found)) => {
            let ghost b = found@;
            proof {
                assert forall|x: Seq<u8>| #[trigger] byte_array_json(x) == b implies valid_utf8(b) by {
                    lemma_byte_array_json_valid_utf8(x);
                }
            }
            let copy = found.clone();
            match string_from_utf8(copy) {
                Err(e) => Err(message("Failed to deserialize: ", e.as_str())),
                Ok(_) => match parse_byte_array_json(found.as_slice()) {
                    Ok(v) => Ok(Some(v)),
                    Err(e) => Err(message("Failed to deserialize value to T. err: ", e.as_str())),
                },
            }
        },
    }
}

/// What a write gives, from the database's reply to the put: its error's
/// debug text, or nothing.
pub fn write_reply(put: Result<(), String>) -> (r: Result<(), String>)
    ensures
        match put {
            Ok(()) => r is Ok,
            Err(e) => r matches Err(m) && m@ == put_failure(e@),
        },
{
    match put {
        Ok(()) => Ok(()),
        Err(e) => Err(message("Failed to put to ColumnFamily:", e.as_str())),
    }
}

/// What a delete gives, from the database's reply: its error's message, or
/// nothing.
pub fn delete_reply(deleted: Result<(), String>) -> (r: Result<(), RobustMQError>)
    ensures
        match deleted {
            Ok(()) => r is Ok,
            Err(e) => r matches Err(RobustMQError::RocksdbError(m)) && m@ == e@,
        },
{
    match deleted {
        Ok(()) => Ok(()),
        Err(e) => Err(RobustMQError::RocksdbError(e)),
    }
}

} // verus!
