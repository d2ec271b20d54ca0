//! The raft machine's storage state: the uncommitted indexes kept in the
//! database, and the hard state, configuration and snapshot metadata that
//! the raft log starts from.
use vstd::prelude::*;
use vstd::utf8::valid_utf8;
use std::collections::HashMap;
use crate::storage::codec::{json_byte_array_parse, byte_array_json};
use crate::storage::rocksdb::read_bytes;

verus! {

broadcast use vstd::std_specs::hash::group_hash_axioms;

/// The raft state that survives a restart: term, vote and commit index.
#[derive(Debug, Clone, Copy, PartialEq, Eq)]
pub struct HardState {
    pub term: u64,
    pub vote: u64,
    pub commit: u64,
}

impl Default for HardState {
    fn default() -> (r: Self)
        ensures
            r.term == 0 && r.vote == 0 && r.commit == 0,
    {
        HardState { term: 0, vote: 0, commit: 0 }
    }
}

/// The members of a raft group.
#[derive(Debug, Clone, PartialEq, Eq)]
pub struct ConfState {
    pub voters: Vec<u64>,
    pub learners: Vec<u64>,
    pub voters_outgoing: Vec<u64>,
    pub learners_next: Vec<u64>,
    pub auto_leave: bool,
}

/// Whether `c` is the empty configuration.
pub open spec fn is_empty_conf_state(c: ConfState) -> bool {
    &&& c.voters@ == Seq::<u64>::empty()
    &&& c.learners@ == Seq::<u64>::empty()
    &&& c.voters_outgoing@ == Seq::<u64>::empty()
    &&& c.learners_next@ == Seq::<u64>::empty()
    &&& !c.auto_leave
}

impl Default for ConfState {
    fn default() -> (r: Self)
        ensures
            is_empty_conf_state(r),
    {
        ConfState {
            voters: Vec::new(),
            learners: Vec::new(),
            voters_outgoing: Vec::new(),
            learners_next: Vec::new(),
            auto_leave: false,
        }
    }
}

/// Where a snapshot stands: the configuration, index and term it holds.
#[derive(Debug, Clone, PartialEq, Eq)]
pub struct SnapshotMetadata {
    pub conf_state: ConfState,
    pub index: u64,
    pub term: u64,
}

/// Whether `m` is the metadata of the empty snapshot.
pub open spec fn is_empty_snapshot_metadata(m: SnapshotMetadata) -> bool {
    is_empty_conf_state(m.conf_state) && m.index == 0 && m.term == 0
}

impl Default for SnapshotMetadata {
    fn default() -> (r: Self)
        ensures
            is_empty_snapshot_metadata(r),
    {
        SnapshotMetadata { conf_state: ConfState::default(), index: 0, term: 0 }
    }
}

/// The number that the eight bytes of `b` stand for, least significant
/// first.
pub open spec fn le_u64(b: Seq<u8>) -> int {
    b[0] as int + 0x100 * b[1] + 0x1_0000 * b[2] + 0x100_0000 * b[3] + 0x1_0000_0000 * b[4]
        + 0x100_0000_0000 * b[5] + 0x1_0000_0000_0000 * b[6] + 0x100_0000_0000_0000 * b[7]
}

/// The map that the first `n` entries of `b` give, each eight bytes of key
/// and one of value, a later key replacing an earlier one.
pub open spec fn bincode_entries(b: Seq<u8>, n: nat) -> Map<u64, i8>
    decreases n,
{
    if n == 0 {
        Map::empty()
    } else {
        let o = 9 * (n - 1);
        bincode_entries(b, (n - 1) as nat).insert(le_u64(b.subrange(o, o + 8)) as u64, b[o + 8] as i8)
    }
}

/// The map of uncommitted indexes that bincode reads from `bytes` as a
/// `HashMap<u64, i8>`: an eight-byte count, then that many entries; bytes
/// after them are left unread. `None` where the bytes run out.
pub open spec fn bincode_uncommit_index(bytes: Seq<u8>) -> Option<Map<u64, i8>> {
    if bytes.len() < 8 {
        None
    } else {
        let n = le_u64(bytes.take(8));
        if bytes.len() - 8 < 9 * n {
            None
        } else {
            Some(bincode_entries(bytes.skip(8), n as nat))
        }
    }
}

/// The eight bytes of `n`, least significant first.
pub open spec fn le_bytes(n: u64) -> Seq<u8> {
    seq![
        (n & 0xff) as u8,
        ((n >> 8u64) & 0xff) as u8,
        ((n >> 16u64) & 0xff) as u8,
        ((n >> 24u64) & 0xff) as u8,
        ((n >> 32u64) & 0xff) as u8,
        ((n >> 40u64) & 0xff) as u8,
        ((n >> 48u64) & 0xff) as u8,
        ((n >> 56u64) & 0xff) as u8,
    ]
}

/// The bytes of the entries `es` of a map as bincode writes them, in turn:
/// eight bytes of key and one of value each.
pub open spec fn bincode_entry_bytes(es: Seq<(u64, i8)>) -> Seq<u8>
    decreases es.len(),
{
    if es.len() == 0 {
        seq![]
    } else {
        bincode_entry_bytes(es.drop_last()) + le_bytes(es.last().0) + seq![es.last().1 as u8]
    }
}

/// The bytes of a map written by bincode as the entries `es`: their count,
/// then the entries.
pub open spec fn bincode_map_bytes(es: Seq<(u64, i8)>) -> Seq<u8> {
    le_bytes(es.len() as u64) + bincode_entry_bytes(es)
}

/// The map that holds the entries `es`, a later key replacing an earlier one.
pub open spec fn entries_map(es: Seq<(u64, i8)>) -> Map<u64, i8>
    decreases es.len(),
{
    if es.len() == 0 {
        Map::empty()
    } else {
        entries_map(es.drop_last()).insert(es.last().0, es.last().1)
    }
}

proof fn lemma_le_bytes_read(n: u64)
    ensures
        le_u64(le_bytes(n)) == n as int,
{
    let b = le_bytes(n);
    assert(n as int == (n & 0xff) as int + 0x100 * ((n >> 8u64) & 0xff) as int
        + 0x1_0000 * ((n >> 16u64) & 0xff) as int + 0x100_0000 * ((n >> 24u64) & 0xff) as int
        + 0x1_0000_0000 * ((n >> 32u64) & 0xff) as int + 0x100_0000_0000 * ((n >> 40u64) & 0xff) as int
        + 0x1_0000_0000_0000 * ((n >> 48u64) & 0xff) as int
        + 0x100_0000_0000_0000 * ((n >> 56u64) & 0xff) as int) by (bit_vector);
    assert((n & 0xff) < 256 && ((n >> 8u64) & 0xff) < 256 && ((n >> 16u64) & 0xff) < 256
        && ((n >> 24u64) & 0xff) < 256 && ((n >> 32u64) & 0xff) < 256 && ((n >> 40u64) & 0xff) < 256
        && ((n >> 48u64) & 0xff) < 256 && ((n >> 56u64) & 0xff) < 256) by (bit_vector);
}

proof fn lemma_entry_bytes_len(es: Seq<(u64, i8)>)
    ensures
        bincode_entry_bytes(es).len() == 9 * es.len(),
    decreases es.len(),
{
    if es.len() > 0 {
        lemma_entry_bytes_len(es.drop_last());
    }
}

/// Reading `n` entries looks at the first `9 * n` bytes only.
proof fn lemma_entries_prefix(b: Seq<u8>, c: Seq<u8>, n: nat)
    requires
        b.len() >= 9 * n,
    ensures
        bincode_entries(b + c, n) == bincode_entries(b, n),
    decreases n,
{
    if n > 0 {
        lemma_entries_prefix(b, c, (n - 1) as nat);
        let o = 9 * (n - 1);
        assert((b + c).subrange(o, o + 8) =~= b.subrange(o, o + 8));
        assert((b + c)[o + 8] == b[o + 8]);
    }
}

proof fn lemma_entries_read(es: Seq<(u64, i8)>)
    ensures
        bincode_entries(bincode_entry_bytes(es), es.len()) == entries_map(es),
    decreases es.len(),
{
    if es.len() > 0 {
        let front = es.drop_last();
        let (k, v) = es.last();
        let bf = bincode_entry_bytes(front);
        let tail = le_bytes(k) + seq![v as u8];
        lemma_entries_read(front);
        lemma_entry_bytes_len(front);
        let b = bincode_entry_bytes(es);
        assert(b =~= bf + tail);
        lemma_entries_prefix(bf, tail, front.len());
        let o = 9 * (es.len() - 1);
        assert(b.subrange(o, o + 8) =~= le_bytes(k));
        lemma_le_bytes_read(k);
        assert(b[o + 8] == v as u8);
        assert(((v as u8) as i8) == v) by (bit_vector);
    }
}

/// What bincode writes for a map is read back as that map: the count and the
/// entries of a map of any size, keys in any order, give the map they hold.
pub proof fn lemma_bincode_map_reads_back(es: Seq<(u64, i8)>)
    requires
        es.len() <= u64::MAX,
    ensures
        bincode_uncommit_index(bincode_map_bytes(es)) == Some(entries_map(es)),
{
    let bytes = bincode_map_bytes(es);
    lemma_entry_bytes_len(es);
    lemma_le_bytes_read(es.len() as u64);
    assert(bytes.take(8) =~= le_bytes(es.len() as u64));
    assert(bytes.skip(8) =~= bincode_entry_bytes(es));
    lemma_entries_read(es);
}

/// Reads a `HashMap<u64, i8>` with `bincode::deserialize`, whose format
/// `bincode_uncommit_index` states; the error is dropped.
#[verifier::external_body]
fn deserialize_uncommit_index(bytes: &[u8]) -> (r: Option<HashMap<u64, i8>>)
    ensures
        r is Some <==> bincode_uncommit_index(bytes@) is Some,
        r matches Some(m) ==> bincode_uncommit_index(bytes@) == Some(m@),
{
    bincode::deserialize::<HashMap<u64, i8>>(bytes).ok()
}

/// The uncommitted indexes that the database's reply for their key holds:
/// the map that the stored byte string encodes, and the empty map where
/// nothing is stored or it cannot be read.
pub open spec fn uncommit_index_value(stored: Result<Option<Vec<u8>>, String>) -> Map<u64, i8> {
    match stored {
        Ok(Some(b)) => if valid_utf8(b@) {
            match json_byte_array_parse(b@) {
                Ok(bytes) => match bincode_uncommit_index(bytes) {
                    Some(m) => m,
                    None => Map::empty(),
                },
                Err(_) => Map::empty(),
            }
        } else {
            Map::empty()
        },
        _ => Map::empty(),
    }
}

/// The raft machine's storage state.
pub struct RaftMachineStorage {
    pub uncommit_index: HashMap<u64, i8>,
    pub trigger_snap_unavailable: bool,
    pub snapshot_metadata: SnapshotMetadata,
}

impl RaftMachineStorage {
    /// The state at start: the uncommitted indexes read from the database's
    /// reply for their key, no snapshot requested, and the snapshot metadata
    /// that `create_snapshot_metadata` gives.
    pub fn new(uncommit_stored: Result<Option<Vec<u8>>, String>) -> (r: Self)
        ensures
            r.uncommit_index@ == uncommit_index_value(uncommit_stored),
            forall|es: Seq<(u64, i8)>|
                #![trigger bincode_map_bytes(es)]
                es.len() <= u64::MAX && (uncommit_stored matches Ok(Some(b)) && b@ == byte_array_json(
                    bincode_map_bytes(es),
                )) ==> r.uncommit_index@ == entries_map(es),
            !r.trigger_snap_unavailable,
            is_empty_snapshot_metadata(r.snapshot_metadata),
    {
        let mut rc = RaftMachineStorage {
            uncommit_index: HashMap::new(),
            trigger_snap_unavailable: false,
            snapshot_metadata: SnapshotMetadata::default(),
        };
        rc.uncommit_index = Self::uncommit_index(uncommit_stored);
        rc.snapshot_metadata = rc.create_snapshot_metadata();
        rc
    }

    /// The hard state, from what was decoded of the stored one: the default
    /// where none is stored.
    pub fn hard_state(decoded: Option<HardState>) -> (r: HardState)
        ensures
            match decoded {
                Some(h) => r == h,
                None => r.term == 0 && r.vote == 0 && r.commit == 0,
            },
    {
        match decoded {
            Some(h) => h,
            None => HardState::default(),
        }
    }

    /// The configuration, from what was decoded of the stored one: the empty
    /// one where none is stored.
    pub fn conf_state(decoded: Option<ConfState>) -> (r: ConfState)
        ensures
            match decoded {
                Some(c) => r == c,
                None => is_empty_conf_state(r),
            },
    {
        match decoded {
            Some(c) => c,
            None => ConfState::default(),
        }
    }

    /// The uncommitted indexes, from the database's reply for their key: the
    /// stored byte string is read as JSON and then as bincode; where either
    /// fails, or nothing is stored, the map is empty.
    pub fn uncommit_index(stored: Result<Option<Vec<u8>>, String>) -> (r: HashMap<u64, i8>)
        ensures
            r@ == uncommit_index_value(stored),
            forall|es: Seq<(u64, i8)>|
                #![trigger bincode_map_bytes(es)]
                es.len() <= u64::MAX && (stored matches Ok(Some(b)) && b@ == byte_array_json(
                    bincode_map_bytes(es),
                )) ==> r@ == entries_map(es),
    {
        let ghost st = stored;
        let read = read_bytes(stored);
        let ghost read_view = read;
        let r = match read {
            Ok(Some(value)) => match deserialize_uncommit_index(value.as_slice()) {
                Some(m) => m,
                None => HashMap::new(),
            },
            _ => HashMap::new(),
        };
        proof {
            assert forall|es: Seq<(u64, i8)>|
                #![trigger bincode_map_bytes(es)]
                es.len() <= u64::MAX && (st matches Ok(Some(b)) && b@ == byte_array_json(
                    bincode_map_bytes(es),
                )) implies r@ == entries_map(es) by {
                lemma_bincode_map_reads_back(es);
                assert(read_view matches Ok(Some(v)) && v@ == bincode_map_bytes(es));
            }
        }
        r
    }

    /// The metadata of a new snapshot: the empty one.
    pub fn create_snapshot_metadata(&self) -> (r: SnapshotMetadata)
        ensures
            is_empty_snapshot_metadata(r),
    {
        SnapshotMetadata::default()
    }
}

} // verus!
