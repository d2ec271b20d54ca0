//! The decisions of a prefix scan. The caller seeks the database's iterator
//! to the search key and hands each entry it meets to `read_prefix_step`,
//! which says whether to keep it, to pass over it, or to stop; after a kept
//! or passed entry the caller advances the iterator.
use vstd::prelude::*;
use vstd::utf8::{valid_utf8, decode_utf8, encode_utf8};

verus! {

/// What a prefix scan does with the entry it is at.
#[derive(Debug)]
pub enum ScanStep {
    /// Pass over the entry and move on: its key or value is missing, or its
    /// key starts with the search key but is not UTF-8 text.
    Skip,
    /// The key does not start with the search key: the scan ends.
    Stop,
    /// The key starts with the search key: keep the entry, as text and
    /// bytes, and move on.
    Keep(String, Vec<u8>),
}

/// The decision of a scan for `prefix` at an entry with key `key`.
#[derive(Debug, Clone, Copy, PartialEq, Eq)]
pub enum ScanDecision {
    Skip,
    Stop,
    Keep,
}

/// What a scan for `prefix` decides at an entry with key `key`: stop at a
/// key without the prefix, pass over one that is not UTF-8, keep the rest.
pub open spec fn scan_decision(prefix: Seq<u8>, key: Seq<u8>) -> ScanDecision {
    if !has_prefix(key, prefix) {
        ScanDecision::Stop
    } else if !valid_utf8(key) {
        ScanDecision::Skip
    } else {
        ScanDecision::Keep
    }
}

/// Whether `key` starts with `prefix`.
pub open spec fn has_prefix(key: Seq<u8>, prefix: Seq<u8>) -> bool {
    prefix.is_prefix_of(key)
}

/// Whether `key` starts with `prefix`.
fn starts_with_bytes(key: &[u8], prefix: &[u8]) -> (r: bool)
    ensures
        r == has_prefix(key@, prefix@),
{
    if prefix.len() > key.len() {
        return false;
    }
    let mut i: usize = 0;
    while i < prefix.len()
        invariant
            i <= prefix@.len() <= key@.len(),
            forall|j: int| 0 <= j < i ==> key@[j] == prefix@[j],
        decreases prefix@.len() - i,
    {
        if key[i] != prefix[i] {
            assert(key@.subrange(0, prefix@.len() as int)[i as int] != prefix@[i as int]);
            return false;
        }
        i = i + 1;
    }
    assert(prefix@ =~= key@.subrange(0, prefix@.len() as int));
    true
}

/// Decides what a scan for keys that start with `search_key` does with the
/// entry `(key, value)` that the iterator is at.
pub fn read_prefix_step(search_key: &str, key: Option<&[u8]>, value: Option<&[u8]>) -> (r: ScanStep)
    ensures
        match (key, value) {
            (Some(k), Some(v)) => match scan_decision(encode_utf8(search_key@), k@) {
                ScanDecision::Stop => r is Stop,
                ScanDecision::Skip => r is Skip,
                ScanDecision::Keep => r matches ScanStep::Keep(s, val) && s@ == decode_utf8(k@)
                    && val@ == v@,
            },
            _ => r is Skip,
        },
{
    match (key, value) {
        (Some(k), Some(v)) => {
            if !starts_with_bytes(k, search_key.as_bytes()) {
                return ScanStep::Stop;
            }
            match crate::storage::rocksdb::utf8_text(k) {
                Some(text) => ScanStep::Keep(text, vstd::slice::slice_to_vec(v)),
                None => ScanStep::Skip,
            }
        },
        _ => ScanStep::Skip,
    }
}

/// The bytewise order of keys, in which the database keeps them.
pub open spec fn lex_lt(a: Seq<u8>, b: Seq<u8>) -> bool
    decreases a.len(),
{
    if b.len() == 0 {
        false
    } else if a.len() == 0 {
        true
    } else if a[0] != b[0] {
        a[0] < b[0]
    } else {
        lex_lt(a.drop_first(), b.drop_first())
    }
}

/// `a` comes no later than `b` in the bytewise order.
pub open spec fn lex_le(a: Seq<u8>, b: Seq<u8>) -> bool {
    a == b || lex_lt(a, b)
}

/// The entries that a scan for `prefix` keeps when it meets `entries` in
/// turn, deciding at each by `scan_decision`: it keeps and passes over
/// entries until the first key without the prefix.
pub open spec fn prefix_scan(prefix: Seq<u8>, entries: Seq<(Seq<u8>, Seq<u8>)>) -> Seq<(Seq<u8>, Seq<u8>)>
    decreases entries.len(),
{
    if entries.len() == 0 {
        seq![]
    } else {
        match scan_decision(prefix, entries[0].0) {
            ScanDecision::Stop => seq![],
            ScanDecision::Skip => prefix_scan(prefix, entries.drop_first()),
            ScanDecision::Keep => seq![entries[0]] + prefix_scan(prefix, entries.drop_first()),
        }
    }
}

/// The entries whose key starts with `prefix` and is UTF-8 text, in their
/// order.
pub open spec fn entries_with_prefix(prefix: Seq<u8>, entries: Seq<(Seq<u8>, Seq<u8>)>) -> Seq<(Seq<u8>, Seq<u8>)>
    decreases entries.len(),
{
    if entries.len() == 0 {
        seq![]
    } else if has_prefix(entries[0].0, prefix) && valid_utf8(entries[0].0) {
        seq![entries[0]] + entries_with_prefix(prefix, entries.drop_first())
    } else {
        entries_with_prefix(prefix, entries.drop_first())
    }
}

/// What an iterator sought to `prefix` yields: keys in strictly increasing
/// bytewise order, none before `prefix`.
pub open spec fn sought_from(prefix: Seq<u8>, entries: Seq<(Seq<u8>, Seq<u8>)>) -> bool {
    &&& forall|i: int, j: int| 0 <= i < j < entries.len() ==> lex_lt(#[trigger] entries[i].0, #[trigger] entries[j].0)
    &&& forall|i: int| 0 <= i < entries.len() ==> lex_le(prefix, #[trigger] entries[i].0)
}

/// A key at or after `prefix` that does not start with it comes after every
/// key that does.
proof fn lemma_past_prefix_block(prefix: Seq<u8>, k0: Seq<u8>, k: Seq<u8>)
    requires
        lex_le(prefix, k0),
        !has_prefix(k0, prefix),
        lex_lt(k0, k),
    ensures
        !has_prefix(k, prefix),
    decreases prefix.len(),
{
    if prefix.len() == 0 {
        assert(prefix =~= k0.subrange(0, 0));
    } else if k0.len() == 0 {
    } else if has_prefix(k, prefix) {
        assert(k[0] == k.subrange(0, prefix.len() as int)[0]);
        if prefix[0] != k0[0] {
            assert(prefix != k0);
        } else {
            let p1 = prefix.drop_first();
            let a1 = k0.drop_first();
            let b1 = k.drop_first();
            assert(p1 =~= b1.subrange(0, p1.len() as int)) by {
                assert forall|i: int| 0 <= i < p1.len() implies p1[i] == b1.subrange(0, p1.len() as int)[i] by {
                    assert(prefix[i + 1] == k.subrange(0, prefix.len() as int)[i + 1]);
                }
            }
            if has_prefix(a1, p1) {
                assert(prefix =~= k0.subrange(0, prefix.len() as int)) by {
                    assert forall|i: int| 0 <= i < prefix.len() implies prefix[i] == k0.subrange(0, prefix.len() as int)[i] by {
                        if i > 0 {
                            assert(p1[i - 1] == a1.subrange(0, p1.len() as int)[i - 1]);
                        }
                    }
                }
            }
            if prefix == k0 {
                assert(prefix =~= k0.subrange(0, prefix.len() as int));
            }
            assert(lex_le(p1, a1)) by {
                if p1 == a1 {
                } else {
                    assert(prefix != k0);
                }
            }
            lemma_past_prefix_block(p1, a1, b1);
        }
    }
}

/// Where no key starts with `prefix`, none is kept.
proof fn lemma_none_with_prefix(prefix: Seq<u8>, entries: Seq<(Seq<u8>, Seq<u8>)>)
    requires
        forall|i: int| 0 <= i < entries.len() ==> !has_prefix(#[trigger] entries[i].0, prefix),
    ensures
        entries_with_prefix(prefix, entries) == Seq::<(Seq<u8>, Seq<u8>)>::empty(),
    decreases entries.len(),
{
    if entries.len() > 0 {
        let rest = entries.drop_first();
        assert forall|i: int| 0 <= i < rest.len() implies !has_prefix(#[trigger] rest[i].0, prefix) by {
            assert(rest[i] == entries[i + 1]);
        }
        assert(!has_prefix(entries[0].0, prefix));
        lemma_none_with_prefix(prefix, rest);
    }
}

/// A scan that decides at each entry as `read_prefix_step` does keeps
/// exactly the entries whose key starts with the prefix and is UTF-8 text,
/// in key order, when it runs over what an iterator sought to the prefix
/// yields.
pub proof fn lemma_prefix_scan_keeps_all_with_prefix(prefix: Seq<u8>, entries: Seq<(Seq<u8>, Seq<u8>)>)
    requires
        sought_from(prefix, entries),
    ensures
        prefix_scan(prefix, entries) == entries_with_prefix(prefix, entries),
    decreases entries.len(),
{
    if entries.len() > 0 {
        let rest = entries.drop_first();
        assert(sought_from(prefix, rest)) by {
            assert forall|i: int, j: int| 0 <= i < j < rest.len() implies lex_lt(#[trigger] rest[i].0, #[trigger] rest[j].0) by {
                assert(rest[i] == entries[i + 1] && rest[j] == entries[j + 1]);
            }
            assert forall|i: int| 0 <= i < rest.len() implies lex_le(prefix, #[trigger] rest[i].0) by {
                assert(rest[i] == entries[i + 1]);
            }
        }
        if has_prefix(entries[0].0, prefix) {
            lemma_prefix_scan_keeps_all_with_prefix(prefix, rest);
        } else {
            assert(lex_le(prefix, entries[0].0));
            assert forall|i: int| 0 <= i < rest.len() implies !has_prefix(#[trigger] rest[i].0, prefix) by {
                assert(rest[i] == entries[i + 1]);
                assert(lex_lt(entries[0].0, entries[i + 1].0));
                lemma_past_prefix_block(prefix, entries[0].0, rest[i].0);
            }
            lemma_none_with_prefix(prefix, rest);
        }
    }
}

} // verus!
