//! Looking a path up in the flat index. Paths are compared exactly; where
//! several entries share a path, the first one wins.

use crate::error::WadError;
use crate::flat::{FlatEntry, FlatEntryView};
use vstd::prelude::*;

verus! {

/// True when some entry has the path `key`.
pub open spec fn has_match(entries: Seq<FlatEntryView>, key: Seq<char>) -> bool {
    exists|i: int| 0 <= i < entries.len() && (#[trigger] entries[i]).path == key
}

/// True when the entry at `i` has the path `key` and no entry before it has.
pub open spec fn is_first_match(entries: Seq<FlatEntryView>, key: Seq<char>, i: int) -> bool {
    &&& 0 <= i < entries.len()
    &&& entries[i].path == key
    &&& forall|j: int| 0 <= j < i ==> (#[trigger] entries[j]).path != key
}

/// The index of the first entry whose path is exactly `key`, if there is
/// one. Where several entries share a path, the first one wins.
pub open spec fn first_match(entries: Seq<FlatEntryView>, key: Seq<char>) -> Option<int> {
    if exists|i: int| is_first_match(entries, key, i) {
        Some(choose|i: int| is_first_match(entries, key, i))
    } else {
        None
    }
}

/// There is at most one first match, and [`first_match`] is it.
pub proof fn lemma_first_match_is(entries: Seq<FlatEntryView>, key: Seq<char>, i: int)
    requires
        is_first_match(entries, key, i),
    ensures
        first_match(entries, key) == Some(i),
{
}

/// A path that some entry has, has a first match; one that no entry has,
/// has none.
pub proof fn lemma_first_match_exists(entries: Seq<FlatEntryView>, key: Seq<char>)
    ensures
        has_match(entries, key) <==> first_match(entries, key) is Some,
        first_match(entries, key) matches Some(i) ==> is_first_match(entries, key, i),
{
    if has_match(entries, key) {
        let some = choose|i: int| 0 <= i < entries.len() && (#[trigger] entries[i]).path == key;
        lemma_least_match(entries, key, some);
    }
}

/// Below every match lies a first match.
proof fn lemma_least_match(entries: Seq<FlatEntryView>, key: Seq<char>, upto: int)
    requires
        0 <= upto < entries.len(),
        entries[upto].path == key,
    ensures
        exists|i: int| is_first_match(entries, key, i),
    decreases upto,
{
    if exists|j: int| 0 <= j < upto && (#[trigger] entries[j]).path == key {
        let below = choose|j: int| 0 <= j < upto && (#[trigger] entries[j]).path == key;
        lemma_least_match(entries, key, below);
    } else {
        assert(is_first_match(entries, key, upto));
    }
}

/// Looks `key` up in the flat index: the index of the first entry whose path
/// is exactly `key`, or `MissingIndexEntry` when no entry has that path.
pub fn find_entry(entries: &Vec<FlatEntry>, key: &String) -> (r: Result<usize, WadError>)
    ensures
        match r {
            Ok(i) => is_first_match(entries.deep_view(), key@, i as int),
            Err(e) => e == WadError::MissingIndexEntry && !has_match(entries.deep_view(), key@),
        },
        match first_match(entries.deep_view(), key@) {
            Some(i) => r == Ok::<usize, WadError>(i as usize),
            None => r == Err::<usize, WadError>(WadError::MissingIndexEntry),
        },
{
    let mut i: usize = 0;
    while i < entries.len()
        invariant
            i <= entries.len(),
            forall|j: int| 0 <= j < i ==> (#[trigger] entries.deep_view()[j]).path != key@,
        decreases entries.len() - i,
    {
        if entries[i].path == *key {
            proof {
                lemma_first_match_is(entries.deep_view(), key@, i as int);
            }
            return Ok(i);
        }
        i = i + 1;
    }
    proof {
        lemma_first_match_exists(entries.deep_view(), key@);
    }
    Err(WadError::MissingIndexEntry)
}

} // verus!
