//! Extraction as a whole: what the plan and the data section give together.

use crate::flat::FlatEntryView;
use crate::lookup::is_first_match;
use crate::payload::payload;
use crate::plan::{
    entry_paths, extraction_plan, file_paths, follows_index, lemma_matching_tables_extract_whole,
    skipped, written, ActionView,
};
use crate::tree::FolderView;
use vstd::prelude::*;

verus! {

/// True when each entry of the flat index marks bytes that lie within the
/// data section, which starts at `base`.
pub open spec fn entries_in_range(data: Seq<u8>, base: nat, entries: Seq<FlatEntryView>) -> bool {
    forall|i: int|
        0 <= i < entries.len() ==> {
            &&& 0 <= (#[trigger] entries[i]).offset
            &&& 0 <= entries[i].length
            &&& base + entries[i].offset + entries[i].length <= data.len()
        }
}

/// True when `action`, if it writes a file, writes the bytes that the first
/// entry with its path marks: the slice of the data section at that entry's
/// offset, byte for byte, of that entry's length.
pub open spec fn writes_what_is_stored(
    data: Seq<u8>,
    base: nat,
    entries: Seq<FlatEntryView>,
    action: ActionView,
) -> bool {
    action matches ActionView::WriteFile { path, offset, length } ==> exists|i: int|
        #![trigger entries[i]]
        {
            &&& is_first_match(entries, path, i)
            &&& offset == entries[i].offset
            &&& length == entries[i].length
            &&& payload(data, base, offset as int, length as int) matches Ok(bytes)
            &&& bytes.len() == entries[i].length
            &&& bytes == data.subrange(
                base + entries[i].offset,
                base + entries[i].offset + entries[i].length,
            )
        }
}

/// An archive whose folder table names exactly the files of its flat index,
/// and whose entries all lie within the data section, is extracted whole and
/// true: the plan writes as many files as the index has entries and skips
/// none, and each file is written with the bytes that its entry marks, as
/// many as the entry's length says.
pub proof fn lemma_extraction_round_trip(
    data: Seq<u8>,
    base: nat,
    entries: Seq<FlatEntryView>,
    folders: Seq<FolderView>,
)
    requires
        data.len() <= u64::MAX,
        file_paths(folders).to_multiset() == entry_paths(entries).to_multiset(),
        entries_in_range(data, base, entries),
    ensures
        written(extraction_plan(entries, folders)).len() == entries.len(),
        skipped(extraction_plan(entries, folders)).len() == 0,
        forall|k: int|
            0 <= k < extraction_plan(entries, folders).len() ==> writes_what_is_stored(
                data,
                base,
                entries,
                #[trigger] extraction_plan(entries, folders)[k],
            ),
{
    lemma_matching_tables_extract_whole(entries, folders);
    let plan = extraction_plan(entries, folders);
    assert forall|k: int| 0 <= k < plan.len() implies writes_what_is_stored(
        data,
        base,
        entries,
        #[trigger] plan[k],
    ) by {
        if let ActionView::WriteFile { path, offset, length } = plan[k] {
            let i = choose|i: int|
                #![trigger entries[i]]
                is_first_match(entries, path, i) && entries[i].offset == offset
                    && entries[i].length == length;
            let start = base + entries[i].offset;
            if length == 0 {
                assert(data.subrange(start, start) =~= Seq::<u8>::empty());
            }
        }
    }
}

} // verus!
