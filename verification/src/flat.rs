//! The flat index: for each file in the archive its path, its length and
//! where its bytes lie in the data section. This table alone says where
//! bytes are; the folder table says how files are laid out.

use crate::cursor::{
    item_count, lemma_repeat_failure_is_malformed, lemma_repeat_failure_persists, parse_i32,
    parse_repeat, parse_skip, parse_string, ByteCursor, Parsed,
};
use crate::error::WadError;
use vstd::prelude::*;

verus! {

/// The width of each of the two fields of an entry that are passed over.
pub const UNUSED_LEN: usize = 4;

/// One file of the archive, as the flat index records it.
#[derive(Debug, PartialEq, Eq)]
pub struct FlatEntry {
    /// The path of the file within the archive, with `/` between its parts.
    pub path: String,
    /// The number of bytes in the file.
    pub length: i32,
    /// Where the file starts, counted from the start of the data section.
    pub offset: i32,
}

/// A [`FlatEntry`] as specifications see it.
pub struct FlatEntryView {
    pub path: Seq<char>,
    pub length: i32,
    pub offset: i32,
}

impl View for FlatEntry {
    type V = FlatEntryView;

    open spec fn view(&self) -> FlatEntryView {
        FlatEntryView { path: self.path@, length: self.length, offset: self.offset }
    }
}

impl DeepView for FlatEntry {
    type V = FlatEntryView;

    open spec fn deep_view(&self) -> FlatEntryView {
        self@
    }
}

/// What decoding the flat index yields: the entries in stored order, and the
/// folder count that follows them in the stream.
#[derive(Debug, PartialEq, Eq)]
pub struct FlatIndex {
    /// The entries, in the order in which the archive stores them.
    pub entries: Vec<FlatEntry>,
    /// The number of folders in the folder table, as stored.
    pub folder_count: i32,
}

/// A [`FlatIndex`] as specifications see it.
pub struct FlatIndexView {
    pub entries: Seq<FlatEntryView>,
    pub folder_count: i32,
}

impl View for FlatIndex {
    type V = FlatIndexView;

    open spec fn view(&self) -> FlatIndexView {
        FlatIndexView { entries: self.entries.deep_view(), folder_count: self.folder_count }
    }
}

/// Reading one entry at `pos`: the path, the length, four bytes passed over,
/// the offset, four more bytes passed over.
pub open spec fn parse_flat_entry(data: Seq<u8>, pos: nat) -> Parsed<FlatEntryView> {
    match parse_string(data, pos) {
        Ok((path, length_at)) => match parse_i32(data, length_at) {
            Ok((length, gap_at)) => match parse_skip(data, gap_at, UNUSED_LEN as nat) {
                Ok((_, offset_at)) => match parse_i32(data, offset_at) {
                    Ok((offset, tail_at)) => match parse_skip(data, tail_at, UNUSED_LEN as nat) {
                        Ok((_, next)) => Ok((FlatEntryView { path, length, offset }, next)),
                        Err(e) => Err(e),
                    },
                    Err(e) => Err(e),
                },
                Err(e) => Err(e),
            },
            Err(e) => Err(e),
        },
        Err(e) => Err(e),
    }
}

/// Reading `count` entries one after another, starting at `pos`.
pub open spec fn parse_flat_entries(data: Seq<u8>, pos: nat, count: nat) -> Parsed<
    Seq<FlatEntryView>,
> {
    parse_repeat(|d: Seq<u8>, p: nat| parse_flat_entry(d, p), data, pos, count)
}

/// Reading the whole flat index at `pos`: as many entries as `file_count`
/// stands for, then the folder count.
pub open spec fn parse_flat_index(data: Seq<u8>, pos: nat, file_count: i32) -> Parsed<
    FlatIndexView,
> {
    match parse_flat_entries(data, pos, item_count(file_count)) {
        Ok((entries, count_at)) => match parse_i32(data, count_at) {
            Ok((folder_count, next)) => Ok((FlatIndexView { entries, folder_count }, next)),
            Err(e) => Err(e),
        },
        Err(e) => Err(e),
    }
}

/// Decodes one entry of the flat index. On failure the cursor has not moved.
pub fn decode_flat_entry(cursor: &mut ByteCursor) -> (r: Result<FlatEntry, WadError>)
    ensures
        final(cursor)@.data == old(cursor)@.data,
        match parse_flat_entry(old(cursor)@.data, old(cursor)@.pos) {
            Ok((entry, next)) => r matches Ok(decoded) && decoded@ == entry && final(cursor)@.pos
                == next,
            Err(e) => r matches Err(f) && f == e && final(cursor)@.pos == old(cursor)@.pos,
        },
{
    let start = cursor.current_position();
    let path = match cursor.read_length_prefixed_string() {
        Ok(path) => path,
        Err(e) => {
            return Err(e);
        },
    };
    let length = match cursor.read_i32_le() {
        Ok(length) => length,
        Err(e) => {
            cursor.seek_absolute(start);
            return Err(e);
        },
    };
    match cursor.skip(UNUSED_LEN) {
        Ok(_) => {},
        Err(e) => {
            cursor.seek_absolute(start);
            return Err(e);
        },
    }
    let offset = match cursor.read_i32_le() {
        Ok(offset) => offset,
        Err(e) => {
            cursor.seek_absolute(start);
            return Err(e);
        },
    };
    match cursor.skip(UNUSED_LEN) {
        Ok(_) => {},
        Err(e) => {
            cursor.seek_absolute(start);
            return Err(e);
        },
    }
    Ok(FlatEntry { path, length, offset })
}

/// Decodes the flat index: `file_count` entries in stored order (none when
/// the count is negative), then the folder count, leaving the cursor at the
/// start of the folder table. On failure the cursor has not moved.
pub fn decode_flat_index(cursor: &mut ByteCursor, file_count: i32) -> (r: Result<
    FlatIndex,
    WadError,
>)
    ensures
        final(cursor)@.data == old(cursor)@.data,
        match parse_flat_index(old(cursor)@.data, old(cursor)@.pos, file_count) {
            Ok((index, next)) => r matches Ok(decoded) && decoded@ == index && final(cursor)@.pos
                == next,
            Err(e) => r matches Err(f) && f == e && final(cursor)@.pos == old(cursor)@.pos,
        },
{
    let start = cursor.current_position();
    let ghost data = cursor@.data;
    let ghost origin = cursor@.pos;
    let mut entries: Vec<FlatEntry> = Vec::new();
    let mut decoded: i32 = 0;
    assert(entries.deep_view() =~= Seq::empty());
    while decoded < file_count
        invariant
            0 <= decoded <= item_count(file_count),
            start == origin,
            data == old(cursor)@.data,
            origin == old(cursor)@.pos,
            cursor@.data == data,
            parse_flat_entries(data, origin, decoded as nat) == Ok::<
                (Seq<FlatEntryView>, nat),
                WadError,
            >((entries.deep_view(), cursor@.pos)),
        decreases file_count - decoded,
    {
        let ghost before = entries.deep_view();
        match decode_flat_entry(cursor) {
            Ok(entry) => {
                entries.push(entry);
                assert(entries.deep_view() =~= before.push(entry@));
            },
            Err(e) => {
                proof {
                    lemma_repeat_failure_persists(
                        |d: Seq<u8>, p: nat| parse_flat_entry(d, p),
                        data,
                        origin,
                        (decoded + 1) as nat,
                        item_count(file_count),
                    );
                }
                cursor.seek_absolute(start);
                return Err(e);
            },
        }
        decoded = decoded + 1;
    }
    match cursor.read_i32_le() {
        Ok(folder_count) => Ok(FlatIndex { entries, folder_count }),
        Err(e) => {
            cursor.seek_absolute(start);
            Err(e)
        },
    }
}

/// The flat index fails to decode only as malformed.
pub proof fn lemma_flat_index_failure_is_malformed(data: Seq<u8>, pos: nat, file_count: i32)
    ensures
        parse_flat_index(data, pos, file_count) matches Err(e) ==> e == WadError::MalformedArchive,
{
    lemma_repeat_failure_is_malformed(
        |d: Seq<u8>, p: nat| parse_flat_entry(d, p),
        data,
        pos,
        item_count(file_count),
    );
}

} // verus!
