//! An archive as a whole: the header, the flat index and the folder table,
//! decoded one after another, and the position at which the data section
//! starts.

use crate::cursor::ByteCursor;
use crate::error::WadError;
use crate::flat::{
    decode_flat_index, lemma_flat_index_failure_is_malformed, parse_flat_index, FlatEntry,
    FlatEntryView,
};
use crate::header::{decode_header, has_signature, parse_header};
use crate::tree::{
    decode_tree, lemma_tree_failure_is_malformed, parse_tree, FolderNode, FolderView,
};
use vstd::prelude::*;

verus! {

/// The tables of an archive and the start of its data section.
#[derive(Debug, PartialEq, Eq)]
pub struct Archive {
    /// The number of entries in the flat index, as the header stores it.
    pub file_count: i32,
    /// The flat index, in stored order.
    pub entries: Vec<FlatEntry>,
    /// The number of folders in the folder table, as stored.
    pub folder_count: i32,
    /// The folder table, in stored order.
    pub folders: Vec<FolderNode>,
    /// The position in the stream at which the data section starts: the
    /// first byte after both tables. The offsets of the flat index count
    /// from here.
    pub base: u64,
}

/// An [`Archive`] as specifications see it.
pub struct ArchiveView {
    pub file_count: i32,
    pub entries: Seq<FlatEntryView>,
    pub folder_count: i32,
    pub folders: Seq<FolderView>,
    pub base: nat,
}

impl View for Archive {
    type V = ArchiveView;

    open spec fn view(&self) -> ArchiveView {
        ArchiveView {
            file_count: self.file_count,
            entries: self.entries.deep_view(),
            folder_count: self.folder_count,
            folders: self.folders.deep_view(),
            base: self.base as nat,
        }
    }
}

/// Reading the tables of an archive that starts at `pos`: the header, then
/// the flat index, then the folder table. The data section starts where the
/// folder table ends.
pub open spec fn parse_archive(data: Seq<u8>, pos: nat) -> Result<ArchiveView, WadError> {
    match parse_header(data, pos) {
        Ok((file_count, index_at)) => match parse_flat_index(data, index_at, file_count) {
            Ok((index, tree_at)) => match parse_tree(data, tree_at, index.folder_count) {
                Ok((folders, base)) => Ok(
                    ArchiveView {
                        file_count,
                        entries: index.entries,
                        folder_count: index.folder_count,
                        folders,
                        base,
                    },
                ),
                Err(e) => Err(e),
            },
            Err(e) => Err(e),
        },
        Err(e) => Err(e),
    }
}

/// Decodes the header and both tables, leaving the cursor at the start of
/// the data section. On failure the cursor has not moved.
pub fn decode_archive(cursor: &mut ByteCursor) -> (r: Result<Archive, WadError>)
    ensures
        final(cursor)@.data == old(cursor)@.data,
        match parse_archive(old(cursor)@.data, old(cursor)@.pos) {
            Ok(archive) => r matches Ok(decoded) && decoded@ == archive && final(cursor)@.pos
                == archive.base,
            Err(e) => r matches Err(f) && f == e && final(cursor)@.pos == old(cursor)@.pos,
        },
{
    let start = cursor.current_position();
    let file_count = match decode_header(cursor) {
        Ok(file_count) => file_count,
        Err(e) => {
            return Err(e);
        },
    };
    let index = match decode_flat_index(cursor, file_count) {
        Ok(index) => index,
        Err(e) => {
            cursor.seek_absolute(start);
            return Err(e);
        },
    };
    let folders = match decode_tree(cursor, index.folder_count) {
        Ok(folders) => folders,
        Err(e) => {
            cursor.seek_absolute(start);
            return Err(e);
        },
    };
    let base = cursor.current_position();
    Ok(
        Archive {
            file_count,
            entries: index.entries,
            folder_count: index.folder_count,
            folders,
            base,
        },
    )
}

/// An archive is rejected as unsupported exactly when it does not start with
/// the signature; every other failure to decode it is a malformed archive.
pub proof fn lemma_archive_failures(data: Seq<u8>, pos: nat)
    ensures
        parse_archive(data, pos) == Err::<ArchiveView, WadError>(WadError::UnsupportedFormat)
            <==> !has_signature(data, pos),
        parse_archive(data, pos) is Err && has_signature(data, pos) ==> parse_archive(data, pos)
            == Err::<ArchiveView, WadError>(WadError::MalformedArchive),
{
    if let Ok((file_count, index_at)) = parse_header(data, pos) {
        lemma_flat_index_failure_is_malformed(data, index_at, file_count);
        if let Ok((index, tree_at)) = parse_flat_index(data, index_at, file_count) {
            lemma_tree_failure_is_malformed(data, tree_at, index.folder_count);
        }
    }
}

/// An archive whose folder table fails to decode is malformed as a whole:
/// there is then no archive of which anything could be extracted.
pub proof fn lemma_tree_failure_fails_archive(data: Seq<u8>, pos: nat)
    requires
        ({
            &&& parse_header(data, pos) matches Ok((file_count, index_at))
            &&& parse_flat_index(data, index_at, file_count) matches Ok((index, tree_at))
            &&& parse_tree(data, tree_at, index.folder_count) is Err
        }),
    ensures
        parse_archive(data, pos) == Err::<ArchiveView, WadError>(WadError::MalformedArchive),
{
    lemma_archive_failures(data, pos);
}

} // verus!
