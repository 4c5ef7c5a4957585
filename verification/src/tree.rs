//! The folder table: an ordered list of folders, each with the names of the
//! files and sub-folders in it. It says how the archive is laid out, not
//! where bytes lie. The list is flat: nesting shows only in the names.

use crate::cursor::{
    item_count, lemma_empty_string, lemma_repeat_failure_is_malformed,
    lemma_repeat_failure_persists, parse_i32, parse_repeat, parse_string, parse_text, parse_u8,
    ByteCursor, Parsed,
};
use crate::error::WadError;
use vstd::prelude::*;
use vstd::std_specs::convert::TryFromSpecImpl;

verus! {

/// The tag byte of a child that is a file.
pub const FILE_TAG: u8 = 0;

/// The tag byte of a child that marks a sub-folder.
pub const FOLDER_TAG: u8 = 1;

/// What a child of a folder is.
#[derive(Clone, Copy, Debug, PartialEq, Eq, Structural)]
pub enum FileType {
    /// A file, whose bytes the flat index locates.
    File,
    /// A marker for a sub-folder: a directory to create, without content of
    /// its own in this table.
    Folder,
}

/// The type that a tag byte stands for, if it is one of the two tags.
pub open spec fn file_type_of_tag(tag: u8) -> Option<FileType> {
    if tag == FILE_TAG {
        Some(FileType::File)
    } else if tag == FOLDER_TAG {
        Some(FileType::Folder)
    } else {
        None
    }
}

impl TryFrom<u8> for FileType {
    type Error = ();

    /// The type that a tag byte stands for; any byte but the two tags is
    /// refused.
    fn try_from(tag: u8) -> (r: Result<FileType, ()>) {
        if tag == FILE_TAG {
            Ok(FileType::File)
        } else if tag == FOLDER_TAG {
            Ok(FileType::Folder)
        } else {
            Err(())
        }
    }
}

impl TryFromSpecImpl<u8> for FileType {
    open spec fn obeys_try_from_spec() -> bool {
        true
    }

    open spec fn try_from_spec(tag: u8) -> Result<FileType, ()> {
        match file_type_of_tag(tag) {
            Some(kind) => Ok(kind),
            None => Err(()),
        }
    }
}

/// A child of a folder: a name and what the name stands for.
#[derive(Debug, PartialEq, Eq)]
pub struct Leaf {
    /// The name of the child within its folder.
    pub name: String,
    /// Whether the child is a file or marks a sub-folder.
    pub kind: FileType,
}

/// A [`Leaf`] as specifications see it.
pub struct LeafView {
    pub name: Seq<char>,
    pub kind: FileType,
}

impl View for Leaf {
    type V = LeafView;

    open spec fn view(&self) -> LeafView {
        LeafView { name: self.name@, kind: self.kind }
    }
}

impl DeepView for Leaf {
    type V = LeafView;

    open spec fn deep_view(&self) -> LeafView {
        self@
    }
}

/// A folder of the archive with its children in stored order. The name is
/// the folder's whole path within the archive; it is empty for the root.
#[derive(Debug, PartialEq, Eq)]
pub struct FolderNode {
    /// The path of the folder within the archive.
    pub name: String,
    /// The children, in the order in which the archive stores them.
    pub children: Vec<Leaf>,
}

/// A [`FolderNode`] as specifications see it.
pub struct FolderView {
    pub name: Seq<char>,
    pub children: Seq<LeafView>,
}

impl View for FolderNode {
    type V = FolderView;

    open spec fn view(&self) -> FolderView {
        FolderView { name: self.name@, children: self.children.deep_view() }
    }
}

impl DeepView for FolderNode {
    type V = FolderView;

    open spec fn deep_view(&self) -> FolderView {
        self@
    }
}

/// Reading one child at `pos`: its name, then one tag byte, which has to be
/// one of the two tags.
pub open spec fn parse_leaf(data: Seq<u8>, pos: nat) -> Parsed<LeafView> {
    match parse_string(data, pos) {
        Ok((name, tag_at)) => match parse_u8(data, tag_at) {
            Ok((tag, next)) => match file_type_of_tag(tag) {
                Some(kind) => Ok((LeafView { name, kind }, next)),
                None => Err(WadError::MalformedArchive),
            },
            Err(e) => Err(e),
        },
        Err(e) => Err(e),
    }
}

/// Reading `count` children one after another, starting at `pos`.
pub open spec fn parse_leaves(data: Seq<u8>, pos: nat, count: nat) -> Parsed<Seq<LeafView>> {
    parse_repeat(|d: Seq<u8>, p: nat| parse_leaf(d, p), data, pos, count)
}

/// Reading the name of a folder at `pos`. A length prefix of zero stands
/// for the root folder: the name is empty and no byte follows the prefix.
pub open spec fn parse_folder_name(data: Seq<u8>, pos: nat) -> Parsed<Seq<char>> {
    match parse_i32(data, pos) {
        Ok((len, body)) => if len == 0 {
            Ok((Seq::empty(), body))
        } else {
            parse_text(data, body, len as int)
        },
        Err(e) => Err(e),
    }
}

/// Reading one folder at `pos`: its name, the number of its children, and
/// that many children (none when the number is negative).
pub open spec fn parse_folder(data: Seq<u8>, pos: nat) -> Parsed<FolderView> {
    match parse_folder_name(data, pos) {
        Ok((name, count_at)) => match parse_i32(data, count_at) {
            Ok((child_count, first_at)) => match parse_leaves(
                data,
                first_at,
                item_count(child_count),
            ) {
                Ok((children, next)) => Ok((FolderView { name, children }, next)),
                Err(e) => Err(e),
            },
            Err(e) => Err(e),
        },
        Err(e) => Err(e),
    }
}

/// Reading `count` folders one after another, starting at `pos`.
pub open spec fn parse_folders(data: Seq<u8>, pos: nat, count: nat) -> Parsed<Seq<FolderView>> {
    parse_repeat(|d: Seq<u8>, p: nat| parse_folder(d, p), data, pos, count)
}

/// Reading the whole folder table at `pos`: as many folders as
/// `folder_count` stands for.
pub open spec fn parse_tree(data: Seq<u8>, pos: nat, folder_count: i32) -> Parsed<
    Seq<FolderView>,
> {
    parse_folders(data, pos, item_count(folder_count))
}

/// Decodes one child of a folder. On failure the cursor has not moved.
pub fn decode_leaf(cursor: &mut ByteCursor) -> (r: Result<Leaf, WadError>)
    ensures
        final(cursor)@.data == old(cursor)@.data,
        match parse_leaf(old(cursor)@.data, old(cursor)@.pos) {
            Ok((leaf, next)) => r matches Ok(decoded) && decoded@ == leaf && final(cursor)@.pos
                == next,
            Err(e) => r matches Err(f) && f == e && final(cursor)@.pos == old(cursor)@.pos,
        },
{
    let start = cursor.current_position();
    let name = match cursor.read_length_prefixed_string() {
        Ok(name) => name,
        Err(e) => {
            return Err(e);
        },
    };
    let tag = match cursor.read_u8() {
        Ok(tag) => tag,
        Err(e) => {
            cursor.seek_absolute(start);
            return Err(e);
        },
    };
    match FileType::try_from(tag) {
        Ok(kind) => Ok(Leaf { name, kind }),
        Err(_) => {
            cursor.seek_absolute(start);
            Err(WadError::MalformedArchive)
        },
    }
}

/// Decodes the name of a folder; a length prefix of zero gives the empty
/// name without reading further. On failure the cursor has not moved.
pub fn decode_folder_name(cursor: &mut ByteCursor) -> (r: Result<String, WadError>)
    ensures
        final(cursor)@.data == old(cursor)@.data,
        match parse_folder_name(old(cursor)@.data, old(cursor)@.pos) {
            Ok((name, next)) => r matches Ok(decoded) && decoded@ == name && final(cursor)@.pos
                == next,
            Err(e) => r matches Err(f) && f == e && final(cursor)@.pos == old(cursor)@.pos,
        },
{
    let start = cursor.current_position();
    let len = match cursor.read_i32_le() {
        Ok(len) => len,
        Err(e) => {
            return Err(e);
        },
    };
    if len == 0 {
        return Ok(String::new());
    }
    match cursor.read_text(len) {
        Ok(name) => Ok(name),
        Err(e) => {
            cursor.seek_absolute(start);
            Err(e)
        },
    }
}

/// Decodes one folder with its children. On failure the cursor has not
/// moved.
pub fn decode_folder(cursor: &mut ByteCursor) -> (r: Result<FolderNode, WadError>)
    ensures
        final(cursor)@.data == old(cursor)@.data,
        match parse_folder(old(cursor)@.data, old(cursor)@.pos) {
            Ok((folder, next)) => r matches Ok(decoded) && decoded@ == folder
                && final(cursor)@.pos == next,
            Err(e) => r matches Err(f) && f == e && final(cursor)@.pos == old(cursor)@.pos,
        },
{
    let start = cursor.current_position();
    let name = match decode_folder_name(cursor) {
        Ok(name) => name,
        Err(e) => {
            return Err(e);
        },
    };
    let child_count = match cursor.read_i32_le() {
        Ok(child_count) => child_count,
        Err(e) => {
            cursor.seek_absolute(start);
            return Err(e);
        },
    };
    let ghost data = cursor@.data;
    let ghost first_at = cursor@.pos;
    let mut children: Vec<Leaf> = Vec::new();
    let mut decoded: i32 = 0;
    assert(children.deep_view() =~= Seq::empty());
    while decoded < child_count
        invariant
            0 <= decoded <= item_count(child_count),
            data == old(cursor)@.data,
            start == old(cursor)@.pos,
            cursor@.data == data,
            parse_folder_name(data, start as nat) matches Ok((decoded_name, count_at))
                && decoded_name == name@ && parse_i32(data, count_at) == Ok::<
                (i32, nat),
                WadError,
            >((child_count, first_at)),
            parse_leaves(data, first_at, decoded as nat) == Ok::<(Seq<LeafView>, nat), WadError>(
                (children.deep_view(), cursor@.pos),
            ),
        decreases child_count - decoded,
    {
        let ghost before = children.deep_view();
        match decode_leaf(cursor) {
            Ok(leaf) => {
                children.push(leaf);
                assert(children.deep_view() =~= before.push(leaf@));
            },
            Err(e) => {
                proof {
                    lemma_repeat_failure_persists(
                        |d: Seq<u8>, p: nat| parse_leaf(d, p),
                        data,
                        first_at,
                        (decoded + 1) as nat,
                        item_count(child_count),
                    );
                }
                cursor.seek_absolute(start);
                return Err(e);
            },
        }
        decoded = decoded + 1;
    }
    Ok(FolderNode { name, children })
}

/// Decodes the folder table: `folder_count` folders in stored order (none
/// when the count is negative), leaving the cursor at the start of the data
/// section. On failure the cursor has not moved.
pub fn decode_tree(cursor: &mut ByteCursor, folder_count: i32) -> (r: Result<
    Vec<FolderNode>,
    WadError,
>)
    ensures
        final(cursor)@.data == old(cursor)@.data,
        match parse_tree(old(cursor)@.data, old(cursor)@.pos, folder_count) {
            Ok((folders, next)) => r matches Ok(decoded) && decoded.deep_view() == folders
                && final(cursor)@.pos == next,
            Err(e) => r matches Err(f) && f == e && final(cursor)@.pos == old(cursor)@.pos,
        },
{
    let start = cursor.current_position();
    let ghost data = cursor@.data;
    let mut folders: Vec<FolderNode> = Vec::new();
    let mut decoded: i32 = 0;
    assert(folders.deep_view() =~= Seq::empty());
    while decoded < folder_count
        invariant
            0 <= decoded <= item_count(folder_count),
            data == old(cursor)@.data,
            start == old(cursor)@.pos,
            cursor@.data == data,
            parse_folders(data, start as nat, decoded as nat) == Ok::<
                (Seq<FolderView>, nat),
                WadError,
            >((folders.deep_view(), cursor@.pos)),
        decreases folder_count - decoded,
    {
        let ghost before = folders.deep_view();
        match decode_folder(cursor) {
            Ok(folder) => {
                folders.push(folder);
                assert(folders.deep_view() =~= before.push(folder@));
            },
            Err(e) => {
                proof {
                    lemma_repeat_failure_persists(
                        |d: Seq<u8>, p: nat| parse_folder(d, p),
                        data,
                        start as nat,
                        (decoded + 1) as nat,
                        item_count(folder_count),
                    );
                }
                cursor.seek_absolute(start);
                return Err(e);
            },
        }
        decoded = decoded + 1;
    }
    Ok(folders)
}

/// A folder whose name has the length prefix zero is the root folder: its
/// name is empty and takes no byte of the stream beyond the prefix, so that
/// the number of its children follows the prefix at once. This holds of
/// every folder of the table, wherever in it the folder stands.
pub proof fn lemma_root_folder_name(data: Seq<u8>, pos: nat)
    requires
        parse_i32(data, pos) matches Ok((len, _)) && len == 0,
    ensures
        parse_folder_name(data, pos) == Ok::<(Seq<char>, nat), WadError>((Seq::empty(), pos + 4)),
{
}

/// The rule for the root folder takes nothing from the rule for strings: a
/// folder name is read as any other string is.
pub proof fn lemma_folder_name_is_string(data: Seq<u8>, pos: nat)
    ensures
        parse_folder_name(data, pos) == parse_string(data, pos),
{
    if parse_i32(data, pos) matches Ok((len, _)) && len == 0 {
        lemma_empty_string(data, pos);
    }
}

/// A child whose tag byte is neither of the two tags is malformed.
pub proof fn lemma_unknown_tag_is_malformed(data: Seq<u8>, pos: nat)
    requires
        parse_string(data, pos) matches Ok((_, tag_at)) && parse_u8(data, tag_at) matches Ok(
            (tag, _),
        ) && tag != FILE_TAG && tag != FOLDER_TAG,
    ensures
        parse_leaf(data, pos) == Err::<(LeafView, nat), WadError>(WadError::MalformedArchive),
{
}

/// A folder fails to decode as soon as one of its children does, with the
/// failure of that child.
pub proof fn lemma_leaf_failure_fails_folder(data: Seq<u8>, pos: nat, c: nat)
    requires
        ({
            &&& parse_folder_name(data, pos) matches Ok((_, count_at))
            &&& parse_i32(data, count_at) matches Ok((child_count, first_at))
            &&& c < item_count(child_count)
            &&& parse_leaves(data, first_at, c) matches Ok((_, leaf_at))
            &&& parse_leaf(data, leaf_at) is Err
        }),
    ensures
        ({
            &&& parse_folder_name(data, pos) matches Ok((_, count_at))
            &&& parse_i32(data, count_at) matches Ok((_, first_at))
            &&& parse_leaves(data, first_at, c) matches Ok((_, leaf_at))
            &&& parse_leaf(data, leaf_at) matches Err(e)
            &&& parse_folder(data, pos) == Err::<(FolderView, nat), WadError>(e)
        }),
{
    let count_at = parse_folder_name(data, pos)->Ok_0.1;
    let (child_count, first_at) = parse_i32(data, count_at)->Ok_0;
    lemma_repeat_failure_persists(
        |d: Seq<u8>, p: nat| parse_leaf(d, p),
        data,
        first_at,
        c + 1,
        item_count(child_count),
    );
}

/// The folder table fails to decode as soon as one of its folders does, with
/// the failure of that folder. So a single tag byte that is not recognised,
/// in whatever child of whatever folder, makes the whole table malformed.
pub proof fn lemma_folder_failure_fails_tree(data: Seq<u8>, pos: nat, folder_count: i32, f: nat)
    requires
        f < item_count(folder_count),
        ({
            &&& parse_folders(data, pos, f) matches Ok((_, folder_at))
            &&& parse_folder(data, folder_at) is Err
        }),
    ensures
        ({
            &&& parse_folders(data, pos, f) matches Ok((_, folder_at))
            &&& parse_folder(data, folder_at) matches Err(e)
            &&& parse_tree(data, pos, folder_count) == Err::<(Seq<FolderView>, nat), WadError>(e)
        }),
{
    lemma_repeat_failure_persists(
        |d: Seq<u8>, p: nat| parse_folder(d, p),
        data,
        pos,
        f + 1,
        item_count(folder_count),
    );
}

/// A folder fails to decode only as malformed.
pub proof fn lemma_folder_failure_is_malformed(data: Seq<u8>, pos: nat)
    ensures
        parse_folder(data, pos) matches Err(e) ==> e == WadError::MalformedArchive,
{
    if let Ok((_, count_at)) = parse_folder_name(data, pos) {
        if let Ok((child_count, first_at)) = parse_i32(data, count_at) {
            lemma_repeat_failure_is_malformed(
                |d: Seq<u8>, p: nat| parse_leaf(d, p),
                data,
                first_at,
                item_count(child_count),
            );
        }
    }
}

/// The folder table fails to decode only as malformed.
pub proof fn lemma_tree_failure_is_malformed(data: Seq<u8>, pos: nat, folder_count: i32)
    ensures
        parse_tree(data, pos, folder_count) matches Err(e) ==> e == WadError::MalformedArchive,
{
    let folder = |d: Seq<u8>, p: nat| parse_folder(d, p);
    assert forall|at: nat| #[trigger] folder(data, at) matches Err(e) ==> e
        == WadError::MalformedArchive by {
        lemma_folder_failure_is_malformed(data, at);
    }
    lemma_repeat_failure_is_malformed(folder, data, pos, item_count(folder_count));
}

} // verus!
