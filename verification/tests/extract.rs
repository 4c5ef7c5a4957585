use wad_extractor::archive::{decode_archive, Archive};
use wad_extractor::cursor::ByteCursor;
use wad_extractor::error::WadError;
use wad_extractor::flat::FlatEntry;
use wad_extractor::lookup::find_entry;
use wad_extractor::payload::read_payload;
use wad_extractor::plan::{plan_extraction, plan_folder, resolve_leaf, Action};
use wad_extractor::text::{
    decode_text, join_path, normalize_separators, FOREIGN_SEPARATOR, SEPARATOR,
};
use wad_extractor::tree::{FileType, FolderNode, Leaf};

fn put_i32(bytes: &mut Vec<u8>, value: i32) {
    bytes.extend_from_slice(&value.to_le_bytes());
}

fn put_text(bytes: &mut Vec<u8>, value: &str) {
    put_i32(bytes, value.len() as i32);
    bytes.extend_from_slice(value.as_bytes());
}

/// The bytes of an archive with the given flat entries (path, length,
/// offset), folders (name, children with their tags) and data section.
fn archive_bytes(
    entries: &[(&str, i32, i32)],
    folders: &[(&str, Vec<(&str, u8)>)],
    data: &[u8],
) -> Vec<u8> {
    let mut bytes = b"AGAR".to_vec();
    bytes.extend_from_slice(&[0; 12]);
    put_i32(&mut bytes, entries.len() as i32);
    for (path, length, offset) in entries {
        put_text(&mut bytes, path);
        put_i32(&mut bytes, *length);
        bytes.extend_from_slice(&[0; 4]);
        put_i32(&mut bytes, *offset);
        bytes.extend_from_slice(&[0; 4]);
    }
    put_i32(&mut bytes, folders.len() as i32);
    for (name, children) in folders {
        put_text(&mut bytes, name);
        put_i32(&mut bytes, children.len() as i32);
        for (child, tag) in children {
            put_text(&mut bytes, child);
            bytes.push(*tag);
        }
    }
    bytes.extend_from_slice(data);
    bytes
}

/// What an extraction leaves behind, kept in memory: the directories made,
/// the files written with their content, and the paths skipped.
struct Outcome {
    dirs: Vec<String>,
    files: Vec<(String, Vec<u8>)>,
    skipped: Vec<String>,
}

/// Decodes `bytes` and carries the plan out in memory, stopping at the first
/// failure as an extraction to disk would.
fn extract_in_memory(bytes: Vec<u8>) -> Result<Outcome, (Outcome, WadError)> {
    let mut outcome = Outcome { dirs: vec![], files: vec![], skipped: vec![] };
    let mut cursor = ByteCursor::new(bytes);
    let archive: Archive = match decode_archive(&mut cursor) {
        Ok(archive) => archive,
        Err(e) => return Err((outcome, e)),
    };
    for action in plan_extraction(&archive.entries, &archive.folders) {
        match action {
            Action::CreateDir { path } => outcome.dirs.push(path),
            Action::SkipMissing { path } => outcome.skipped.push(path),
            Action::WriteFile { path, offset, length } => {
                match read_payload(&mut cursor, archive.base, offset, length) {
                    Ok(content) => {
                        outcome.files.retain(|(other, _)| *other != path);
                        outcome.files.push((path, content));
                    }
                    Err(e) => return Err((outcome, e)),
                }
                assert_eq!(cursor.current_position(), archive.base);
            }
        }
    }
    Ok(outcome)
}

fn flat(path: &str, length: i32, offset: i32) -> FlatEntry {
    FlatEntry { path: String::from(path), length, offset }
}

fn file(name: &str) -> Leaf {
    Leaf { name: String::from(name), kind: FileType::File }
}

fn marker(name: &str) -> Leaf {
    Leaf { name: String::from(name), kind: FileType::Folder }
}

fn node(name: &str, children: Vec<Leaf>) -> FolderNode {
    FolderNode { name: String::from(name), children }
}

fn create_dir(path: &str) -> Action {
    Action::CreateDir { path: String::from(path) }
}

fn write_file(path: &str, offset: i32, length: i32) -> Action {
    Action::WriteFile { path: String::from(path), offset, length }
}

fn skip_missing(path: &str) -> Action {
    Action::SkipMissing { path: String::from(path) }
}

#[test]
fn separators_are_slash_and_backslash() {
    assert_eq!(SEPARATOR, '/');
    assert_eq!(FOREIGN_SEPARATOR, '\\');
}

#[test]
fn well_formed_bytes_decode_to_the_text_they_encode() {
    assert_eq!(decode_text(b""), "");
    assert_eq!(decode_text(b"a/b.txt"), "a/b.txt");
    assert_eq!(decode_text("é€😀".as_bytes()), "é€😀");
    assert_eq!(decode_text(&[0xf0, 0x9f, 0x92, 0x96]), "💖");
}

#[test]
fn malformed_bytes_decode_with_replacement_characters() {
    assert_eq!(decode_text(&[b'a', 0x80, b'b']), "a\u{fffd}b");
    assert_eq!(decode_text(&[0xc3]), "\u{fffd}");
    assert_eq!(decode_text(&[0xed, 0xa0, 0x80]), "\u{fffd}\u{fffd}\u{fffd}");
}

#[test]
fn normalize_turns_backslashes_into_slashes() {
    assert_eq!(normalize_separators("a\\b\\c.txt"), "a/b/c.txt");
    assert_eq!(normalize_separators("a/b\\c"), "a/b/c");
    assert_eq!(normalize_separators("\\\\"), "//");
}

#[test]
fn normalize_leaves_everything_else_alone() {
    assert_eq!(normalize_separators(""), "");
    assert_eq!(normalize_separators("plain.txt"), "plain.txt");
    assert_eq!(normalize_separators("a/b/c"), "a/b/c");
    assert_eq!(normalize_separators("dossier é€😀|:*?"), "dossier é€😀|:*?");
}

#[test]
fn join_puts_one_separator_between_the_names() {
    assert_eq!(join_path("a", "b.txt"), "a/b.txt");
    assert_eq!(join_path("a/b", "c.txt"), "a/b/c.txt");
    assert_eq!(join_path("a/", "b.txt"), "a//b.txt");
}

#[test]
fn join_keeps_the_separator_for_the_root_folder() {
    assert_eq!(join_path("", "top.txt"), "/top.txt");
    assert_eq!(join_path("", ""), "/");
}

#[test]
fn join_normalizes_both_names() {
    assert_eq!(join_path("a\\b", "c\\d.txt"), "a/b/c/d.txt");
}

#[test]
fn find_entry_gives_the_index_of_the_match() {
    let entries = vec![flat("a", 1, 0), flat("b", 2, 1), flat("c", 3, 3)];
    assert_eq!(find_entry(&entries, &String::from("a")), Ok(0));
    assert_eq!(find_entry(&entries, &String::from("b")), Ok(1));
    assert_eq!(find_entry(&entries, &String::from("c")), Ok(2));
}

#[test]
fn find_entry_takes_the_first_of_equal_paths() {
    let entries = vec![flat("x", 1, 0), flat("dup", 2, 10), flat("dup", 3, 20), flat("dup", 4, 30)];
    assert_eq!(find_entry(&entries, &String::from("dup")), Ok(1));
}

#[test]
fn find_entry_reports_a_missing_path() {
    let entries = vec![flat("a/b.txt", 1, 0)];
    assert_eq!(find_entry(&entries, &String::from("a/c.txt")), Err(WadError::MissingIndexEntry));
    assert_eq!(find_entry(&vec![], &String::from("a/b.txt")), Err(WadError::MissingIndexEntry));
}

#[test]
fn find_entry_compares_exactly() {
    let entries = vec![flat("a/b.txt", 1, 0)];
    for key in ["A/B.TXT", "a/b.txt ", "/a/b.txt", "a\\b.txt", "a/b", ""] {
        assert_eq!(find_entry(&entries, &String::from(key)), Err(WadError::MissingIndexEntry));
    }
}

#[test]
fn file_with_an_entry_is_written_from_where_the_index_says() {
    let entries = vec![flat("a/other", 9, 90), flat("a/b.txt", 5, 17)];
    assert_eq!(resolve_leaf(&entries, "a", &file("b.txt")), write_file("a/b.txt", 17, 5));
}

#[test]
fn file_without_an_entry_is_skipped() {
    let entries = vec![flat("a/b.txt", 5, 17)];
    assert_eq!(resolve_leaf(&entries, "a", &file("c.txt")), skip_missing("a/c.txt"));
    assert_eq!(resolve_leaf(&entries, "b", &file("b.txt")), skip_missing("b/b.txt"));
}

#[test]
fn folder_marker_is_a_directory_and_is_not_looked_up() {
    let entries = vec![flat("a/sub", 5, 17)];
    assert_eq!(resolve_leaf(&entries, "a", &marker("sub")), create_dir("a/sub"));
    assert_eq!(resolve_leaf(&vec![], "", &marker("sub")), create_dir("/sub"));
}

#[test]
fn key_is_normalized_but_the_index_is_not() {
    let entries = vec![flat("a\\b.txt", 1, 1), flat("a/b.txt", 2, 2)];
    assert_eq!(resolve_leaf(&entries, "a", &file("b.txt")), write_file("a/b.txt", 2, 2));
    assert_eq!(resolve_leaf(&entries, "a\\", &file("b.txt")), skip_missing("a//b.txt"));
    let only_backslash = vec![flat("a\\b.txt", 1, 1)];
    assert_eq!(resolve_leaf(&only_backslash, "a", &file("b.txt")), skip_missing("a/b.txt"));
}

#[test]
fn backslash_in_the_tree_matches_slash_in_the_index() {
    let entries = vec![flat("data/maps/one.map", 4, 8)];
    assert_eq!(
        resolve_leaf(&entries, "data\\maps", &file("one.map")),
        write_file("data/maps/one.map", 8, 4)
    );
}

#[test]
fn top_level_file_is_looked_up_with_a_leading_separator() {
    let entries = vec![flat("top.txt", 1, 1), flat("/top.txt", 2, 2)];
    assert_eq!(resolve_leaf(&entries, "", &file("top.txt")), write_file("/top.txt", 2, 2));
    let bare = vec![flat("top.txt", 1, 1)];
    assert_eq!(resolve_leaf(&bare, "", &file("top.txt")), skip_missing("/top.txt"));
}

#[test]
fn plan_folder_appends_directory_then_children() {
    let entries = vec![flat("a/b.txt", 5, 0)];
    let mut plan = vec![create_dir("before")];
    plan_folder(&entries, &node("a", vec![file("b.txt"), marker("sub"), file("c.txt")]), &mut plan);
    assert_eq!(
        plan,
        vec![
            create_dir("before"),
            create_dir("a"),
            write_file("a/b.txt", 0, 5),
            create_dir("a/sub"),
            skip_missing("a/c.txt"),
        ]
    );
}

#[test]
fn plan_of_an_empty_table_is_empty() {
    assert!(plan_extraction(&vec![flat("a", 1, 0)], &vec![]).is_empty());
}

#[test]
fn plan_creates_the_directory_of_an_empty_folder() {
    assert_eq!(
        plan_extraction(&vec![], &vec![node("empty\\dir", vec![])]),
        vec![create_dir("empty/dir")]
    );
    assert_eq!(plan_extraction(&vec![], &vec![node("", vec![])]), vec![create_dir("")]);
}

#[test]
fn plan_follows_the_folder_table_not_the_index() {
    let entries = vec![flat("b/2", 2, 20), flat("a/1", 1, 10), flat("unused", 3, 30)];
    let folders = vec![node("a", vec![file("1")]), node("b", vec![file("2")])];
    assert_eq!(
        plan_extraction(&entries, &folders),
        vec![create_dir("a"), write_file("a/1", 10, 1), create_dir("b"), write_file("b/2", 20, 2)]
    );
}

#[test]
fn plan_treats_a_repeated_folder_like_any_other() {
    let entries = vec![flat("a/1", 1, 10)];
    let folders = vec![node("a", vec![file("1")]), node("a", vec![file("1"), file("2")])];
    assert_eq!(
        plan_extraction(&entries, &folders),
        vec![
            create_dir("a"),
            write_file("a/1", 10, 1),
            create_dir("a"),
            write_file("a/1", 10, 1),
            skip_missing("a/2"),
        ]
    );
}

#[test]
fn missing_file_is_skipped_and_the_rest_still_planned() {
    let entries = vec![flat("a/1", 1, 0), flat("a/3", 3, 1), flat("b/4", 4, 4)];
    let folders =
        vec![node("a", vec![file("1"), file("2"), file("3")]), node("b", vec![file("4")])];
    let with_gap = plan_extraction(&entries, &folders);
    assert_eq!(
        with_gap,
        vec![
            create_dir("a"),
            write_file("a/1", 0, 1),
            skip_missing("a/2"),
            write_file("a/3", 1, 3),
            create_dir("b"),
            write_file("b/4", 4, 4),
        ]
    );
    let without = vec![node("a", vec![file("1"), file("3")]), node("b", vec![file("4")])];
    let mut expected = plan_extraction(&entries, &without);
    expected.insert(2, skip_missing("a/2"));
    assert_eq!(with_gap, expected);
}

#[test]
fn payload_is_the_slice_that_offset_and_length_mark() {
    let mut cursor = ByteCursor::new(b"tablesHelloWorld".to_vec());
    assert_eq!(read_payload(&mut cursor, 6, 0, 5), Ok(b"Hello".to_vec()));
    assert_eq!(read_payload(&mut cursor, 6, 5, 5), Ok(b"World".to_vec()));
    assert_eq!(read_payload(&mut cursor, 6, 3, 4), Ok(b"loWo".to_vec()));
    assert_eq!(read_payload(&mut cursor, 6, 0, 10), Ok(b"HelloWorld".to_vec()));
}

#[test]
fn payload_offset_counts_from_the_base_not_from_the_start() {
    let mut cursor = ByteCursor::new(b"0123456789".to_vec());
    assert_eq!(read_payload(&mut cursor, 0, 2, 3), Ok(b"234".to_vec()));
    assert_eq!(read_payload(&mut cursor, 4, 2, 3), Ok(b"678".to_vec()));
}

#[test]
fn payload_leaves_the_cursor_at_the_base() {
    let mut cursor = ByteCursor::new(b"tablesHelloWorld".to_vec());
    cursor.seek_absolute(2);
    assert!(read_payload(&mut cursor, 6, 5, 5).is_ok());
    assert_eq!(cursor.current_position(), 6);
    assert!(read_payload(&mut cursor, 6, 5, 50).is_err());
    assert_eq!(cursor.current_position(), 6);
    assert!(read_payload(&mut cursor, 6, -50, 1).is_err());
    assert_eq!(cursor.current_position(), 6);
}

#[test]
fn payload_may_be_empty() {
    let mut cursor = ByteCursor::new(b"tablesHello".to_vec());
    assert_eq!(read_payload(&mut cursor, 6, 5, 0), Ok(vec![]));
    assert_eq!(read_payload(&mut cursor, 6, 500, 0), Ok(vec![]));
}

#[test]
fn payload_beyond_the_end_is_malformed() {
    let mut cursor = ByteCursor::new(b"tablesHello".to_vec());
    assert_eq!(read_payload(&mut cursor, 6, 0, 6), Err(WadError::MalformedArchive));
    assert_eq!(read_payload(&mut cursor, 6, 5, 1), Err(WadError::MalformedArchive));
    assert_eq!(read_payload(&mut cursor, 6, 1, i32::MAX), Err(WadError::MalformedArchive));
    assert_eq!(read_payload(&mut cursor, u64::MAX, 1, 0), Err(WadError::MalformedArchive));
}

#[test]
fn payload_with_negative_offset_may_reach_into_the_tables() {
    let mut cursor = ByteCursor::new(b"tablesHello".to_vec());
    assert_eq!(read_payload(&mut cursor, 6, -6, 6), Ok(b"tables".to_vec()));
    assert_eq!(read_payload(&mut cursor, 6, -7, 6), Err(WadError::MalformedArchive));
}

#[test]
fn payload_with_negative_length_is_malformed() {
    let mut cursor = ByteCursor::new(b"tablesHello".to_vec());
    assert_eq!(read_payload(&mut cursor, 6, 0, -1), Err(WadError::MalformedArchive));
    assert_eq!(cursor.current_position(), 6);
}

#[test]
fn example_archive_extracts_hello() {
    let bytes = archive_bytes(&[("a/b.txt", 5, 0)], &[("a", vec![("b.txt", 0)])], b"Hello");
    let mut cursor = ByteCursor::new(bytes);
    let archive = decode_archive(&mut cursor).unwrap();
    assert_eq!(archive.file_count, 1);
    assert_eq!(archive.entries, vec![flat("a/b.txt", 5, 0)]);
    assert_eq!(archive.folder_count, 1);
    assert_eq!(archive.folders, vec![node("a", vec![file("b.txt")])]);
    let plan = plan_extraction(&archive.entries, &archive.folders);
    assert_eq!(plan, vec![create_dir("a"), write_file("a/b.txt", 0, 5)]);
    let content = read_payload(&mut cursor, archive.base, 0, 5).unwrap();
    assert_eq!(content, vec![0x48, 0x65, 0x6c, 0x6c, 0x6f]);
    assert_eq!(content, b"Hello");
}

#[test]
fn example_archive_in_memory() {
    let bytes = archive_bytes(&[("a/b.txt", 5, 0)], &[("a", vec![("b.txt", 0)])], b"Hello");
    let outcome = extract_in_memory(bytes).ok().unwrap();
    assert_eq!(outcome.dirs, vec!["a"]);
    assert_eq!(outcome.files, vec![(String::from("a/b.txt"), b"Hello".to_vec())]);
    assert!(outcome.skipped.is_empty());
}

#[test]
fn matching_tables_extract_every_file_with_its_bytes() {
    let data: Vec<u8> = (0..200u8).collect();
    let entries = [
        ("sound/c.ogg", 50, 150),
        ("/readme.txt", 10, 0),
        ("gfx/a.png", 40, 10),
        ("gfx/ui/b.png", 0, 50),
        ("gfx/ui/d.png", 100, 50),
    ];
    let folders = [
        ("gfx", vec![("a.png", 0), ("ui", 1)]),
        ("", vec![("readme.txt", 0), ("gfx", 1), ("sound", 1)]),
        ("gfx\\ui", vec![("b.png", 0), ("d.png", 0)]),
        ("sound", vec![("c.ogg", 0)]),
    ];
    let outcome = extract_in_memory(archive_bytes(&entries, &folders, &data)).ok().unwrap();
    assert!(outcome.skipped.is_empty());
    assert_eq!(outcome.files.len(), entries.len());
    for (path, length, offset) in entries {
        let written: Vec<&(String, Vec<u8>)> =
            outcome.files.iter().filter(|(name, _)| name == path).collect();
        assert_eq!(written.len(), 1);
        let content = &written[0].1;
        assert_eq!(content.len(), length as usize);
        assert_eq!(content[..], data[offset as usize..(offset + length) as usize]);
    }
    assert_eq!(outcome.dirs, vec!["gfx", "gfx/ui", "", "/gfx", "/sound", "gfx/ui", "sound"]);
}

#[test]
fn leaf_without_entry_is_skipped_and_the_others_extract() {
    let entries = [("a/1.bin", 3, 0), ("a/3.bin", 3, 3), ("b/4.bin", 2, 6)];
    let folders = [
        ("a", vec![("1.bin", 0), ("2.bin", 0), ("3.bin", 0)]),
        ("b", vec![("lost.bin", 0), ("4.bin", 0)]),
    ];
    let outcome = extract_in_memory(archive_bytes(&entries, &folders, b"aaacccdd")).ok().unwrap();
    assert_eq!(outcome.skipped, vec!["a/2.bin", "b/lost.bin"]);
    assert_eq!(
        outcome.files,
        vec![
            (String::from("a/1.bin"), b"aaa".to_vec()),
            (String::from("a/3.bin"), b"ccc".to_vec()),
            (String::from("b/4.bin"), b"dd".to_vec()),
        ]
    );
}

#[test]
fn unknown_tag_stops_before_anything_is_extracted() {
    let bytes = archive_bytes(
        &[("a/1.bin", 3, 0), ("a/2.bin", 3, 3)],
        &[("a", vec![("1.bin", 0), ("2.bin", 2)])],
        b"aaabbb",
    );
    let (outcome, error) = extract_in_memory(bytes).err().unwrap();
    assert_eq!(error, WadError::MalformedArchive);
    assert!(outcome.dirs.is_empty());
    assert!(outcome.files.is_empty());
    assert!(outcome.skipped.is_empty());
}

#[test]
fn wrong_magic_stops_before_anything_is_extracted() {
    let mut bytes = archive_bytes(&[("a/b.txt", 5, 0)], &[("a", vec![("b.txt", 0)])], b"Hello");
    bytes[..4].copy_from_slice(b"XXXX");
    let (outcome, error) = extract_in_memory(bytes).err().unwrap();
    assert_eq!(error, WadError::UnsupportedFormat);
    assert!(outcome.dirs.is_empty());
    assert!(outcome.files.is_empty());
}

#[test]
fn file_beyond_the_data_section_stops_the_run_there() {
    let bytes = archive_bytes(
        &[("a/1.bin", 3, 0), ("a/2.bin", 30, 3), ("a/3.bin", 3, 3)],
        &[("a", vec![("1.bin", 0), ("2.bin", 0), ("3.bin", 0)])],
        b"aaabbb",
    );
    let (outcome, error) = extract_in_memory(bytes).err().unwrap();
    assert_eq!(error, WadError::MalformedArchive);
    assert_eq!(outcome.files, vec![(String::from("a/1.bin"), b"aaa".to_vec())]);
}

#[test]
fn files_may_share_bytes_and_come_in_any_order() {
    let entries = [("a/whole", 6, 0), ("a/tail", 2, 4), ("a/head", 2, 0)];
    let folders = [("a", vec![("tail", 0), ("whole", 0), ("head", 0)])];
    let outcome = extract_in_memory(archive_bytes(&entries, &folders, b"abcdef")).ok().unwrap();
    assert_eq!(
        outcome.files,
        vec![
            (String::from("a/tail"), b"ef".to_vec()),
            (String::from("a/whole"), b"abcdef".to_vec()),
            (String::from("a/head"), b"ab".to_vec()),
        ]
    );
}
