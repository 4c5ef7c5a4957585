//! Decoding of WAD asset archives and planning of their extraction.
//!
//! An archive is a header, two tables and a data section:
//!
//! ```text
//! header       "AGAR", 12 reserved bytes, file count
//! flat index   per file: path, length, 4 unused bytes, offset, 4 unused bytes
//!              folder count
//! folder table per folder: name, child count,
//!                          per child: name, tag (0 file, 1 folder)
//! data         the bytes of the files; offsets count from its start
//! ```
//!
//! Integers are 32 bits, signed, little-endian. A string is its length in
//! bytes and then that many bytes of UTF-8.
//!
//! [`cursor`] reads integers, strings and raw bytes with bounds checks.
//! [`header`], [`flat`] and [`tree`] decode the three parts, and [`archive`]
//! decodes them together. [`lookup`] finds a path in the flat index,
//! [`plan`] turns the folder table into the steps of an extraction, and
//! [`payload`] hands out the bytes of a file. Nothing here touches the file
//! system: the caller reads the archive into memory and carries the steps
//! out.
//!
//! Every decoder is specified by a function on the bytes of the stream (the
//! `parse_` functions), and every step of a plan by the folder, the child
//! and the index alone (`leaf_action`).

pub mod archive;
pub mod cursor;
pub mod error;
pub mod extract;
pub mod flat;
pub mod header;
pub mod lookup;
pub mod payload;
pub mod plan;
pub mod text;
pub mod tree;
