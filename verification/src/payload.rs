//! The data section: the bytes of the files, which the flat index locates
//! by offsets that count from the end of the tables.

use crate::cursor::{parse_bytes, seek_target, ByteCursor};
use crate::error::WadError;
use vstd::prelude::*;

verus! {

/// The bytes of a file that lies `offset` bytes into the data section, which
/// starts at `base`, and is `length` bytes long. The file has to lie within
/// the stream: a negative length, a start before the stream's first byte and
/// an end beyond its last are errors.
pub open spec fn payload(data: Seq<u8>, base: nat, offset: int, length: int) -> Result<
    Seq<u8>,
    WadError,
> {
    if length < 0 {
        Err(WadError::MalformedArchive)
    } else {
        match seek_target(base, offset) {
            Some(start) => match parse_bytes(data, start, length as nat) {
                Ok((bytes, _)) => Ok(bytes),
                Err(e) => Err(e),
            },
            None => Err(WadError::MalformedArchive),
        }
    }
}

/// Reads the bytes of one file: moves to `base`, then by `offset`, and reads
/// exactly `length` bytes. Whether this succeeds or fails, the cursor is
/// left at `base`, so that the next file is found from there again.
pub fn read_payload(cursor: &mut ByteCursor, base: u64, offset: i32, length: i32) -> (r: Result<
    Vec<u8>,
    WadError,
>)
    ensures
        final(cursor)@.data == old(cursor)@.data,
        final(cursor)@.pos == base,
        match payload(old(cursor)@.data, base as nat, offset as int, length as int) {
            Ok(bytes) => r matches Ok(v) && v@ == bytes,
            Err(e) => r matches Err(f) && f == e,
        },
{
    cursor.seek_absolute(base);
    if length < 0 {
        return Err(WadError::MalformedArchive);
    }
    match cursor.seek_relative(offset as i64) {
        Ok(_) => {},
        Err(e) => {
            return Err(e);
        },
    }
    let r = cursor.read_bytes(length as usize);
    cursor.seek_absolute(base);
    r
}

/// The bytes of a file are there exactly when the file lies within the
/// stream; they are then the slice of the stream that the offset and the
/// length mark, byte for byte, and as many as the length says.
pub proof fn lemma_payload_is_slice(data: Seq<u8>, base: nat, offset: int, length: int)
    ensures
        payload(data, base, offset, length) is Ok <==> 0 <= length && 0 <= base + offset
            <= u64::MAX && (length == 0 || base + offset + length <= data.len()),
        payload(data, base, offset, length) matches Ok(bytes) ==> {
            &&& bytes.len() == length
            &&& forall|i: int| 0 <= i < length ==> bytes[i] == data[base + offset + i]
            &&& length > 0 ==> bytes == data.subrange(base + offset, base + offset + length)
        },
        payload(data, base, offset, length) matches Err(e) ==> e == WadError::MalformedArchive,
{
}

} // verus!
