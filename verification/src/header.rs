//! The fixed header that opens an archive: a signature, a reserved region
//! that is passed over, and the number of entries in the flat index.

use crate::cursor::{parse_i32, parse_skip, remaining, window, ByteCursor, CursorState, Parsed};
use crate::error::WadError;
use vstd::prelude::*;

verus! {

/// The four bytes that open every archive: `AGAR` in ASCII.
pub const SIGNATURE: [u8; 4] = [0x41, 0x47, 0x41, 0x52];

/// The length of the region between the signature and the file count. What
/// it holds is not known and never looked at.
pub const RESERVED_LEN: usize = 12;

/// True when the four bytes at `pos` are there and spell the signature.
pub open spec fn has_signature(data: Seq<u8>, pos: nat) -> bool {
    4 <= remaining(data, pos) && window(data, pos, 4) == SIGNATURE@
}

/// Reading a header at `pos`: the file count and the position of the flat
/// index. Without the signature the stream is no archive at all; with it, a
/// header that is cut short makes the archive malformed.
pub open spec fn parse_header(data: Seq<u8>, pos: nat) -> Parsed<i32> {
    if !has_signature(data, pos) {
        Err(WadError::UnsupportedFormat)
    } else {
        match parse_skip(data, pos + 4, RESERVED_LEN as nat) {
            Ok((_, count_at)) => parse_i32(data, count_at),
            Err(e) => Err(e),
        }
    }
}

/// How [`decode_header`] relates the cursor before the call to its result
/// and the cursor after it.
pub open spec fn header_decoded(
    before: CursorState,
    result: Result<i32, WadError>,
    after: CursorState,
) -> bool {
    &&& after.data == before.data
    &&& match parse_header(before.data, before.pos) {
        Ok((file_count, next)) => result == Ok::<i32, WadError>(file_count) && after.pos == next,
        Err(e) => result == Err::<i32, WadError>(e) && after.pos == before.pos,
    }
}

/// Checks the signature, passes over the reserved region and reads the file
/// count, leaving the cursor at the start of the flat index. The count is
/// returned as stored, negative or not. On failure the cursor has not moved.
pub fn decode_header(cursor: &mut ByteCursor) -> (r: Result<i32, WadError>)
    ensures
        header_decoded(old(cursor)@, r, final(cursor)@),
{
    let start = cursor.current_position();
    let magic = match cursor.read_bytes(4) {
        Ok(magic) => magic,
        Err(_) => {
            return Err(WadError::UnsupportedFormat);
        },
    };
    if magic[0] != SIGNATURE[0] || magic[1] != SIGNATURE[1] || magic[2] != SIGNATURE[2] || magic[3]
        != SIGNATURE[3] {
        cursor.seek_absolute(start);
        return Err(WadError::UnsupportedFormat);
    }
    assert(magic@ == SIGNATURE@);
    match cursor.skip(RESERVED_LEN) {
        Ok(_) => {},
        Err(e) => {
            cursor.seek_absolute(start);
            return Err(e);
        },
    }
    match cursor.read_i32_le() {
        Ok(file_count) => Ok(file_count),
        Err(e) => {
            cursor.seek_absolute(start);
            Err(e)
        },
    }
}

/// Decoding the header twice gives the same file count: a cursor that has
/// decoded a header from offset 0, and is then moved back to offset 0,
/// decodes the same header again and ends where it ended before.
pub proof fn lemma_decode_header_repeatable(
    start: CursorState,
    first: Result<i32, WadError>,
    decoded: CursorState,
    rewound: CursorState,
    second: Result<i32, WadError>,
    end: CursorState,
)
    requires
        start.pos == 0,
        header_decoded(start, first, decoded),
        rewound.data == decoded.data,
        rewound.pos == 0,
        header_decoded(rewound, second, end),
    ensures
        second == first,
        first is Ok ==> end == decoded,
{
}

/// A stream that does not start with the signature is rejected as
/// unsupported, whatever else it holds.
pub proof fn lemma_wrong_signature_is_unsupported(data: Seq<u8>, pos: nat)
    requires
        !has_signature(data, pos),
    ensures
        parse_header(data, pos) == Err::<(i32, nat), WadError>(WadError::UnsupportedFormat),
{
}

} // verus!
