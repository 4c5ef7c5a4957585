//! A seekable, bounds-checked reader over the bytes of an archive.
//!
//! Every read either consumes exactly the bytes of one item and returns it,
//! or fails and leaves the cursor where it was.

use crate::error::WadError;
use crate::text::{decode_text, lemma_text_of_nothing, text_of};
use vstd::prelude::*;
use vstd::slice::{slice_subrange, slice_to_vec};

verus! {

/// What a read at some position yields: the value and the position after it,
/// or the reason why nothing could be read.
pub type Parsed<T> = Result<(T, nat), WadError>;

/// The number of bytes between `pos` and the end of `data`; zero when `pos`
/// lies at or beyond the end.
pub open spec fn remaining(data: Seq<u8>, pos: nat) -> nat {
    if pos <= data.len() {
        (data.len() - pos) as nat
    } else {
        0
    }
}

/// The `n` bytes of `data` that start at `pos`.
pub open spec fn window(data: Seq<u8>, pos: nat, n: nat) -> Seq<u8>
    recommends
        n <= remaining(data, pos),
{
    if n == 0 {
        Seq::empty()
    } else {
        data.subrange(pos as int, (pos + n) as int)
    }
}

/// The unsigned number that four bytes spell, least significant byte first.
pub open spec fn le_u32(b: Seq<u8>) -> int
    recommends
        b.len() == 4,
{
    b[0] as int + 0x100 * (b[1] as int) + 0x1_0000 * (b[2] as int) + 0x100_0000 * (b[3] as int)
}

/// The signed (two's complement) number that four bytes spell, least
/// significant byte first.
pub open spec fn le_i32(b: Seq<u8>) -> int
    recommends
        b.len() == 4,
{
    if le_u32(b) < 0x8000_0000 {
        le_u32(b)
    } else {
        le_u32(b) - 0x1_0000_0000
    }
}

/// Reading `n` raw bytes at `pos`.
pub open spec fn parse_bytes(data: Seq<u8>, pos: nat, n: nat) -> Parsed<Seq<u8>> {
    if n <= remaining(data, pos) {
        Ok((window(data, pos, n), pos + n))
    } else {
        Err(WadError::MalformedArchive)
    }
}

/// Passing over `n` bytes at `pos`, which have to be there.
pub open spec fn parse_skip(data: Seq<u8>, pos: nat, n: nat) -> Parsed<()> {
    if n <= remaining(data, pos) {
        Ok(((), pos + n))
    } else {
        Err(WadError::MalformedArchive)
    }
}

/// Reading one byte at `pos`.
pub open spec fn parse_u8(data: Seq<u8>, pos: nat) -> Parsed<u8> {
    if 1 <= remaining(data, pos) {
        Ok((data[pos as int], pos + 1))
    } else {
        Err(WadError::MalformedArchive)
    }
}

/// Reading a little-endian unsigned 32-bit integer at `pos`.
pub open spec fn parse_u32(data: Seq<u8>, pos: nat) -> Parsed<u32> {
    if 4 <= remaining(data, pos) {
        Ok((le_u32(window(data, pos, 4)) as u32, pos + 4))
    } else {
        Err(WadError::MalformedArchive)
    }
}

/// Reading a little-endian signed 32-bit integer at `pos`.
pub open spec fn parse_i32(data: Seq<u8>, pos: nat) -> Parsed<i32> {
    if 4 <= remaining(data, pos) {
        Ok((le_i32(window(data, pos, 4)) as i32, pos + 4))
    } else {
        Err(WadError::MalformedArchive)
    }
}

/// Reading the body of a string whose length prefix said `len`: that many
/// bytes at `pos`, decoded permissively. A negative `len` is an error.
pub open spec fn parse_text(data: Seq<u8>, pos: nat, len: int) -> Parsed<Seq<char>> {
    if 0 <= len <= remaining(data, pos) {
        Ok((text_of(window(data, pos, len as nat)), pos + len as nat))
    } else {
        Err(WadError::MalformedArchive)
    }
}

/// Reading a length-prefixed string at `pos`: a signed 32-bit byte count,
/// then that many bytes of text.
pub open spec fn parse_string(data: Seq<u8>, pos: nat) -> Parsed<Seq<char>> {
    match parse_i32(data, pos) {
        Ok((len, body)) => parse_text(data, body, len as int),
        Err(e) => Err(e),
    }
}

/// A string whose length prefix is zero is empty, and ends where its prefix
/// ends.
pub proof fn lemma_empty_string(data: Seq<u8>, pos: nat)
    requires
        parse_i32(data, pos) matches Ok((len, _)) && len == 0,
    ensures
        parse_string(data, pos) == Ok::<(Seq<char>, nat), WadError>((Seq::empty(), pos + 4)),
{
    lemma_text_of_nothing();
}

/// Reading `count` items one after another, starting at `pos`, each by
/// `item`; the first failure is the failure of the whole.
pub open spec fn parse_repeat<T>(
    item: spec_fn(Seq<u8>, nat) -> Parsed<T>,
    data: Seq<u8>,
    pos: nat,
    count: nat,
) -> Parsed<Seq<T>>
    decreases count,
{
    if count == 0 {
        Ok((Seq::empty(), pos))
    } else {
        match parse_repeat(item, data, pos, (count - 1) as nat) {
            Ok((items, last_at)) => match item(data, last_at) {
                Ok((last, next)) => Ok((items.push(last), next)),
                Err(e) => Err(e),
            },
            Err(e) => Err(e),
        }
    }
}

/// The number of items that a stored count stands for: a negative count
/// stands for none.
pub open spec fn item_count(stored: i32) -> nat {
    if stored < 0 {
        0
    } else {
        stored as nat
    }
}

/// Once an item fails to decode, no longer run of items decodes either, and
/// the failure is the same.
pub proof fn lemma_repeat_failure_persists<T>(
    item: spec_fn(Seq<u8>, nat) -> Parsed<T>,
    data: Seq<u8>,
    pos: nat,
    shorter: nat,
    longer: nat,
)
    requires
        shorter <= longer,
        parse_repeat(item, data, pos, shorter) is Err,
    ensures
        parse_repeat(item, data, pos, longer) == parse_repeat(item, data, pos, shorter),
    decreases longer,
{
    if shorter < longer {
        lemma_repeat_failure_persists(item, data, pos, shorter, (longer - 1) as nat);
    }
}

/// Where every item fails only as malformed, so does a run of items.
pub proof fn lemma_repeat_failure_is_malformed<T>(
    item: spec_fn(Seq<u8>, nat) -> Parsed<T>,
    data: Seq<u8>,
    pos: nat,
    count: nat,
)
    requires
        forall|at: nat| #[trigger]
            item(data, at) matches Err(e) ==> e == WadError::MalformedArchive,
    ensures
        parse_repeat(item, data, pos, count) matches Err(e) ==> e == WadError::MalformedArchive,
    decreases count,
{
    if count > 0 {
        lemma_repeat_failure_is_malformed(item, data, pos, (count - 1) as nat);
    }
}

/// Moving by `delta` from `pos`; the target has to be a position, that is,
/// neither negative nor beyond what 64 bits hold.
pub open spec fn seek_target(pos: nat, delta: int) -> Option<nat> {
    if 0 <= pos + delta <= u64::MAX {
        Some((pos + delta) as nat)
    } else {
        None
    }
}

/// The abstract state of a [`ByteCursor`].
pub struct CursorState {
    /// The bytes of the stream; reading never changes them.
    pub data: Seq<u8>,
    /// The position of the next read, counted from the start of the stream.
    /// It may lie beyond the end, where every read of one byte or more fails.
    pub pos: nat,
}

/// A reader that walks over an archive held in memory.
pub struct ByteCursor {
    data: Vec<u8>,
    pos: u64,
}

impl View for ByteCursor {
    type V = CursorState;

    closed spec fn view(&self) -> CursorState {
        CursorState { data: self.data@, pos: self.pos as nat }
    }
}

impl ByteCursor {
    /// A cursor at the start of `data`.
    pub fn new(data: Vec<u8>) -> (cursor: ByteCursor)
        ensures
            cursor@.data == data@,
            cursor@.pos == 0,
    {
        ByteCursor { data, pos: 0 }
    }

    /// The position of the next read.
    pub fn current_position(&self) -> (pos: u64)
        ensures
            pos == self@.pos,
    {
        self.pos
    }

    /// The length of the whole stream in bytes.
    pub fn stream_len(&self) -> (len: usize)
        ensures
            len == self@.data.len(),
    {
        self.data.len()
    }

    /// Moves to `pos`, which may lie beyond the end of the stream.
    pub fn seek_absolute(&mut self, pos: u64)
        ensures
            final(self)@.data == old(self)@.data,
            final(self)@.pos == pos,
    {
        self.pos = pos;
    }

    /// Moves by `delta` bytes, forwards or backwards. Fails, without moving,
    /// when the target would be negative or would not fit in 64 bits.
    pub fn seek_relative(&mut self, delta: i64) -> (r: Result<(), WadError>)
        ensures
            final(self)@.data == old(self)@.data,
            match seek_target(old(self)@.pos, delta as int) {
                Some(target) => r == Ok::<(), WadError>(()) && final(self)@.pos == target,
                None => r == Err::<(), WadError>(WadError::MalformedArchive) && final(self)@.pos
                    == old(self)@.pos,
            },
    {
        if delta >= 0 {
            let forward = delta as u64;
            if forward > u64::MAX - self.pos {
                return Err(WadError::MalformedArchive);
            }
            self.pos = self.pos + forward;
        } else {
            // -(delta + 1) fits in i64 even for the least value of all.
            let backward = (-(delta + 1)) as u64 + 1;
            if backward > self.pos {
                return Err(WadError::MalformedArchive);
            }
            self.pos = self.pos - backward;
        }
        Ok(())
    }

    /// The `n` bytes at the current position, if the stream holds that many.
    fn peek(&self, n: usize) -> (r: Option<&[u8]>)
        ensures
            match r {
                Some(bytes) => n <= remaining(self@.data, self@.pos) && bytes@ == window(
                    self@.data,
                    self@.pos,
                    n as nat,
                ),
                None => n > remaining(self@.data, self@.pos),
            },
    {
        let len = self.data.len();
        if n == 0 {
            Some(slice_subrange(self.data.as_slice(), 0, 0))
        } else if self.pos <= len as u64 && n <= len - self.pos as usize {
            let at = self.pos as usize;
            Some(slice_subrange(self.data.as_slice(), at, at + n))
        } else {
            None
        }
    }

    /// Moves forward over `n` bytes that [`peek`](Self::peek) found present.
    fn advance(&mut self, n: usize)
        requires
            n <= remaining(old(self)@.data, old(self)@.pos),
        ensures
            final(self)@.data == old(self)@.data,
            final(self)@.pos == old(self)@.pos + n,
    {
        if n > 0 {
            assert(self.pos + n <= self.data.len() <= usize::MAX);
            self.pos = self.pos + n as u64;
        }
    }

    /// Reads exactly `n` bytes, or fails if fewer remain.
    pub fn read_bytes(&mut self, n: usize) -> (r: Result<Vec<u8>, WadError>)
        ensures
            final(self)@.data == old(self)@.data,
            match parse_bytes(old(self)@.data, old(self)@.pos, n as nat) {
                Ok((bytes, next)) => r matches Ok(v) && v@ == bytes && final(self)@.pos == next,
                Err(e) => r matches Err(f) && f == e && final(self)@.pos == old(self)@.pos,
            },
    {
        match self.peek(n) {
            Some(bytes) => {
                let v = slice_to_vec(bytes);
                self.advance(n);
                Ok(v)
            },
            None => Err(WadError::MalformedArchive),
        }
    }

    /// Passes over exactly `n` bytes, or fails if fewer remain.
    pub fn skip(&mut self, n: usize) -> (r: Result<(), WadError>)
        ensures
            final(self)@.data == old(self)@.data,
            match parse_skip(old(self)@.data, old(self)@.pos, n as nat) {
                Ok((_, next)) => r == Ok::<(), WadError>(()) && final(self)@.pos == next,
                Err(e) => r == Err::<(), WadError>(e) && final(self)@.pos == old(self)@.pos,
            },
    {
        match self.peek(n) {
            Some(_) => {
                self.advance(n);
                Ok(())
            },
            None => Err(WadError::MalformedArchive),
        }
    }

    /// Reads one byte.
    pub fn read_u8(&mut self) -> (r: Result<u8, WadError>)
        ensures
            final(self)@.data == old(self)@.data,
            match parse_u8(old(self)@.data, old(self)@.pos) {
                Ok((value, next)) => r == Ok::<u8, WadError>(value) && final(self)@.pos == next,
                Err(e) => r == Err::<u8, WadError>(e) && final(self)@.pos == old(self)@.pos,
            },
    {
        match self.peek(1) {
            Some(bytes) => {
                let value = bytes[0];
                self.advance(1);
                Ok(value)
            },
            None => Err(WadError::MalformedArchive),
        }
    }

    /// Reads a little-endian unsigned 32-bit integer and advances 4 bytes.
    pub fn read_u32_le(&mut self) -> (r: Result<u32, WadError>)
        ensures
            final(self)@.data == old(self)@.data,
            match parse_u32(old(self)@.data, old(self)@.pos) {
                Ok((value, next)) => r == Ok::<u32, WadError>(value) && final(self)@.pos == next,
                Err(e) => r == Err::<u32, WadError>(e) && final(self)@.pos == old(self)@.pos,
            },
    {
        match self.peek(4) {
            Some(bytes) => {
                let value = u32_of_le(bytes);
                self.advance(4);
                Ok(value)
            },
            None => Err(WadError::MalformedArchive),
        }
    }

    /// Reads a little-endian signed 32-bit integer and advances 4 bytes.
    pub fn read_i32_le(&mut self) -> (r: Result<i32, WadError>)
        ensures
            final(self)@.data == old(self)@.data,
            match parse_i32(old(self)@.data, old(self)@.pos) {
                Ok((value, next)) => r == Ok::<i32, WadError>(value) && final(self)@.pos == next,
                Err(e) => r == Err::<i32, WadError>(e) && final(self)@.pos == old(self)@.pos,
            },
    {
        match self.peek(4) {
            Some(bytes) => {
                let unsigned = u32_of_le(bytes);
                let value: i32 = if unsigned < 0x8000_0000 {
                    unsigned as i32
                } else {
                    (unsigned - 0x8000_0000) as i32 + i32::MIN
                };
                self.advance(4);
                Ok(value)
            },
            None => Err(WadError::MalformedArchive),
        }
    }

    /// Reads the body of a string whose length prefix, already consumed, said
    /// `len`: that many bytes, decoded permissively. Fails on a negative
    /// `len` and when fewer bytes remain.
    pub fn read_text(&mut self, len: i32) -> (r: Result<String, WadError>)
        ensures
            final(self)@.data == old(self)@.data,
            match parse_text(old(self)@.data, old(self)@.pos, len as int) {
                Ok((text, next)) => r matches Ok(s) && s@ == text && final(self)@.pos == next,
                Err(e) => r matches Err(f) && f == e && final(self)@.pos == old(self)@.pos,
            },
    {
        if len < 0 {
            return Err(WadError::MalformedArchive);
        }
        let n = len as usize;
        match self.peek(n) {
            Some(bytes) => {
                let text = decode_text(bytes);
                self.advance(n);
                Ok(text)
            },
            None => Err(WadError::MalformedArchive),
        }
    }

    /// Reads a length-prefixed string: a little-endian signed 32-bit byte
    /// count, then that many bytes of permissively decoded UTF-8.
    pub fn read_length_prefixed_string(&mut self) -> (r: Result<String, WadError>)
        ensures
            final(self)@.data == old(self)@.data,
            match parse_string(old(self)@.data, old(self)@.pos) {
                Ok((text, next)) => r matches Ok(s) && s@ == text && final(self)@.pos == next,
                Err(e) => r matches Err(f) && f == e && final(self)@.pos == old(self)@.pos,
            },
    {
        let start = self.pos;
        let len = match self.read_i32_le() {
            Ok(len) => len,
            Err(e) => {
                return Err(e);
            },
        };
        match self.read_text(len) {
            Ok(text) => Ok(text),
            Err(e) => {
                self.pos = start;
                Err(e)
            },
        }
    }
}

/// The number spelt by the four bytes of `bytes`, least significant first.
fn u32_of_le(bytes: &[u8]) -> (value: u32)
    requires
        bytes@.len() == 4,
    ensures
        value == le_u32(bytes@),
{
    let b0 = bytes[0] as u32;
    let b1 = bytes[1] as u32;
    let b2 = bytes[2] as u32;
    let b3 = bytes[3] as u32;
    b0 + 0x100 * b1 + 0x1_0000 * b2 + 0x100_0000 * b3
}

} // verus!
