//! Text as the archive stores it: UTF-8 bytes, decoded permissively, and
//! paths whose parts are set apart by `/`.

use vstd::prelude::*;
use vstd::utf8::{
    decode_utf8, encode_utf8, encode_utf8_decode_utf8, encode_utf8_valid_utf8, is_ascii_chars,
    is_ascii_chars_encode_utf8, valid_utf8,
};

verus! {

/// The separator between the parts of a path within the archive.
pub const SEPARATOR: char = '/';

/// The separator that some archives use in its place.
pub const FOREIGN_SEPARATOR: char = '\\';

/// What the standard library's permissive UTF-8 decoding makes of `bytes`.
///
/// Nothing is known of this name but what [`decode_lossy`] states: for
/// well-formed UTF-8 it is the encoded text; how a malformed sequence is
/// repaired is left to the standard library and is not modelled here.
pub uninterp spec fn utf8_lossy(bytes: Seq<u8>) -> Seq<char>;

/// The text that `bytes` stand for: the text that they encode, where they
/// are well-formed UTF-8, and otherwise what permissive decoding makes of
/// them.
pub open spec fn text_of(bytes: Seq<u8>) -> Seq<char> {
    if valid_utf8(bytes) {
        decode_utf8(bytes)
    } else {
        utf8_lossy(bytes)
    }
}

/// Decodes `bytes` as UTF-8, replacing what is malformed; never fails.
///
/// Trusted: the body is `String::from_utf8_lossy`. The contract gives its
/// result the name [`utf8_lossy`], and claims what the standard library
/// documents for well-formed input: the result is then exactly the text that
/// the bytes encode.
#[verifier::external_body]
fn decode_lossy(bytes: &[u8]) -> (s: String)
    ensures
        s@ == utf8_lossy(bytes@),
        valid_utf8(bytes@) ==> s@ == decode_utf8(bytes@),
{
    String::from_utf8_lossy(bytes).into_owned()
}

/// Decodes `bytes` as text, permissively; never fails.
pub fn decode_text(bytes: &[u8]) -> (s: String)
    ensures
        s@ == text_of(bytes@),
{
    decode_lossy(bytes)
}

/// No bytes stand for the empty text.
pub proof fn lemma_text_of_nothing()
    ensures
        text_of(Seq::empty()) == Seq::<char>::empty(),
{
}

/// The UTF-8 encoding of a text stands for that text.
pub proof fn lemma_text_of_encoding(chars: Seq<char>)
    ensures
        text_of(encode_utf8(chars)) == chars,
{
    encode_utf8_valid_utf8(chars);
    encode_utf8_decode_utf8(chars);
}

/// Bytes below 128 stand for the ASCII characters with their numbers.
pub proof fn lemma_text_of_ascii(chars: Seq<char>, bytes: Seq<u8>)
    requires
        is_ascii_chars(chars),
        bytes.len() == chars.len(),
        forall|i: int| 0 <= i < chars.len() ==> bytes[i] == chars[i] as u8,
    ensures
        text_of(bytes) == chars,
{
    is_ascii_chars_encode_utf8(chars);
    assert(bytes =~= encode_utf8(chars));
    lemma_text_of_encoding(chars);
}

/// Appends one character to `text`.
///
/// Trusted: the body is `String::push`, which the standard library documents
/// to append the character to the end of the string.
#[verifier::external_body]
fn push_char(text: &mut String, c: char)
    ensures
        final(text)@ == old(text)@.push(c),
{
    text.push(c)
}

/// `path` with every backslash turned into a forward slash.
pub open spec fn normalized(path: Seq<char>) -> Seq<char> {
    path.map_values(
        |c: char|
            if c == FOREIGN_SEPARATOR {
                SEPARATOR
            } else {
                c
            },
    )
}

/// The path within the archive of the child `child` of the folder `folder`:
/// the two names with a separator between them, normalised. The separator
/// is there for the root folder, whose name is empty, as well.
pub open spec fn joined(folder: Seq<char>, child: Seq<char>) -> Seq<char> {
    normalized(folder + seq![SEPARATOR] + child)
}

/// Normalising a path made of two pieces is normalising each piece.
pub proof fn lemma_normalized_concat(a: Seq<char>, b: Seq<char>)
    ensures
        normalized(a + b) == normalized(a) + normalized(b),
{
}

/// Appends `path`, normalised, to `out`.
fn push_normalized(out: &mut String, path: &str)
    ensures
        final(out)@ == old(out)@ + normalized(path@),
{
    for c in it: path.chars()
        invariant
            it.seq() == path@,
            out@ == old(out)@ + normalized(path@.take(it.index() as int)),
    {
        let mapped = if c == FOREIGN_SEPARATOR {
            SEPARATOR
        } else {
            c
        };
        push_char(out, mapped);
    }
}

/// Turns every backslash of `path` into a forward slash.
pub fn normalize_separators(path: &str) -> (r: String)
    ensures
        r@ == normalized(path@),
{
    let mut out = String::new();
    push_normalized(&mut out, path);
    out
}

/// The path within the archive of the child `child` of the folder `folder`.
pub fn join_path(folder: &str, child: &str) -> (r: String)
    ensures
        r@ == joined(folder@, child@),
{
    let mut out = String::new();
    push_normalized(&mut out, folder);
    push_char(&mut out, SEPARATOR);
    push_normalized(&mut out, child);
    proof {
        lemma_normalized_concat(folder@ + seq![SEPARATOR], child@);
        lemma_normalized_concat(folder@, seq![SEPARATOR]);
    }
    out
}

} // verus!
