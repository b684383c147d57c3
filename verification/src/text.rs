//! Fixed-width fields of bytes: padding on the way in, trimming on the way out.

use vstd::prelude::*;
use vstd::utf8::{
    decode_utf8, encode_utf8, encode_utf8_decode_utf8, encode_utf8_valid_utf8, valid_utf8,
};
use crate::block::zeros;

verus! {

/// The bytes that may surround the text of a field.
#[derive(Clone, Copy, Debug)]
pub enum Padding {
    /// The NUL byte, which fills the unused end of a field.
    Nul,
    /// ASCII white space: space, tab, line feed, vertical tab, form feed and
    /// carriage return.
    Whitespace,
}

/// True when `byte` is padding of the given kind.
pub open spec fn is_padding(kind: Padding, byte: u8) -> bool {
    match kind {
        Padding::Nul => byte == 0,
        Padding::Whitespace => byte == 0x20 || (0x09 <= byte && byte <= 0x0d),
    }
}

/// `bytes` without the padding at its start.
pub open spec fn trim_start(bytes: Seq<u8>, kind: Padding) -> Seq<u8>
    decreases bytes.len(),
{
    if bytes.len() > 0 && is_padding(kind, bytes[0]) {
        trim_start(bytes.drop_first(), kind)
    } else {
        bytes
    }
}

/// `bytes` without the padding at its end.
pub open spec fn trim_end(bytes: Seq<u8>, kind: Padding) -> Seq<u8>
    decreases bytes.len(),
{
    if bytes.len() > 0 && is_padding(kind, bytes.last()) {
        trim_end(bytes.drop_last(), kind)
    } else {
        bytes
    }
}

/// `bytes` without the padding at either end.
pub open spec fn trimmed(bytes: Seq<u8>, kind: Padding) -> Seq<u8> {
    trim_end(trim_start(bytes, kind), kind)
}

/// `text` cut or filled with NUL bytes to exactly `width` bytes.
pub open spec fn padded(text: Seq<u8>, width: nat) -> Seq<u8> {
    if text.len() >= width {
        text.take(width as int)
    } else {
        text + zeros((width - text.len()) as nat)
    }
}

/// The text that `String::from_utf8_lossy` makes of bytes that are not valid
/// UTF-8, in which U+FFFD stands for each ill-formed part.
pub uninterp spec fn utf8_lossy(bytes: Seq<u8>) -> Seq<char>;

/// The text that bytes are read as: their decoding where they are valid
/// UTF-8, the repaired text otherwise.
pub open spec fn lossy_text(bytes: Seq<u8>) -> Seq<char> {
    if valid_utf8(bytes) {
        decode_utf8(bytes)
    } else {
        utf8_lossy(bytes)
    }
}

/// The text of a text field: what its bytes are read as once the NUL bytes
/// at both ends are taken away. A NUL byte is a character of its own in
/// UTF-8, so it makes no difference whether they are taken away before the
/// bytes are read or after.
pub open spec fn field_text(field: Seq<u8>) -> Seq<char> {
    lossy_text(trimmed(field, Padding::Nul))
}

/// True when a field of `width` bytes gives `text` back unchanged: its
/// bytes are no more than the field holds, and neither the first nor the
/// last of them is a NUL.
pub open spec fn text_fits(text: Seq<char>, width: nat) -> bool {
    let bytes = encode_utf8(text);
    &&& bytes.len() <= width
    &&& bytes.len() > 0 ==> bytes[0] != 0 && bytes.last() != 0
}

/// Trimming never makes a field longer.
pub proof fn lemma_trim_start_len(bytes: Seq<u8>, kind: Padding)
    ensures
        trim_start(bytes, kind).len() <= bytes.len(),
    decreases bytes.len(),
{
    if bytes.len() > 0 && is_padding(kind, bytes[0]) {
        lemma_trim_start_len(bytes.drop_first(), kind);
    }
}

/// Nothing is left of a run of NUL bytes once it is trimmed.
pub proof fn lemma_trim_start_zeros(count: nat)
    ensures
        trim_start(zeros(count), Padding::Nul) == Seq::<u8>::empty(),
    decreases count,
{
    if count > 0 {
        lemma_trim_start_zeros((count - 1) as nat);
        assert(zeros(count).drop_first() =~= zeros((count - 1) as nat));
    }
}

/// NUL bytes after a text are trimmed away with those at the text's end.
pub proof fn lemma_trim_end_zeros(bytes: Seq<u8>, count: nat)
    ensures
        trim_end(bytes + zeros(count), Padding::Nul) == trim_end(bytes, Padding::Nul),
    decreases count,
{
    if count > 0 {
        lemma_trim_end_zeros(bytes, (count - 1) as nat);
        assert((bytes + zeros(count)).drop_last() =~= bytes + zeros((count - 1) as nat));
    }
}

/// Trimming the NUL bytes of a filled field gives back the bytes that were
/// put into it, where they fit and neither begin nor end with a NUL.
pub proof fn lemma_trim_padded(bytes: Seq<u8>, width: nat)
    requires
        bytes.len() <= width,
        bytes.len() > 0 ==> bytes[0] != 0 && bytes.last() != 0,
    ensures
        trimmed(padded(bytes, width), Padding::Nul) == bytes,
{
    let fill = (width - bytes.len()) as nat;
    if bytes.len() == 0 {
        lemma_trim_start_zeros(fill);
    } else if bytes.len() < width {
        lemma_trim_end_zeros(bytes, fill);
    }
}

/// A text that fits its field is read back from it unchanged.
pub proof fn lemma_field_text_round_trip(text: Seq<char>, width: nat)
    requires
        text_fits(text, width),
    ensures
        field_text(padded(encode_utf8(text), width)) == text,
{
    lemma_trim_padded(encode_utf8(text), width);
    encode_utf8_valid_utf8(text);
    encode_utf8_decode_utf8(text);
}

/// Tells whether a byte is padding of the given kind.
pub fn is_padding_byte(kind: Padding, byte: u8) -> (r: bool)
    ensures
        r == is_padding(kind, byte),
{
    match kind {
        Padding::Nul => byte == 0,
        Padding::Whitespace => byte == 0x20 || (0x09 <= byte && byte <= 0x0d),
    }
}

/// Skips the padding at the start of a field.
pub fn trim_field_start(bytes: &[u8], kind: Padding) -> (kept: &[u8])
    ensures
        kept@ == trim_start(bytes@, kind),
{
    let len: usize = bytes.len();
    let mut start: usize = 0;
    assert(bytes@.subrange(0, len as int) =~= bytes@);
    while start < len && is_padding_byte(kind, bytes[start])
        invariant
            start <= len == bytes@.len(),
            trim_start(bytes@, kind) == trim_start(bytes@.subrange(start as int, len as int), kind),
        decreases len - start,
    {
        assert(bytes@.subrange(start as int, len as int).drop_first() =~= bytes@.subrange(
            start + 1,
            len as int,
        ));
        start += 1;
    }
    &bytes[start..len]
}

/// Drops the padding at the end of a field.
pub fn trim_field_end(bytes: &[u8], kind: Padding) -> (kept: &[u8])
    ensures
        kept@ == trim_end(bytes@, kind),
{
    let mut end: usize = bytes.len();
    assert(bytes@.subrange(0, end as int) =~= bytes@);
    while end > 0 && is_padding_byte(kind, bytes[end - 1])
        invariant
            end <= bytes@.len(),
            trim_end(bytes@, kind) == trim_end(bytes@.subrange(0, end as int), kind),
        decreases end,
    {
        assert(bytes@.subrange(0, end as int).drop_last() =~= bytes@.subrange(0, end - 1));
        end -= 1;
    }
    &bytes[0..end]
}

/// Drops the padding at both ends of a field.
pub fn trim_field(bytes: &[u8], kind: Padding) -> (kept: &[u8])
    ensures
        kept@ == trimmed(bytes@, kind),
{
    trim_field_end(trim_field_start(bytes, kind), kind)
}

/// Calls `String::from_utf8_lossy` and takes the text out of what it
/// returns. Trusted: bytes that are valid UTF-8 come back as the text that
/// they encode, as the function's documentation says; of any other bytes only
/// that the same bytes always give the same text.
#[verifier::external_body]
fn from_utf8_lossy(bytes: &[u8]) -> (text: String)
    ensures
        valid_utf8(bytes@) ==> text@ == decode_utf8(bytes@),
        !valid_utf8(bytes@) ==> text@ == utf8_lossy(bytes@),
{
    String::from_utf8_lossy(bytes).into_owned()
}

/// Reads the text of a text field.
pub fn read_field_text(field: &[u8]) -> (text: String)
    ensures
        text@ == field_text(field@),
{
    from_utf8_lossy(trim_field(field, Padding::Nul))
}

/// Appends `count` copies of `byte` to `out`.
pub fn push_repeated(out: &mut Vec<u8>, byte: u8, count: usize)
    ensures
        final(out)@ == old(out)@ + Seq::new(count as nat, |i: int| byte),
{
    let ghost before = out@;
    let mut i: usize = 0;
    while i < count
        invariant
            i <= count,
            out@ == before + Seq::new(i as nat, |j: int| byte),
        decreases count - i,
    {
        out.push(byte);
        i += 1;
    }
}

/// Appends every byte of `bytes` to `out`.
pub fn push_bytes(out: &mut Vec<u8>, bytes: &[u8])
    ensures
        final(out)@ == old(out)@ + bytes@,
{
    out.extend_from_slice(bytes);
}

/// Appends `text` to `out` as a field of exactly `width` bytes: a longer
/// text is cut, a shorter one is filled with NUL bytes.
pub fn push_padded(out: &mut Vec<u8>, text: &[u8], width: usize)
    ensures
        final(out)@ == old(out)@ + padded(text@, width as nat),
{
    let ghost before = out@;
    let mut i: usize = 0;
    while i < width
        invariant
            i <= width,
            out@ == before + padded(text@, width as nat).take(i as int),
        decreases width - i,
    {
        let byte: u8 = if i < text.len() { text[i] } else { 0 };
        out.push(byte);
        i += 1;
    }
}

} // verus!
