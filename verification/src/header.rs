//! The header codec: between a 512-byte block and a header record.
//!
//! A header block is laid out in fields of fixed width:
//!
//! | offset | width | field |
//! |---|---|---|
//! | 0 | 100 | name |
//! | 100 | 8 | mode |
//! | 108 | 8 | user id |
//! | 116 | 8 | group id |
//! | 124 | 12 | size: eleven octal digits and a NUL |
//! | 136 | 12 | time of the last change: eleven octal digits and a NUL |
//! | 148 | 8 | checksum |
//! | 156 | 1 | type flag |
//! | 157 | 100 | link target |
//! | 257 | 6 | magic |
//! | 263 | 2 | version |
//! | 265 | 32 | user name |
//! | 297 | 32 | group name |
//! | 329 | 8 | device major |
//! | 337 | 8 | device minor |
//! | 345 | 155 | prefix |
//! | 500 | 12 | unused |

use vstd::prelude::*;
use vstd::utf8::encode_utf8;
use crate::block::zeros;
use crate::models::{
    name_view, EntryKind, EntryMetadata, HeaderView, MetadataView, TarError, TarHeader,
};
use crate::octal::{
    leading_octal, lemma_octal_value_bound, lemma_pow8_monotonic, lemma_pow8_values,
    octal_digits, octal_field, octal_prefix, octal_text, parse_octal, parse_octal_prefix,
};
use crate::text::{
    field_text, lemma_trim_start_len, padded, push_bytes, push_padded, push_repeated,
    read_field_text, trim_start, Padding,
};

verus! {

/// The type flag that stands for a kind.
pub open spec fn kind_flag(kind: EntryKind) -> u8 {
    match kind {
        EntryKind::Regular => 0x30,
        EntryKind::Symlink => 0x32,
        EntryKind::Directory => 0x35,
    }
}

/// The kind that a type flag stands for.
pub open spec fn flag_kind(flag: u8) -> EntryKind {
    if flag == 0x32 {
        EntryKind::Symlink
    } else if flag == 0x35 {
        EntryKind::Directory
    } else {
        EntryKind::Regular
    }
}

/// The header record that a block holds, given the texts of its four text
/// fields. The size and the time are read strictly, the other numbers
/// leniently; the checksum is read and not verified.
pub open spec fn header_with_texts(
    block: Seq<u8>,
    name: Seq<char>,
    link_target: Seq<char>,
    owner_name: Seq<char>,
    group_name: Seq<char>,
) -> Result<HeaderView, TarError>
    recommends
        block.len() == 512,
{
    let size = octal_field(block.subrange(124, 135));
    let mtime = octal_field(block.subrange(136, 147));
    if size is None || mtime is None || size->0 > usize::MAX {
        Err(TarError::MalformedHeader)
    } else {
        let kind = flag_kind(block[156]);
        Ok(
            HeaderView {
                name,
                size: size->0 as nat,
                mode: octal_prefix(block.subrange(100, 108)),
                uid: octal_prefix(block.subrange(108, 116)),
                gid: octal_prefix(block.subrange(116, 124)),
                owner_name,
                group_name,
                mtime: mtime->0 as nat,
                checksum: octal_prefix(block.subrange(148, 156)),
                kind,
                link_target: if kind == EntryKind::Symlink {
                    link_target
                } else {
                    Seq::empty()
                },
            },
        )
    }
}

/// The header record that a block holds.
#[verifier::opaque]
pub open spec fn decode_header(block: Seq<u8>) -> Result<HeaderView, TarError>
    recommends
        block.len() == 512,
{
    header_with_texts(
        block,
        field_text(block.subrange(0, 100)),
        field_text(block.subrange(157, 257)),
        field_text(block.subrange(265, 297)),
        field_text(block.subrange(297, 329)),
    )
}

/// What a decoded header says, or the error that it was refused with.
pub open spec fn header_result_view(result: Result<TarHeader, TarError>) -> Result<
    HeaderView,
    TarError,
> {
    match result {
        Ok(header) => Ok(header@),
        Err(error) => Err(error),
    }
}

/// `digits` with as many `0` digits before it as bring it to `width` bytes.
pub open spec fn zero_filled(digits: Seq<u8>, width: nat) -> Seq<u8> {
    if digits.len() >= width {
        digits
    } else {
        Seq::new((width - digits.len()) as nat, |i: int| 0x30u8) + digits
    }
}

/// The twelve bytes of a size or a time: its octal digits, filled with
/// zeros to eleven, and a NUL. A number of more than eleven digits is cut
/// like any other text that is longer than its field.
pub open spec fn number_field(n: nat) -> Seq<u8> {
    padded(zero_filled(octal_digits(n), 11), 12)
}

/// The magic of the format: `ustar` and a NUL.
pub open spec fn magic() -> Seq<u8> {
    seq![0x75u8, 0x73u8, 0x74u8, 0x61u8, 0x72u8, 0x00u8]
}

/// The version of the format: `00`.
pub open spec fn version() -> Seq<u8> {
    seq![0x30u8, 0x30u8]
}

/// What stands in place of a device number: eight `0` digits.
pub open spec fn device_field() -> Seq<u8> {
    Seq::new(8, |i: int| 0x30u8)
}

/// What the checksum field holds while the checksum is computed: eight
/// spaces.
pub open spec fn blank_checksum() -> Seq<u8> {
    Seq::new(8, |i: int| 0x20u8)
}

/// The name that a header holds for an owner: the one that was found, or
/// `Unknown`.
pub open spec fn owner_text(name: Option<Seq<char>>) -> Seq<char> {
    match name {
        Some(text) => text,
        None => "Unknown"@,
    }
}

/// The link target that a header holds: that of a symbolic link, and
/// nothing for any other kind.
pub open spec fn link_text(meta: MetadataView) -> Seq<char> {
    if meta.kind == EntryKind::Symlink {
        meta.link_target
    } else {
        Seq::empty()
    }
}

/// The 148 bytes of a header before its checksum.
pub open spec fn header_front(path: Seq<char>, meta: MetadataView, size: nat) -> Seq<u8> {
    padded(encode_utf8(path), 100) + padded(octal_digits(meta.mode), 8) + padded(
        octal_digits(meta.uid),
        8,
    ) + padded(octal_digits(meta.gid), 8) + number_field(size) + number_field(meta.mtime)
}

/// The 356 bytes of a header after its checksum.
pub open spec fn header_back(meta: MetadataView) -> Seq<u8> {
    seq![kind_flag(meta.kind)] + padded(encode_utf8(link_text(meta)), 100) + magic() + version()
        + padded(encode_utf8(owner_text(meta.owner_name)), 32) + padded(
        encode_utf8(owner_text(meta.group_name)),
        32,
    ) + device_field() + device_field() + zeros(155) + zeros(12)
}

/// The sum of the bytes of `bytes`.
pub open spec fn byte_sum(bytes: Seq<u8>) -> nat
    decreases bytes.len(),
{
    if bytes.len() == 0 {
        0
    } else {
        byte_sum(bytes.drop_last()) + bytes.last() as nat
    }
}

/// The checksum of a header: the sum of its 512 bytes, taken while the
/// checksum field holds eight spaces.
pub open spec fn header_checksum(path: Seq<char>, meta: MetadataView, size: nat) -> nat {
    byte_sum(header_front(path, meta, size) + blank_checksum() + header_back(meta))
}

/// The header block of an entry with the given path, metadata and length of
/// content.
#[verifier::opaque]
pub open spec fn header_block(path: Seq<char>, meta: MetadataView, size: nat) -> Seq<u8> {
    header_front(path, meta, size) + padded(octal_digits(header_checksum(path, meta, size)), 8)
        + header_back(meta)
}

/// The sum of two strings put together is the sum of their sums.
pub proof fn lemma_byte_sum_concat(a: Seq<u8>, b: Seq<u8>)
    ensures
        byte_sum(a + b) == byte_sum(a) + byte_sum(b),
    decreases b.len(),
{
    if b.len() > 0 {
        lemma_byte_sum_concat(a, b.drop_last());
        assert((a + b).drop_last() =~= a + b.drop_last());
    }
}

/// No byte adds more than 255 to a sum.
pub proof fn lemma_byte_sum_bound(bytes: Seq<u8>)
    ensures
        byte_sum(bytes) <= 255 * bytes.len(),
    decreases bytes.len(),
{
    if bytes.len() > 0 {
        lemma_byte_sum_bound(bytes.drop_last());
    }
}

/// A lenient number of an eight-byte field fits in 32 bits.
pub proof fn lemma_octal_prefix_bound(field: Seq<u8>)
    requires
        field.len() <= 8,
    ensures
        octal_prefix(field) < 0o100000000,
{
    let text = trim_start(field, Padding::Whitespace);
    lemma_trim_start_len(field, Padding::Whitespace);
    lemma_leading_octal_len(text);
    lemma_octal_value_bound(leading_octal(text));
    lemma_pow8_monotonic(leading_octal(text).len(), 8);
    lemma_pow8_values();
}

/// The digits at the start of a text are no more than the text.
pub proof fn lemma_leading_octal_len(text: Seq<u8>)
    ensures
        leading_octal(text).len() <= text.len(),
    decreases text.len(),
{
    if text.len() > 0 {
        lemma_leading_octal_len(text.drop_first());
    }
}

/// Reads the kind of an entry from a type flag.
pub fn kind_of_flag(flag: u8) -> (kind: EntryKind)
    ensures
        kind == flag_kind(flag),
{
    if flag == 0x32 {
        EntryKind::Symlink
    } else if flag == 0x35 {
        EntryKind::Directory
    } else {
        EntryKind::Regular
    }
}

/// The flag that a header stores for a kind.
pub fn flag_of_kind(kind: EntryKind) -> (flag: u8)
    ensures
        flag == kind_flag(kind),
{
    match kind {
        EntryKind::Regular => 0x30,
        EntryKind::Symlink => 0x32,
        EntryKind::Directory => 0x35,
    }
}

/// Adds up the bytes of a slice.
pub fn sum_bytes(bytes: &[u8]) -> (sum: u64)
    requires
        bytes@.len() <= 0x00ff_ffff_ffff_ffff,
    ensures
        sum == byte_sum(bytes@),
{
    let mut sum: u64 = 0;
    let mut i: usize = 0;
    while i < bytes.len()
        invariant
            i <= bytes@.len() <= 0x00ff_ffff_ffff_ffff,
            sum == byte_sum(bytes@.take(i as int)),
            sum <= 255 * i,
        decreases bytes@.len() - i,
    {
        assert(bytes@.take(i + 1).drop_last() =~= bytes@.take(i as int));
        sum = sum + bytes[i] as u64;
        i += 1;
    }
    assert(bytes@.take(i as int) =~= bytes@);
    sum
}

/// Appends the twelve bytes of a size or a time to `out`.
pub fn push_number_field(out: &mut Vec<u8>, n: u64)
    ensures
        final(out)@ == old(out)@ + number_field(n as nat),
{
    let digits = octal_text(n);
    let mut text: Vec<u8> = Vec::new();
    if digits.len() < 11 {
        push_repeated(&mut text, 0x30, 11 - digits.len());
    }
    push_bytes(&mut text, digits.as_slice());
    push_padded(out, text.as_slice(), 12);
}

/// The bytes of the name that a header holds for an owner.
pub fn owner_bytes(name: &Option<String>) -> (bytes: &[u8])
    ensures
        bytes@ == encode_utf8(owner_text(name_view(*name))),
{
    match name {
        Some(text) => text.as_str().as_bytes(),
        None => "Unknown".as_bytes(),
    }
}

/// Writes the 148 bytes of a header before its checksum.
pub fn encode_header_front(path: &str, metadata: &EntryMetadata, size: usize) -> (front: Vec<u8>)
    ensures
        front@ == header_front(path@, metadata@, size as nat),
        front@.len() == 148,
{
    let mut front: Vec<u8> = Vec::new();
    push_padded(&mut front, path.as_bytes(), 100);
    push_padded(&mut front, octal_text(metadata.mode as u64).as_slice(), 8);
    push_padded(&mut front, octal_text(metadata.uid as u64).as_slice(), 8);
    push_padded(&mut front, octal_text(metadata.gid as u64).as_slice(), 8);
    push_number_field(&mut front, size as u64);
    push_number_field(&mut front, metadata.mtime);
    front
}

/// Writes the 356 bytes of a header after its checksum.
pub fn encode_header_back(metadata: &EntryMetadata) -> (back: Vec<u8>)
    ensures
        back@ == header_back(metadata@),
        back@.len() == 356,
{
    let mut back: Vec<u8> = Vec::new();
    back.push(flag_of_kind(metadata.kind));
    match metadata.kind {
        EntryKind::Symlink => push_padded(&mut back, metadata.link_target.as_str().as_bytes(), 100),
        _ => {
            push_repeated(&mut back, 0, 100);
        },
    }
    push_bytes(&mut back, &[0x75u8, 0x73u8, 0x74u8, 0x61u8, 0x72u8, 0x00u8]);
    push_repeated(&mut back, 0x30, 2);
    push_padded(&mut back, owner_bytes(&metadata.owner_name), 32);
    push_padded(&mut back, owner_bytes(&metadata.group_name), 32);
    push_repeated(&mut back, 0x30, 16);
    push_repeated(&mut back, 0, 167);
    back
}

/// Encodes the header block of an entry with the given path, metadata and
/// length of content.
///
/// The checksum is the sum of the block's bytes, taken while eight spaces
/// stand in its place; its octal digits are then written there.
pub fn encode_header(path: &str, metadata: &EntryMetadata, size: usize) -> (block: Vec<u8>)
    ensures
        block@ == header_block(path@, metadata@, size as nat),
        block@.len() == 512,
{
    let front = encode_header_front(path, metadata, size);
    let back = encode_header_back(metadata);
    let mut blank: Vec<u8> = Vec::new();
    push_repeated(&mut blank, 0x20, 8);
    proof {
        reveal(header_block);
        lemma_byte_sum_concat(front@ + blank@, back@);
        lemma_byte_sum_concat(front@, blank@);
        lemma_byte_sum_bound(blank@);
        lemma_byte_sum_bound(front@);
        lemma_byte_sum_bound(back@);
    }
    let sum: u64 = sum_bytes(front.as_slice()) + sum_bytes(blank.as_slice()) + sum_bytes(
        back.as_slice(),
    );
    let mut block = front;
    push_padded(&mut block, octal_text(sum).as_slice(), 8);
    push_bytes(&mut block, back.as_slice());
    block
}

/// Puts a header record together from a block and the texts of its four
/// text fields.
pub fn header_from_texts(
    block: &[u8],
    name: String,
    link_target: String,
    owner_name: String,
    group_name: String,
) -> (result: Result<TarHeader, TarError>)
    requires
        block@.len() == 512,
    ensures
        header_result_view(result) == header_with_texts(
            block@,
            name@,
            link_target@,
            owner_name@,
            group_name@,
        ),
{
    let size = match parse_octal(&block[124..135]) {
        Some(size) => size,
        None => { return Err(TarError::MalformedHeader); },
    };
    let mtime = match parse_octal(&block[136..147]) {
        Some(mtime) => mtime,
        None => { return Err(TarError::MalformedHeader); },
    };
    if size > usize::MAX as u64 {
        return Err(TarError::MalformedHeader);
    }
    proof {
        lemma_octal_prefix_bound(block@.subrange(100, 108));
        lemma_octal_prefix_bound(block@.subrange(108, 116));
        lemma_octal_prefix_bound(block@.subrange(116, 124));
        lemma_octal_prefix_bound(block@.subrange(148, 156));
    }
    let kind = kind_of_flag(block[156]);
    let link_target = match kind {
        EntryKind::Symlink => link_target,
        _ => String::new(),
    };
    Ok(
        TarHeader {
            file_name: name,
            file_size: size as usize,
            mode: parse_octal_prefix(&block[100..108]) as u32,
            uid: parse_octal_prefix(&block[108..116]) as u32,
            gid: parse_octal_prefix(&block[116..124]) as u32,
            owner_name,
            group_name,
            mtime,
            checksum: parse_octal_prefix(&block[148..156]) as u32,
            kind,
            link_target,
        },
    )
}

/// Decodes the header record that a block holds.
///
/// Fails exactly when the size or the time is not octal text, or the size
/// does not fit in a machine word.
pub fn parse_header(block: &[u8]) -> (result: Result<TarHeader, TarError>)
    requires
        block@.len() == 512,
    ensures
        header_result_view(result) == decode_header(block@),
{
    proof {
        reveal(decode_header);
    }
    let name = read_field_text(&block[0..100]);
    let link_target = read_field_text(&block[157..257]);
    let owner_name = read_field_text(&block[265..297]);
    let group_name = read_field_text(&block[297..329]);
    header_from_texts(block, name, link_target, owner_name, group_name)
}

} // verus!
