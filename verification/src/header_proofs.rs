//! What the header codec gives back of what it was given.

use vstd::prelude::*;
use vstd::utf8::{encode_utf8, is_ascii_chars_encode_utf8};
use crate::block::{is_zero_block, zeros};
use crate::header::{
    blank_checksum, decode_header, header_back, header_block, header_checksum, header_front,
    kind_flag, lemma_byte_sum_bound, link_text, magic, number_field, owner_text, zero_filled,
};
use crate::models::{HeaderView, MetadataView};
use crate::octal::{
    all_octal, lemma_leading_octal_of_digits, lemma_leading_zeros, lemma_octal_digits,
    lemma_octal_digits_len, lemma_octal_field_of_digits, lemma_octal_value_bound,
    lemma_pow8_values, octal_digits, octal_field, octal_prefix,
};
use crate::text::{lemma_field_text_round_trip, padded, text_fits};

verus! {

/// The header record that `header_block` writes down.
pub open spec fn written_header(path: Seq<char>, meta: MetadataView, size: nat) -> HeaderView {
    HeaderView {
        name: path,
        size,
        mode: meta.mode,
        uid: meta.uid,
        gid: meta.gid,
        owner_name: owner_text(meta.owner_name),
        group_name: owner_text(meta.group_name),
        mtime: meta.mtime,
        checksum: header_checksum(path, meta, size),
        kind: meta.kind,
        link_target: link_text(meta),
    }
}

/// True when a header block has room for all that is to be written down:
/// each text fits its field, the size and the time have no more than eleven
/// octal digits, the mode and the ids no more than eight, and the size fits
/// in a machine word.
pub open spec fn header_fits(path: Seq<char>, meta: MetadataView, size: nat) -> bool {
    &&& text_fits(path, 100)
    &&& text_fits(link_text(meta), 100)
    &&& text_fits(owner_text(meta.owner_name), 32)
    &&& text_fits(owner_text(meta.group_name), 32)
    &&& size < 0o100000000000
    &&& size <= usize::MAX
    &&& meta.mtime < 0o100000000000
    &&& meta.mode < 0o100000000
    &&& meta.uid < 0o100000000
    &&& meta.gid < 0o100000000
}

/// The name that stands for a missing one fits the field of a name.
pub proof fn lemma_unknown_fits()
    ensures
        text_fits(owner_text(None), 32),
{
    reveal_strlit("Unknown");
    is_ascii_chars_encode_utf8("Unknown"@);
}

/// The eleven bytes that a size or a time is read from are octal text,
/// whatever the number was, and they give back a number of no more than
/// eleven octal digits.
pub proof fn lemma_number_field(n: nat)
    ensures
        number_field(n).len() == 12,
        octal_field(number_field(n).take(11)) is Some,
        octal_field(number_field(n).take(11))->0 < 0o100000000000,
        n < 0o100000000000 ==> octal_field(number_field(n).take(11)) == Some(n as u64),
{
    let digits = octal_digits(n);
    let filled = zero_filled(digits, 11);
    let read = number_field(n).take(11);
    lemma_pow8_values();
    lemma_octal_digits(n);
    assert(all_octal(filled));
    assert(all_octal(read));
    lemma_octal_value_bound(read);
    lemma_octal_field_of_digits(read);
    if n < 0o100000000000 {
        lemma_octal_digits_len(n, 11);
        let fill = (11 - digits.len()) as nat;
        lemma_leading_zeros(fill, digits);
        assert(read =~= Seq::new(fill, |i: int| 0x30u8) + digits);
    }
}

/// An eight-byte field gives back a number of no more than eight octal
/// digits, read leniently.
pub proof fn lemma_lenient_field(n: nat)
    requires
        n < 0o100000000,
    ensures
        octal_prefix(padded(octal_digits(n), 8)) == n,
{
    let digits = octal_digits(n);
    lemma_pow8_values();
    lemma_octal_digits(n);
    lemma_octal_digits_len(n, 8);
    let rest = zeros((8 - digits.len()) as nat);
    let field = padded(digits, 8);
    assert(field =~= digits + rest);
    lemma_leading_octal_of_digits(digits, rest);
}

/// Where each field lies in the part of a header before its checksum.
pub proof fn lemma_front_layout(path: Seq<char>, meta: MetadataView, size: nat)
    ensures
        ({
            let front = header_front(path, meta, size);
            &&& front.len() == 148
            &&& front.subrange(0, 100) == padded(encode_utf8(path), 100)
            &&& front.subrange(100, 108) == padded(octal_digits(meta.mode), 8)
            &&& front.subrange(108, 116) == padded(octal_digits(meta.uid), 8)
            &&& front.subrange(116, 124) == padded(octal_digits(meta.gid), 8)
            &&& front.subrange(124, 135) == number_field(size).take(11)
            &&& front.subrange(136, 147) == number_field(meta.mtime).take(11)
        }),
{
}

/// Where each field lies in the part of a header after its checksum.
pub proof fn lemma_back_layout(meta: MetadataView)
    ensures
        ({
            let back = header_back(meta);
            &&& back.len() == 356
            &&& back[0] == kind_flag(meta.kind)
            &&& back.subrange(1, 101) == padded(encode_utf8(link_text(meta)), 100)
            &&& back.subrange(101, 107) == magic()
            &&& back.subrange(109, 141) == padded(encode_utf8(owner_text(meta.owner_name)), 32)
            &&& back.subrange(141, 173) == padded(encode_utf8(owner_text(meta.group_name)), 32)
        }),
{
}

/// Where each field of a header block lies.
pub proof fn lemma_header_layout(path: Seq<char>, meta: MetadataView, size: nat)
    ensures
        ({
            let block = header_block(path, meta, size);
            &&& block.len() == 512
            &&& block.subrange(0, 100) == padded(encode_utf8(path), 100)
            &&& block.subrange(100, 108) == padded(octal_digits(meta.mode), 8)
            &&& block.subrange(108, 116) == padded(octal_digits(meta.uid), 8)
            &&& block.subrange(116, 124) == padded(octal_digits(meta.gid), 8)
            &&& block.subrange(124, 135) == number_field(size).take(11)
            &&& block.subrange(136, 147) == number_field(meta.mtime).take(11)
            &&& block.subrange(148, 156) == padded(
                octal_digits(header_checksum(path, meta, size)),
                8,
            )
            &&& block[156] == kind_flag(meta.kind)
            &&& block.subrange(157, 257) == padded(encode_utf8(link_text(meta)), 100)
            &&& block.subrange(257, 263) == magic()
            &&& block.subrange(265, 297) == padded(encode_utf8(owner_text(meta.owner_name)), 32)
            &&& block.subrange(297, 329) == padded(encode_utf8(owner_text(meta.group_name)), 32)
        }),
{
    reveal(header_block);
    lemma_front_layout(path, meta, size);
    lemma_back_layout(meta);
}

/// The checksum of a header has no more than six octal digits.
pub proof fn lemma_header_checksum_bound(path: Seq<char>, meta: MetadataView, size: nat)
    ensures
        header_checksum(path, meta, size) <= 130560,
{
    lemma_byte_sum_bound(header_front(path, meta, size) + blank_checksum() + header_back(meta));
}

/// A header block is no zero block.
pub proof fn lemma_header_block_not_zero(path: Seq<char>, meta: MetadataView, size: nat)
    ensures
        !is_zero_block(header_block(path, meta, size)),
{
    lemma_header_layout(path, meta, size);
}

/// A header block whose size has no more than eleven octal digits is
/// decoded, and every field that had room for what was written down gives
/// it back: the size, the kind and the checksum always, each text that fits
/// its field, `Unknown` for each name that was missing, the time where it
/// has no more than eleven octal digits, the mode and the ids where they
/// have no more than eight.
pub proof fn lemma_header_fields_round_trip(path: Seq<char>, meta: MetadataView, size: nat)
    requires
        size < 0o100000000000,
        size <= usize::MAX,
    ensures
        decode_header(header_block(path, meta, size)) matches Ok(header) && {
            &&& header.size == size
            &&& header.kind == meta.kind
            &&& header.checksum == header_checksum(path, meta, size)
            &&& text_fits(path, 100) ==> header.name == path
            &&& text_fits(link_text(meta), 100) ==> header.link_target == link_text(meta)
            &&& text_fits(owner_text(meta.owner_name), 32) ==> header.owner_name == owner_text(
                meta.owner_name,
            )
            &&& text_fits(owner_text(meta.group_name), 32) ==> header.group_name == owner_text(
                meta.group_name,
            )
            &&& meta.owner_name is None ==> header.owner_name == "Unknown"@
            &&& meta.group_name is None ==> header.group_name == "Unknown"@
            &&& meta.mtime < 0o100000000000 ==> header.mtime == meta.mtime
            &&& meta.mode < 0o100000000 ==> header.mode == meta.mode
            &&& meta.uid < 0o100000000 ==> header.uid == meta.uid
            &&& meta.gid < 0o100000000 ==> header.gid == meta.gid
        },
{
    reveal(decode_header);
    lemma_unknown_fits();
    lemma_header_layout(path, meta, size);
    lemma_number_field(size);
    lemma_number_field(meta.mtime);
    lemma_header_checksum_bound(path, meta, size);
    lemma_lenient_field(header_checksum(path, meta, size));
    if text_fits(path, 100) {
        lemma_field_text_round_trip(path, 100);
    }
    if text_fits(link_text(meta), 100) {
        lemma_field_text_round_trip(link_text(meta), 100);
    }
    if text_fits(owner_text(meta.owner_name), 32) {
        lemma_field_text_round_trip(owner_text(meta.owner_name), 32);
    }
    if text_fits(owner_text(meta.group_name), 32) {
        lemma_field_text_round_trip(owner_text(meta.group_name), 32);
    }
    if meta.mode < 0o100000000 {
        lemma_lenient_field(meta.mode);
    }
    if meta.uid < 0o100000000 {
        lemma_lenient_field(meta.uid);
    }
    if meta.gid < 0o100000000 {
        lemma_lenient_field(meta.gid);
    }
}

} // verus!
