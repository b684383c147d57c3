//! The archive writer: from a list of files to the bytes of an archive.

use vstd::prelude::*;
use crate::block::zeros;
use crate::header::{encode_header, header_block};
use crate::header_proofs::lemma_header_layout;
use crate::models::{data_block_count, ArchiveEntry, ArchiveEntryView};
use crate::text::{push_bytes, push_repeated};

verus! {

/// The number of bytes that fill a content of `len` bytes up to a whole
/// number of blocks.
pub open spec fn block_padding(len: nat) -> nat {
    ((512 - len % 512) % 512) as nat
}

/// `content` filled up with zero bytes to a whole number of blocks.
pub open spec fn padded_content(content: Seq<u8>) -> Seq<u8> {
    content + zeros(block_padding(content.len()))
}

/// The bytes of one entry: its header block and its content in blocks.
pub open spec fn entry_bytes(entry: ArchiveEntryView) -> Seq<u8> {
    header_block(entry.path, entry.metadata, entry.content.len()) + padded_content(entry.content)
}

/// The bytes of a list of entries, one entry after another.
pub open spec fn entries_bytes(entries: Seq<ArchiveEntryView>) -> Seq<u8>
    decreases entries.len(),
{
    if entries.len() == 0 {
        Seq::empty()
    } else {
        entry_bytes(entries[0]) + entries_bytes(entries.drop_first())
    }
}

/// The bytes of the archive that holds `entries`: the entries in their
/// order, and two zero blocks after them.
pub open spec fn archive_bytes(entries: Seq<ArchiveEntryView>) -> Seq<u8> {
    entries_bytes(entries) + zeros(1024)
}

/// What each of a list of files to archive holds.
pub open spec fn entries_view(entries: Seq<ArchiveEntry>) -> Seq<ArchiveEntryView> {
    Seq::new(entries.len(), |i: int| entries[i]@)
}

/// The bytes of a list with one more entry are those of the list and then
/// those of the entry.
pub proof fn lemma_entries_bytes_push(entries: Seq<ArchiveEntryView>, entry: ArchiveEntryView)
    ensures
        entries_bytes(entries.push(entry)) == entries_bytes(entries) + entry_bytes(entry),
    decreases entries.len(),
{
    let longer = entries.push(entry);
    if entries.len() == 0 {
        assert(entries_bytes(longer.drop_first()) =~= Seq::<u8>::empty());
    } else {
        lemma_entries_bytes_push(entries.drop_first(), entry);
        assert(longer.drop_first() =~= entries.drop_first().push(entry));
    }
}

/// The bytes of a list of entries are a whole number of blocks.
pub proof fn lemma_entries_bytes_len(entries: Seq<ArchiveEntryView>)
    ensures
        entries_bytes(entries).len() % 512 == 0,
    decreases entries.len(),
{
    if entries.len() > 0 {
        lemma_entries_bytes_len(entries.drop_first());
        lemma_entry_bytes_len(entries[0]);
    }
}

/// The bytes of an entry are its header block and the blocks of its
/// content.
pub proof fn lemma_entry_bytes_len(entry: ArchiveEntryView)
    ensures
        header_block(entry.path, entry.metadata, entry.content.len()).len() == 512,
        padded_content(entry.content).len() == 512 * data_block_count(entry.content.len()),
        entry_bytes(entry).len() % 512 == 0,
{
    lemma_header_layout(entry.path, entry.metadata, entry.content.len());
}

/// Appends the header block and the content blocks of one file to `out`.
pub fn push_entry(out: &mut Vec<u8>, entry: &ArchiveEntry)
    ensures
        final(out)@ == old(out)@ + entry_bytes(entry@),
{
    let header = encode_header(entry.path.as_str(), &entry.metadata, entry.content.len());
    push_bytes(out, header.as_slice());
    push_bytes(out, entry.content.as_slice());
    let rest: usize = entry.content.len() % 512;
    if rest != 0 {
        push_repeated(out, 0, 512 - rest);
    }
}

/// Writes the archive that holds the given files, in their order.
///
/// Each file gives a header block and its content, filled up with zero
/// bytes to whole blocks. Two zero blocks end the archive, so its length is
/// a multiple of 512.
pub fn build(entries: &[ArchiveEntry]) -> (archive: Vec<u8>)
    ensures
        archive@ == archive_bytes(entries_view(entries@)),
        archive@.len() % 512 == 0,
        archive@.len() >= 1024,
        archive@.subrange(archive@.len() - 1024, archive@.len() as int) == zeros(1024),
{
    let mut archive: Vec<u8> = Vec::new();
    let mut i: usize = 0;
    let ghost all = entries_view(entries@);
    while i < entries.len()
        invariant
            i <= entries@.len(),
            all == entries_view(entries@),
            archive@ == entries_bytes(all.take(i as int)),
        decreases entries@.len() - i,
    {
        proof {
            lemma_entries_bytes_push(all.take(i as int), all[i as int]);
            assert(all.take(i + 1) =~= all.take(i as int).push(all[i as int]));
        }
        push_entry(&mut archive, &entries[i]);
        i += 1;
    }
    proof {
        assert(all.take(i as int) =~= all);
        lemma_entries_bytes_len(all);
    }
    push_repeated(&mut archive, 0, 1024);
    archive
}

} // verus!
