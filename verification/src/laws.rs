//! What holds of the reader and the writer together.
//!
//! The laws speak of the bytes that the writer gives for a list of entries
//! and of the entries that the reader finds in them. A header has no room
//! for a size of more than eleven octal digits, so every law that reads
//! beyond one header asks that the sizes fit.

use vstd::prelude::*;
use crate::block::{block_at, block_count, blocks_between, is_zero_block, zeros};
use crate::header::{decode_header, header_block};
use crate::header_proofs::{
    header_fits, lemma_header_block_not_zero, lemma_header_fields_round_trip, written_header,
};
use crate::models::{
    data_block_count, joined, ArchiveEntryView, EntryKind, EntryView, ExtractedFileView,
    HeaderView, MetadataView, TarError,
};
use crate::octal::is_octal_text;
use crate::parser::{
    archive_entries, archive_files, archive_listing, archive_names, entries_before, entries_from,
    entry_files, entry_names, lemma_entries_well_formed, listing_text, ScanState,
};
use crate::text::text_fits;
use crate::writer::{
    archive_bytes, entries_bytes, entry_bytes, lemma_entries_bytes_len, lemma_entry_bytes_len,
    padded_content,
};

verus! {

/// True when the size of each entry's content has no more than eleven octal
/// digits and fits in a machine word.
pub open spec fn sizes_fit(entries: Seq<ArchiveEntryView>) -> bool {
    forall|i: int|
        0 <= i < entries.len() ==> (#[trigger] entries[i]).content.len() < 0o100000000000
            && entries[i].content.len() <= usize::MAX
}

/// True when the path of each entry fits the name of a header.
pub open spec fn names_fit(entries: Seq<ArchiveEntryView>) -> bool {
    forall|i: int| 0 <= i < entries.len() ==> text_fits((#[trigger] entries[i]).path, 100)
}

/// The header that is read from the header block that was written for
/// `entry`.
#[verifier::opaque]
pub open spec fn header_read_back(entry: ArchiveEntryView) -> HeaderView {
    decode_header(header_block(entry.path, entry.metadata, entry.content.len()))->Ok_0
}

/// The entry that is read from the bytes that were written for `entry`.
pub open spec fn read_back(entry: ArchiveEntryView) -> EntryView {
    EntryView {
        header: header_read_back(entry),
        blocks: blocks_between(
            padded_content(entry.content),
            0,
            data_block_count(entry.content.len()) as int,
        ),
    }
}

/// The entries that are read from the bytes that were written for
/// `entries`.
pub open spec fn read_back_all(entries: Seq<ArchiveEntryView>) -> Seq<EntryView> {
    Seq::new(entries.len(), |i: int| read_back(entries[i]))
}

/// The files that a list of entries is made of: the path and the content of
/// each.
pub open spec fn entry_inputs(entries: Seq<ArchiveEntryView>) -> Seq<ExtractedFileView> {
    Seq::new(
        entries.len(),
        |i: int| ExtractedFileView { path: entries[i].path, content: entries[i].content },
    )
}

/// The paths of a list of entries.
pub open spec fn entry_paths(entries: Seq<ArchiveEntryView>) -> Seq<Seq<char>> {
    Seq::new(entries.len(), |i: int| entries[i].path)
}

/// The first `count` blocks of a buffer, one after another, are the bytes
/// that they cover.
pub proof fn lemma_joined_blocks(buffer: Seq<u8>, count: nat)
    requires
        count <= block_count(buffer),
    ensures
        joined(blocks_between(buffer, 0, count as int)) == buffer.take(512 * count as int),
    decreases count,
{
    if count > 0 {
        lemma_joined_blocks(buffer, (count - 1) as nat);
        assert(blocks_between(buffer, 0, count as int).drop_last() =~= blocks_between(
            buffer,
            0,
            count - 1,
        ));
    }
}

/// The content of an entry that is read back is the content that was
/// written, where the header gives its length.
pub proof fn lemma_read_back_content(entry: ArchiveEntryView)
    requires
        header_read_back(entry).size == entry.content.len(),
    ensures
        read_back(entry).content() == entry.content,
        read_back(entry).complete(),
        read_back(entry).well_formed(),
{
    lemma_entry_bytes_len(entry);
    lemma_joined_blocks(padded_content(entry.content), data_block_count(entry.content.len()));
}

/// Reading one written entry: the reader that stands before its header
/// finds the entry as it was written, and goes on behind its content.
pub proof fn lemma_read_entry(
    before: Seq<u8>,
    entry: ArchiveEntryView,
    after: Seq<u8>,
    state: ScanState,
)
    requires
        before.len() % 512 == 0,
        entry.content.len() < 0o100000000000,
        entry.content.len() <= usize::MAX,
        state != ScanState::Terminated,
    ensures
        ({
            let buffer = before + entry_bytes(entry) + after;
            entries_from(buffer, before.len() as int / 512, state) == entries_before(
                seq![read_back(entry)],
                entries_from(
                    buffer,
                    (before.len() + entry_bytes(entry).len()) as int / 512,
                    ScanState::Scanning,
                ),
            )
        }),
{
    reveal(entries_from);
    reveal(header_read_back);
    let buffer = before + entry_bytes(entry) + after;
    let index = before.len() as int / 512;
    let size = entry.content.len();
    let count = data_block_count(size);
    let header = header_block(entry.path, entry.metadata, size);
    let stored = padded_content(entry.content);
    lemma_entry_bytes_len(entry);
    lemma_header_fields_round_trip(entry.path, entry.metadata, size);
    lemma_header_block_not_zero(entry.path, entry.metadata, size);
    assert(block_at(buffer, index) =~= header);
    let found = blocks_between(buffer, index + 1, index + 1 + count);
    let wanted = blocks_between(stored, 0, count as int);
    assert(found =~~= wanted);
}

/// Reading written entries: the reader that stands before the first of
/// them finds them all as they were written, and goes on behind the last.
pub proof fn lemma_read_entries(
    before: Seq<u8>,
    entries: Seq<ArchiveEntryView>,
    after: Seq<u8>,
)
    requires
        before.len() % 512 == 0,
        sizes_fit(entries),
    ensures
        ({
            let buffer = before + entries_bytes(entries) + after;
            entries_from(buffer, before.len() as int / 512, ScanState::Scanning)
                == entries_before(
                read_back_all(entries),
                entries_from(
                    buffer,
                    (before.len() + entries_bytes(entries).len()) as int / 512,
                    ScanState::Scanning,
                ),
            )
        }),
    decreases entries.len(),
{
    let buffer = before + entries_bytes(entries) + after;
    let end = (before.len() + entries_bytes(entries).len()) as int / 512;
    let rest = entries_from(buffer, end, ScanState::Scanning);
    if entries.len() > 0 {
        let first = entries[0];
        let others = entries.drop_first();
        let longer = before + entry_bytes(first);
        assert(sizes_fit(others));
        lemma_entry_bytes_len(first);
        assert(buffer =~= before + entry_bytes(first) + (entries_bytes(others) + after));
        assert(buffer =~= longer + entries_bytes(others) + after);
        lemma_read_entry(before, first, entries_bytes(others) + after, ScanState::Scanning);
        lemma_read_entries(longer, others, after);
        if rest is Ok {
            assert(seq![read_back(first)] + (read_back_all(others) + rest->Ok_0) =~= read_back_all(
                entries,
            ) + rest->Ok_0);
        }
    }
}

/// Nothing is read where the buffer has ended.
pub proof fn lemma_read_end(buffer: Seq<u8>, index: int, state: ScanState)
    requires
        index >= block_count(buffer),
    ensures
        entries_from(buffer, index, state) == Ok::<Seq<EntryView>, TarError>(Seq::empty()),
{
    reveal(entries_from);
}

/// Two zero blocks end the reading.
pub proof fn lemma_read_terminator(before: Seq<u8>)
    requires
        before.len() % 512 == 0,
    ensures
        entries_from(before + zeros(1024), before.len() as int / 512, ScanState::Scanning) == Ok::<
            Seq<EntryView>,
            TarError,
        >(Seq::empty()),
{
    reveal_with_fuel(entries_from, 3);
}

/// The header of a header block that has room for all that was written
/// down is read back as it was written: every number, every name, the kind
/// and the link target.
pub proof fn law_header_round_trip(path: Seq<char>, meta: MetadataView, size: nat)
    requires
        header_fits(path, meta, size),
    ensures
        decode_header(header_block(path, meta, size)) == Ok::<HeaderView, TarError>(
            written_header(path, meta, size),
        ),
{
    lemma_header_fields_round_trip(path, meta, size);
}

/// The archive that is written for a list of entries is read back as those
/// entries, in their order: each with the header that its header block is
/// decoded to, with the size that it was given, and with the content that
/// it was given.
pub proof fn law_archive_round_trip(entries: Seq<ArchiveEntryView>)
    requires
        sizes_fit(entries),
    ensures
        archive_entries(archive_bytes(entries)) == Ok::<Seq<EntryView>, TarError>(
            read_back_all(entries),
        ),
        forall|i: int|
            0 <= i < entries.len() ==> {
                let found = #[trigger] read_back_all(entries)[i];
                &&& found.header.size == entries[i].content.len()
                &&& found.header.kind == entries[i].metadata.kind
                &&& found.content() == entries[i].content
                &&& found.complete()
            },
{
    let before = Seq::<u8>::empty();
    let body = entries_bytes(entries);
    lemma_entries_bytes_len(entries);
    lemma_read_entries(before, entries, zeros(1024));
    lemma_read_terminator(body);
    assert forall|i: int| 0 <= i < entries.len() implies {
        let found = #[trigger] read_back_all(entries)[i];
        &&& found.header.size == entries[i].content.len()
        &&& found.header.kind == entries[i].metadata.kind
        &&& found.content() == entries[i].content
        &&& found.complete()
    } by {
        let entry = entries[i];
        reveal(header_read_back);
        lemma_header_fields_round_trip(entry.path, entry.metadata, entry.content.len());
        lemma_read_back_content(entry);
    }
}

/// Round trip: writing a list of files and reading the archive gives the
/// same names and the same contents, in the same order. It holds of every
/// content, the empty one too, and of files of every kind.
pub proof fn law_round_trip(entries: Seq<ArchiveEntryView>)
    requires
        sizes_fit(entries),
        names_fit(entries),
    ensures
        archive_files(archive_bytes(entries)) == Ok::<Seq<ExtractedFileView>, TarError>(
            entry_inputs(entries),
        ),
{
    law_archive_round_trip(entries);
    let found = entry_files(read_back_all(entries));
    let wanted = entry_inputs(entries);
    assert(found =~= wanted) by {
        assert forall|i: int| 0 <= i < entries.len() implies #[trigger] found[i] == wanted[i] by {
            let entry = entries[i];
            reveal(header_read_back);
            lemma_header_fields_round_trip(entry.path, entry.metadata, entry.content.len());
        }
    }
}

/// A symbolic link keeps its link target from the writer to the reader.
pub proof fn law_symlink_round_trip(entries: Seq<ArchiveEntryView>, index: int)
    requires
        sizes_fit(entries),
        0 <= index < entries.len(),
        entries[index].metadata.kind == EntryKind::Symlink,
        text_fits(entries[index].metadata.link_target, 100),
    ensures
        archive_entries(archive_bytes(entries)) matches Ok(found) && {
            &&& found.len() == entries.len()
            &&& found[index].header.kind == EntryKind::Symlink
            &&& found[index].header.link_target == entries[index].metadata.link_target
        },
{
    law_archive_round_trip(entries);
    let entry = entries[index];
    reveal(header_read_back);
    lemma_header_fields_round_trip(entry.path, entry.metadata, entry.content.len());
}

/// An archive without its two closing zero blocks still gives every entry,
/// the last one too: the same entries as the archive with them.
pub proof fn law_missing_terminator(entries: Seq<ArchiveEntryView>)
    requires
        sizes_fit(entries),
    ensures
        archive_entries(entries_bytes(entries)) == Ok::<Seq<EntryView>, TarError>(
            read_back_all(entries),
        ),
        archive_entries(entries_bytes(entries)) == archive_entries(archive_bytes(entries)),
{
    let before = Seq::<u8>::empty();
    let body = entries_bytes(entries);
    lemma_entries_bytes_len(entries);
    lemma_read_entries(before, entries, Seq::empty());
    lemma_read_end(body, body.len() as int / 512, ScanState::Scanning);
    law_archive_round_trip(entries);
}

/// A header whose size is not octal text fails the reading from where the
/// reader meets it.
pub proof fn law_malformed_size_fails_from(buffer: Seq<u8>, index: int, state: ScanState)
    requires
        0 <= index < block_count(buffer),
        state != ScanState::Terminated,
        !is_zero_block(block_at(buffer, index)),
        !is_octal_text(block_at(buffer, index).subrange(124, 135)),
    ensures
        entries_from(buffer, index, state) == Err::<Seq<EntryView>, TarError>(
            TarError::MalformedHeader,
        ),
{
    reveal(entries_from);
    reveal(decode_header);
}

/// A header whose size is not octal text fails the reading of the whole
/// archive: the entries before it are not returned, nor any after it.
pub proof fn law_malformed_size_fails(
    entries: Seq<ArchiveEntryView>,
    header: Seq<u8>,
    after: Seq<u8>,
)
    requires
        sizes_fit(entries),
        header.len() == 512,
        !is_zero_block(header),
        !is_octal_text(header.subrange(124, 135)),
    ensures
        archive_entries(entries_bytes(entries) + header + after) == Err::<
            Seq<EntryView>,
            TarError,
        >(TarError::MalformedHeader),
{
    let before = Seq::<u8>::empty();
    let body = entries_bytes(entries);
    let buffer = body + header + after;
    lemma_entries_bytes_len(entries);
    lemma_read_entries(before, entries, header + after);
    assert(before + body + (header + after) =~= buffer);
    let index = body.len() as int / 512;
    assert(block_at(buffer, index) =~= header);
    law_malformed_size_fails_from(buffer, index, ScanState::Scanning);
}

/// Every entry of an archive has blocks of 512 bytes, and no more of them
/// than its size asks for. So an entry of size zero has no block.
pub proof fn law_entries_well_formed(buffer: Seq<u8>)
    ensures
        archive_entries(buffer) matches Ok(entries) ==> forall|i: int|
            0 <= i < entries.len() ==> {
                &&& (#[trigger] entries[i]).well_formed()
                &&& entries[i].header.size == 0 ==> entries[i].blocks.len() == 0
            },
{
    lemma_entries_well_formed(buffer, 0, ScanState::Scanning);
}

/// The archive that is written for a list of entries is a whole number of
/// blocks, and its last 1024 bytes are zero.
pub proof fn law_archive_shape(entries: Seq<ArchiveEntryView>)
    ensures
        archive_bytes(entries).len() % 512 == 0,
        archive_bytes(entries).len() >= 1024,
        archive_bytes(entries).subrange(
            archive_bytes(entries).len() - 1024,
            archive_bytes(entries).len() as int,
        ) == zeros(1024),
{
    lemma_entries_bytes_len(entries);
}

/// Listing the archive that is written for a list of entries gives their
/// paths in their order, one on each line.
pub proof fn law_listing(entries: Seq<ArchiveEntryView>)
    requires
        sizes_fit(entries),
        names_fit(entries),
    ensures
        archive_names(archive_bytes(entries)) == Ok::<Seq<Seq<char>>, TarError>(
            entry_paths(entries),
        ),
        archive_listing(archive_bytes(entries)) == Ok::<Seq<char>, TarError>(
            listing_text(entry_paths(entries)),
        ),
{
    law_archive_round_trip(entries);
    let found = entry_names(read_back_all(entries));
    let wanted = entry_paths(entries);
    assert(found =~= wanted) by {
        assert forall|i: int| 0 <= i < entries.len() implies #[trigger] found[i] == wanted[i] by {
            let entry = entries[i];
            reveal(header_read_back);
            lemma_header_fields_round_trip(entry.path, entry.metadata, entry.content.len());
        }
    }
}

} // verus!
