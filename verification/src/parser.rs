//! The archive reader: from a buffer to the entries that it holds.

use vstd::prelude::*;
use vstd::string::StringExecFns;
use crate::block::{
    block_at, block_count, blocks_between, collect_blocks, count_blocks, get_block, is_all_zero,
    is_zero_block,
};
use crate::header::{decode_header, parse_header};
use crate::models::{
    data_block_count, strings_view, ArchivedFile, EntryView, ExtractedFile, ExtractedFileView,
    TarError,
};

verus! {

/// Where the reader stands between two entries.
#[derive(Clone, Copy, Debug, PartialEq, Eq, Structural)]
pub enum ScanState {
    /// The last block was no zero block: a header or the end may follow.
    Scanning,
    /// One zero block has been seen.
    Skipping,
    /// Two zero blocks in a row have been seen: the archive has ended.
    Terminated,
}

/// The state after a block, given whether it was a zero block. Two zero
/// blocks in a row end the archive; any other block after a single zero
/// block starts afresh.
pub open spec fn next_state(state: ScanState, zero_block: bool) -> ScanState {
    match state {
        ScanState::Terminated => ScanState::Terminated,
        ScanState::Scanning => if zero_block {
            ScanState::Skipping
        } else {
            ScanState::Scanning
        },
        ScanState::Skipping => if zero_block {
            ScanState::Terminated
        } else {
            ScanState::Scanning
        },
    }
}

/// The index of the block after the content of an entry whose header is
/// block `index` and gives `size` as the content's length. The content ends
/// where the buffer does, if that comes first.
pub open spec fn content_end(buffer: Seq<u8>, index: int, size: nat) -> int {
    if index + 1 + data_block_count(size) <= block_count(buffer) {
        index + 1 + data_block_count(size)
    } else {
        block_count(buffer) as int
    }
}

/// `entries` put before the entries of `rest`, or the error of `rest`.
pub open spec fn entries_before(
    entries: Seq<EntryView>,
    rest: Result<Seq<EntryView>, TarError>,
) -> Result<Seq<EntryView>, TarError> {
    match rest {
        Ok(more) => Ok(entries + more),
        Err(error) => Err(error),
    }
}

/// The entries that the reader finds from block `index` on, when it is in
/// `state` there.
///
/// A zero block moves the state on. Any other block is a header: the blocks
/// after it, as many as its size asks for, are its content, and the reader
/// goes on behind them. A header that cannot be decoded fails the whole
/// reading. The reading ends with the buffer or after two zero blocks in a
/// row.
#[verifier::opaque]
pub open spec fn entries_from(buffer: Seq<u8>, index: int, state: ScanState) -> Result<
    Seq<EntryView>,
    TarError,
>
    decreases block_count(buffer) - index,
{
    if index < 0 || index >= block_count(buffer) || state == ScanState::Terminated {
        Ok(Seq::empty())
    } else if is_zero_block(block_at(buffer, index)) {
        entries_from(buffer, index + 1, next_state(state, true))
    } else {
        match decode_header(block_at(buffer, index)) {
            Err(error) => Err(error),
            Ok(header) => {
                let end = content_end(buffer, index, header.size);
                entries_before(
                    seq![
                        EntryView { header, blocks: blocks_between(buffer, index + 1, end) },
                    ],
                    entries_from(buffer, end, next_state(state, false)),
                )
            },
        }
    }
}

/// The entries of the archive that `buffer` holds, or the error that its
/// reading fails with.
pub open spec fn archive_entries(buffer: Seq<u8>) -> Result<Seq<EntryView>, TarError> {
    entries_from(buffer, 0, ScanState::Scanning)
}

/// What each of a list of entries says.
pub open spec fn files_view<'a>(files: Seq<ArchivedFile<'a>>) -> Seq<EntryView> {
    Seq::new(files.len(), |i: int| files[i]@)
}

/// What the entries that were read say, or the error.
pub open spec fn files_result_view<'a>(
    result: Result<Vec<ArchivedFile<'a>>, TarError>,
) -> Result<Seq<EntryView>, TarError> {
    match result {
        Ok(files) => Ok(files_view(files@)),
        Err(error) => Err(error),
    }
}

/// Every entry that is read from some block on has blocks of 512 bytes,
/// and no more of them than its size asks for.
pub proof fn lemma_entries_well_formed(buffer: Seq<u8>, index: int, state: ScanState)
    ensures
        entries_from(buffer, index, state) matches Ok(entries) ==> forall|i: int|
            0 <= i < entries.len() ==> {
                &&& (#[trigger] entries[i]).well_formed()
                &&& entries[i].header.size == 0 ==> entries[i].blocks.len() == 0
            },
    decreases block_count(buffer) - index,
{
    reveal(entries_from);
    if 0 <= index < block_count(buffer) && state != ScanState::Terminated {
        if is_zero_block(block_at(buffer, index)) {
            lemma_entries_well_formed(buffer, index + 1, next_state(state, true));
        } else if let Ok(header) = decode_header(block_at(buffer, index)) {
            let end = content_end(buffer, index, header.size);
            lemma_entries_well_formed(buffer, end, next_state(state, false));
        }
    }
}

/// Moves the reader's state on by one block.
pub fn advance(state: ScanState, zero_block: bool) -> (next: ScanState)
    ensures
        next == next_state(state, zero_block),
{
    match state {
        ScanState::Terminated => ScanState::Terminated,
        ScanState::Scanning => if zero_block {
            ScanState::Skipping
        } else {
            ScanState::Scanning
        },
        ScanState::Skipping => if zero_block {
            ScanState::Terminated
        } else {
            ScanState::Scanning
        },
    }
}

/// The number of blocks that hold a content of `size` bytes.
pub fn data_blocks_needed(size: usize) -> (count: usize)
    ensures
        count == data_block_count(size as nat),
{
    if size % 512 == 0 {
        size / 512
    } else {
        size / 512 + 1
    }
}

/// Reads the archive that a buffer holds into its entries, in the order in
/// which they stand there.
///
/// The reading ends after two zero blocks in a row or with the buffer; an
/// archive that ends without them still gives its last entry, with the
/// blocks that are there. It fails exactly when a header cannot be decoded,
/// and then gives no entry at all.
pub fn parse_to_file_blocks<'a>(buffer: &'a Vec<u8>) -> (result: Result<
    Vec<ArchivedFile<'a>>,
    TarError,
>)
    ensures
        files_result_view(result) == archive_entries(buffer@),
        result matches Ok(files) ==> forall|i: int|
            0 <= i < files@.len() ==> (#[trigger] files@[i])@.well_formed(),
{
    let bytes: &'a [u8] = buffer.as_slice();
    let count: usize = count_blocks(bytes);
    let mut files: Vec<ArchivedFile<'a>> = Vec::new();
    let mut index: usize = 0;
    let mut state = ScanState::Scanning;
    while index < count && !matches!(state, ScanState::Terminated)
        invariant
            index <= count == block_count(buffer@),
            bytes@ == buffer@,
            archive_entries(buffer@) == entries_before(
                files_view(files@),
                entries_from(buffer@, index as int, state),
            ),
        decreases count - index,
    {
        proof {
            reveal(entries_from);
        }
        let block = get_block(bytes, index);
        if is_all_zero(block) {
            state = advance(state, true);
            index += 1;
        } else {
            match parse_header(block) {
                Err(error) => {
                    return Err(error);
                },
                Ok(header) => {
                    let wanted: usize = data_blocks_needed(header.file_size);
                    let end: usize = if wanted < count - index {
                        index + 1 + wanted
                    } else {
                        count
                    };
                    let data_blocks = collect_blocks(bytes, index + 1, end);
                    let ghost before = files_view(files@);
                    let ghost rest = entries_from(buffer@, end as int, next_state(state, false));
                    files.push(ArchivedFile { header, data_blocks });
                    proof {
                        let entry = files@.last()@;
                        assert(files_view(files@) =~= before.push(entry));
                        if rest is Ok {
                            assert(before + (seq![entry] + rest->Ok_0) =~= before.push(entry)
                                + rest->Ok_0);
                        }
                    }
                    state = advance(state, false);
                    index = end;
                },
            }
        }
    }
    proof {
        reveal(entries_from);
        lemma_entries_well_formed(buffer@, 0, ScanState::Scanning);
        assert forall|i: int| 0 <= i < files@.len() implies (#[trigger] files@[i])@.well_formed()
        by {
            assert(files_view(files@)[i] == files@[i]@);
        }
    }
    Ok(files)
}

/// The names of a list of entries.
pub open spec fn entry_names(entries: Seq<EntryView>) -> Seq<Seq<char>> {
    Seq::new(entries.len(), |i: int| entries[i].header.name)
}

/// The names of the entries of the archive that `buffer` holds, or the
/// error that its reading fails with.
pub open spec fn archive_names(buffer: Seq<u8>) -> Result<Seq<Seq<char>>, TarError> {
    match archive_entries(buffer) {
        Ok(entries) => Ok(entry_names(entries)),
        Err(error) => Err(error),
    }
}

/// The names that were read, or the error.
pub open spec fn names_result_view(result: Result<Vec<String>, TarError>) -> Result<
    Seq<Seq<char>>,
    TarError,
> {
    match result {
        Ok(names) => Ok(strings_view(names@)),
        Err(error) => Err(error),
    }
}

/// Lists the names of the entries of the archive that a buffer holds, in
/// the order in which they stand there.
pub fn get_tar_files(buffer: Vec<u8>) -> (result: Result<Vec<String>, TarError>)
    ensures
        names_result_view(result) == archive_names(buffer@),
{
    let files = match parse_to_file_blocks(&buffer) {
        Ok(files) => files,
        Err(error) => {
            return Err(error);
        },
    };
    let mut names: Vec<String> = Vec::new();
    let mut i: usize = 0;
    while i < files.len()
        invariant
            i <= files@.len(),
            strings_view(names@) =~= entry_names(files_view(files@)).take(i as int),
        decreases files@.len() - i,
    {
        let ghost before = strings_view(names@);
        let name = files[i].header.file_name.clone();
        names.push(name);
        assert(strings_view(names@) =~= before.push(name@));
        i += 1;
    }
    assert(entry_names(files_view(files@)).take(i as int) =~= entry_names(files_view(files@)));
    Ok(names)
}

/// The files that a list of entries gives: the name and the content of
/// each.
pub open spec fn entry_files(entries: Seq<EntryView>) -> Seq<ExtractedFileView> {
    Seq::new(
        entries.len(),
        |i: int| ExtractedFileView { path: entries[i].header.name, content: entries[i].content() },
    )
}

/// The files that the archive in `buffer` gives, or the error that its
/// reading fails with.
pub open spec fn archive_files(buffer: Seq<u8>) -> Result<Seq<ExtractedFileView>, TarError> {
    match archive_entries(buffer) {
        Ok(entries) => Ok(entry_files(entries)),
        Err(error) => Err(error),
    }
}

/// What each of a list of extracted files holds.
pub open spec fn extracted_view(files: Seq<ExtractedFile>) -> Seq<ExtractedFileView> {
    Seq::new(files.len(), |i: int| files[i]@)
}

/// The files that were extracted, or the error.
pub open spec fn extracted_result_view(result: Result<Vec<ExtractedFile>, TarError>) -> Result<
    Seq<ExtractedFileView>,
    TarError,
> {
    match result {
        Ok(files) => Ok(extracted_view(files@)),
        Err(error) => Err(error),
    }
}

/// Extracts the archive that a buffer holds: the name and the content of
/// each entry, in the order in which they stand there.
pub fn extract_tar(buffer: Vec<u8>) -> (result: Result<Vec<ExtractedFile>, TarError>)
    ensures
        extracted_result_view(result) == archive_files(buffer@),
{
    let entries = match parse_to_file_blocks(&buffer) {
        Ok(entries) => entries,
        Err(error) => {
            return Err(error);
        },
    };
    let mut files: Vec<ExtractedFile> = Vec::new();
    let mut i: usize = 0;
    while i < entries.len()
        invariant
            i <= entries@.len(),
            extracted_view(files@) =~= entry_files(files_view(entries@)).take(i as int),
        decreases entries@.len() - i,
    {
        let ghost before = extracted_view(files@);
        let file = ExtractedFile {
            path: entries[i].header.file_name.clone(),
            content: entries[i].content(),
        };
        files.push(file);
        assert(extracted_view(files@) =~= before.push(files@.last()@));
        i += 1;
    }
    assert(entry_files(files_view(entries@)).take(i as int) =~= entry_files(files_view(entries@)));
    Ok(files)
}

/// The text of a listing: each name on a line of its own.
pub open spec fn listing_text(names: Seq<Seq<char>>) -> Seq<char>
    decreases names.len(),
{
    if names.len() == 0 {
        Seq::empty()
    } else {
        listing_text(names.drop_last()) + names.last() + seq!['\n']
    }
}

/// The listing of the archive that `buffer` holds, or the error that its
/// reading fails with.
pub open spec fn archive_listing(buffer: Seq<u8>) -> Result<Seq<char>, TarError> {
    match archive_names(buffer) {
        Ok(names) => Ok(listing_text(names)),
        Err(error) => Err(error),
    }
}

/// The text that was written, or the error.
pub open spec fn text_result_view(result: Result<String, TarError>) -> Result<
    Seq<char>,
    TarError,
> {
    match result {
        Ok(text) => Ok(text@),
        Err(error) => Err(error),
    }
}

/// Writes a list of names as a listing: each name on a line of its own.
pub fn listing(names: &Vec<String>) -> (text: String)
    ensures
        text@ == listing_text(strings_view(names@)),
{
    let mut text = String::new();
    let mut i: usize = 0;
    let ghost all = strings_view(names@);
    while i < names.len()
        invariant
            i <= names@.len(),
            all == strings_view(names@),
            text@ == listing_text(all.take(i as int)),
        decreases names@.len() - i,
    {
        proof {
            reveal_strlit("\n");
            assert(all.take(i + 1).drop_last() =~= all.take(i as int));
        }
        text.append(names[i].as_str());
        text.append("\n");
        i += 1;
    }
    assert(all.take(i as int) =~= all);
    text
}

/// Lists the archive that a buffer holds: the names of its entries in the
/// order in which they stand there, each on a line of its own.
pub fn list_tar(buffer: Vec<u8>) -> (result: Result<String, TarError>)
    ensures
        text_result_view(result) == archive_listing(buffer@),
{
    match get_tar_files(buffer) {
        Ok(names) => Ok(listing(&names)),
        Err(error) => Err(error),
    }
}

} // verus!
