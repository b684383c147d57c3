//! The records that the codec reads and writes.

use vstd::prelude::*;
use crate::block::blocks_view;
use crate::text::push_bytes;

verus! {

/// What went wrong while reading an archive.
#[derive(Clone, Copy, Debug, PartialEq, Eq, Structural)]
pub enum TarError {
    /// The size or the time of a header is not octal text, or the size does
    /// not fit in a machine word.
    MalformedHeader,
    /// The command line names no operation, or no archive where it has to.
    MissingArgument,
}

impl TarError {
    /// The sentence that says what went wrong.
    pub open spec fn message_text(self) -> Seq<char> {
        match self {
            TarError::MalformedHeader => {
                "malformed header: the size or the time is not octal text"@
            },
            TarError::MissingArgument => "missing argument: no operation or no archive is named"@,
        }
    }

    /// A sentence that says what went wrong.
    pub fn message(&self) -> (text: String)
        ensures
            text@ == self.message_text(),
    {
        match self {
            TarError::MalformedHeader => {
                "malformed header: the size or the time is not octal text".to_owned()
            },
            TarError::MissingArgument => {
                "missing argument: no operation or no archive is named".to_owned()
            },
        }
    }
}

/// The kind of an entry, as its header's type flag tells it.
#[derive(Clone, Copy, Debug, PartialEq, Eq, Structural)]
pub enum EntryKind {
    /// A regular file; also what every unknown flag is read as.
    Regular,
    /// A symbolic link.
    Symlink,
    /// A directory.
    Directory,
}

/// The header of one entry.
#[derive(Debug)]
pub struct TarHeader {
    /// The entry's path.
    pub file_name: String,
    /// The length of the entry's content in bytes.
    pub file_size: usize,
    /// The permission bits.
    pub mode: u32,
    /// The owner's user id.
    pub uid: u32,
    /// The owner's group id.
    pub gid: u32,
    /// The owner's user name.
    pub owner_name: String,
    /// The owner's group name.
    pub group_name: String,
    /// The time of the last change, in seconds since the epoch.
    pub mtime: u64,
    /// The checksum as the header stores it. It is not compared with the
    /// header's bytes.
    pub checksum: u32,
    /// The kind of the entry.
    pub kind: EntryKind,
    /// Where a symbolic link points; empty for every other kind.
    pub link_target: String,
}

/// What a header says, as mathematical values.
pub struct HeaderView {
    pub name: Seq<char>,
    pub size: nat,
    pub mode: nat,
    pub uid: nat,
    pub gid: nat,
    pub owner_name: Seq<char>,
    pub group_name: Seq<char>,
    pub mtime: nat,
    pub checksum: nat,
    pub kind: EntryKind,
    pub link_target: Seq<char>,
}

impl View for TarHeader {
    type V = HeaderView;

    open spec fn view(&self) -> HeaderView {
        HeaderView {
            name: self.file_name@,
            size: self.file_size as nat,
            mode: self.mode as nat,
            uid: self.uid as nat,
            gid: self.gid as nat,
            owner_name: self.owner_name@,
            group_name: self.group_name@,
            mtime: self.mtime as nat,
            checksum: self.checksum as nat,
            kind: self.kind,
            link_target: self.link_target@,
        }
    }
}

/// One entry of an archive that was read: its header and the blocks of its
/// content, which lie in the buffer that the archive was read from.
#[derive(Debug)]
pub struct ArchivedFile<'a> {
    /// The entry's header.
    pub header: TarHeader,
    /// The blocks of the entry's content, each of 512 bytes. The last one
    /// is filled up with padding.
    pub data_blocks: Vec<&'a [u8]>,
}

/// One entry of an archive as mathematical values.
pub struct EntryView {
    pub header: HeaderView,
    pub blocks: Seq<Seq<u8>>,
}

/// The bytes of a list of blocks, one after another.
pub open spec fn joined(blocks: Seq<Seq<u8>>) -> Seq<u8>
    decreases blocks.len(),
{
    if blocks.len() == 0 {
        Seq::empty()
    } else {
        joined(blocks.drop_last()) + blocks.last()
    }
}

/// The number of blocks that hold a content of `size` bytes.
pub open spec fn data_block_count(size: nat) -> nat {
    (size + 511) / 512
}

impl EntryView {
    /// The entry's content: the bytes of its blocks without the padding
    /// that follows the length its header gives. Where the archive ended
    /// before the content did, the content is what was there.
    pub open spec fn content(self) -> Seq<u8> {
        let bytes = joined(self.blocks);
        if self.header.size <= bytes.len() {
            bytes.take(self.header.size as int)
        } else {
            bytes
        }
    }

    /// True when every block has 512 bytes and there are no more of them
    /// than the content needs.
    pub open spec fn well_formed(self) -> bool {
        &&& self.blocks.len() <= data_block_count(self.header.size)
        &&& forall|i: int| 0 <= i < self.blocks.len() ==> (#[trigger] self.blocks[i]).len() == 512
    }

    /// True when the entry has every block of its content.
    pub open spec fn complete(self) -> bool {
        self.blocks.len() == data_block_count(self.header.size)
    }
}

impl<'a> View for ArchivedFile<'a> {
    type V = EntryView;

    open spec fn view(&self) -> EntryView {
        EntryView { header: self.header@, blocks: blocks_view(self.data_blocks@) }
    }
}

impl<'a> ArchivedFile<'a> {
    /// Copies the entry's content out of its blocks, without the padding.
    pub fn content(&self) -> (bytes: Vec<u8>)
        ensures
            bytes@ == self@.content(),
    {
        let mut bytes: Vec<u8> = Vec::new();
        let mut i: usize = 0;
        let ghost blocks = blocks_view(self.data_blocks@);
        while i < self.data_blocks.len()
            invariant
                i <= self.data_blocks@.len(),
                blocks == blocks_view(self.data_blocks@),
                bytes@ == joined(blocks.take(i as int)),
            decreases self.data_blocks@.len() - i,
        {
            assert(blocks.take(i + 1).drop_last() =~= blocks.take(i as int));
            push_bytes(&mut bytes, self.data_blocks[i]);
            i += 1;
        }
        assert(blocks.take(i as int) =~= blocks);
        bytes.truncate(self.header.file_size);
        bytes
    }
}

/// What is known of a file when it is put into an archive.
#[derive(Debug)]
pub struct EntryMetadata {
    /// The permission bits.
    pub mode: u32,
    /// The owner's user id.
    pub uid: u32,
    /// The owner's group id.
    pub gid: u32,
    /// The time of the last change, in seconds since the epoch.
    pub mtime: u64,
    /// The kind of the file.
    pub kind: EntryKind,
    /// Where a symbolic link points. Only a symbolic link's header holds it.
    pub link_target: String,
    /// The owner's user name, where one was found.
    pub owner_name: Option<String>,
    /// The owner's group name, where one was found.
    pub group_name: Option<String>,
}

/// The metadata of an entry as mathematical values.
pub struct MetadataView {
    pub mode: nat,
    pub uid: nat,
    pub gid: nat,
    pub mtime: nat,
    pub kind: EntryKind,
    pub link_target: Seq<char>,
    pub owner_name: Option<Seq<char>>,
    pub group_name: Option<Seq<char>>,
}

/// The characters of each of a list of strings.
pub open spec fn strings_view(strings: Seq<String>) -> Seq<Seq<char>> {
    Seq::new(strings.len(), |i: int| strings[i]@)
}

/// The characters of a name that may be missing.
pub open spec fn name_view(name: Option<String>) -> Option<Seq<char>> {
    match name {
        Some(text) => Some(text@),
        None => None,
    }
}

impl View for EntryMetadata {
    type V = MetadataView;

    open spec fn view(&self) -> MetadataView {
        MetadataView {
            mode: self.mode as nat,
            uid: self.uid as nat,
            gid: self.gid as nat,
            mtime: self.mtime as nat,
            kind: self.kind,
            link_target: self.link_target@,
            owner_name: name_view(self.owner_name),
            group_name: name_view(self.group_name),
        }
    }
}

/// One file that an archive gives when it is extracted.
#[derive(Debug)]
pub struct ExtractedFile {
    /// The path of the file.
    pub path: String,
    /// The bytes of the file.
    pub content: Vec<u8>,
}

/// One file that an archive gives, as mathematical values.
pub struct ExtractedFileView {
    pub path: Seq<char>,
    pub content: Seq<u8>,
}

impl View for ExtractedFile {
    type V = ExtractedFileView;

    open spec fn view(&self) -> ExtractedFileView {
        ExtractedFileView { path: self.path@, content: self.content@ }
    }
}

/// One file to put into an archive: its path, what is known of it, and its
/// content.
#[derive(Debug)]
pub struct ArchiveEntry {
    /// The path under which the archive holds the file.
    pub path: String,
    /// What is known of the file.
    pub metadata: EntryMetadata,
    /// The bytes of the file; empty for a directory.
    pub content: Vec<u8>,
}

/// One file to put into an archive, as mathematical values.
pub struct ArchiveEntryView {
    pub path: Seq<char>,
    pub metadata: MetadataView,
    pub content: Seq<u8>,
}

impl View for ArchiveEntry {
    type V = ArchiveEntryView;

    open spec fn view(&self) -> ArchiveEntryView {
        ArchiveEntryView { path: self.path@, metadata: self.metadata@, content: self.content@ }
    }
}

} // verus!
