//! A codec for the USTAR tape-archive format.
//!
//! An archive is a run of 512-byte blocks: for each entry a header block and
//! the blocks of its content, and two zero blocks at the end. The crate reads
//! an archive that is held in memory into its entries
//! ([`parse_to_file_blocks`]) and writes a list of files out as an archive
//! ([`build`]). It does no input or output of its own.
//!
//! Every function is verified against a mathematical description of the
//! format, and the module [`laws`] proves what holds of the two directions
//! together: what is written is read back as it was given.
//!
//! - [`block`] splits a buffer into blocks.
//! - [`text`] and [`octal`] read and write the fields of a header.
//! - [`header`] is the codec between a header block and a header record.
//! - [`parser`] is the reader, [`writer`] the writer.
//! - [`command`] reads a command line.
//! - [`owner`] asks the system for the names of users and groups.

pub mod block;
pub mod command;
pub mod header;
pub mod header_proofs;
pub mod laws;
pub mod models;
pub mod octal;
pub mod owner;
pub mod parser;
pub mod text;
pub mod writer;

pub use block::{is_all_zero, BLOCK_SIZE};
pub use command::{parse_command, Command};
pub use header::{encode_header, parse_header};
pub use models::{
    ArchiveEntry, ArchivedFile, EntryKind, EntryMetadata, ExtractedFile, TarError, TarHeader,
};
pub use parser::{extract_tar, get_tar_files, list_tar, parse_to_file_blocks};
pub use writer::build;
