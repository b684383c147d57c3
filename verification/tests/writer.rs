use rustar::header::{flag_of_kind, header_from_texts, kind_of_flag, sum_bytes};
use rustar::{
    build, encode_header, extract_tar, get_tar_files, list_tar, parse_header,
    parse_to_file_blocks, ArchiveEntry, EntryKind, EntryMetadata, TarError,
};

fn plain_metadata() -> EntryMetadata {
    EntryMetadata {
        mode: 0o644,
        uid: 0,
        gid: 0,
        mtime: 0,
        kind: EntryKind::Regular,
        link_target: String::new(),
        owner_name: None,
        group_name: None,
    }
}

fn regular_file(path: &str, content: &[u8]) -> ArchiveEntry {
    ArchiveEntry { path: path.to_string(), metadata: plain_metadata(), content: content.to_vec() }
}

#[test]
fn round_trip_gives_names_and_contents_in_order() {
    let mut mixed = vec![0u8; 700];
    mixed.extend((0..=255u8).cycle().take(1000));
    let entries = vec![
        regular_file("empty.txt", b""),
        regular_file("hello.txt", b"hello, world\n"),
        regular_file("one_block.bin", &[0xabu8; 512]),
        regular_file("one_more.bin", &[0xcdu8; 513]),
        regular_file("zeros.bin", &[0u8; 2048]),
        regular_file("dir/mixed.bin", &mixed),
        regular_file("hello.txt", b"the same name again"),
        regular_file("caf\u{e9}/\u{65e5}\u{672c}.txt", "\u{1f980}".as_bytes()),
    ];
    let archive = build(&entries);
    let files = parse_to_file_blocks(&archive).unwrap();
    assert_eq!(files.len(), entries.len());
    for (file, entry) in files.iter().zip(entries.iter()) {
        assert_eq!(file.header.file_name, entry.path);
        assert_eq!(file.header.file_size, entry.content.len());
        assert_eq!(file.content(), entry.content);
        assert_eq!(file.data_blocks.len(), (entry.content.len() + 511) / 512);
    }
    let extracted = extract_tar(archive).unwrap();
    assert_eq!(extracted.len(), entries.len());
    for (file, entry) in extracted.iter().zip(entries.iter()) {
        assert_eq!(file.path, entry.path);
        assert_eq!(file.content, entry.content);
    }
}

#[test]
fn round_trip_keeps_every_header_field() {
    let entry = ArchiveEntry {
        path: "bin/tool".to_string(),
        metadata: EntryMetadata {
            mode: 0o100755,
            uid: 1000,
            gid: 0o7777777,
            mtime: 1_700_000_000,
            kind: EntryKind::Regular,
            link_target: "not written".to_string(),
            owner_name: Some("alice".to_string()),
            group_name: Some("staff".to_string()),
        },
        content: vec![1, 2, 3, 4, 5],
    };
    let archive = build(&[entry]);
    let files = parse_to_file_blocks(&archive).unwrap();
    let header = &files[0].header;
    assert_eq!(header.file_name, "bin/tool");
    assert_eq!(header.file_size, 5);
    assert_eq!(header.mode, 0o100755);
    assert_eq!(header.uid, 1000);
    assert_eq!(header.gid, 0o7777777);
    assert_eq!(header.mtime, 1_700_000_000);
    assert_eq!(header.kind, EntryKind::Regular);
    assert_eq!(header.link_target, "");
    assert_eq!(header.owner_name, "alice");
    assert_eq!(header.group_name, "staff");
    assert_eq!(header.checksum as u64, {
        let mut block = archive[..512].to_vec();
        block[148..156].copy_from_slice(b"        ");
        sum_bytes(&block)
    });
}

#[test]
fn empty_file_has_no_data_block() {
    let archive = build(&[regular_file("empty", b"")]);
    assert_eq!(archive.len(), 512 + 1024);
    let files = parse_to_file_blocks(&archive).unwrap();
    assert_eq!(files.len(), 1);
    assert_eq!(files[0].header.file_size, 0);
    assert!(files[0].data_blocks.is_empty());
}

#[test]
fn archive_is_whole_blocks_and_ends_with_two_zero_blocks() {
    for len in [0usize, 1, 511, 512, 513, 1024, 1500] {
        let archive = build(&[regular_file("a", &vec![7u8; len]), regular_file("b", b"x")]);
        assert_eq!(archive.len() % 512, 0);
        let blocks = (len + 511) / 512;
        assert_eq!(archive.len(), 512 * (1 + blocks) + 512 * 2 + 1024);
        assert!(archive[archive.len() - 1024..].iter().all(|b| *b == 0));
    }
}

#[test]
fn archive_of_nothing_is_the_terminator() {
    let archive = build(&[]);
    assert_eq!(archive, vec![0u8; 1024]);
    assert!(parse_to_file_blocks(&archive).unwrap().is_empty());
}

#[test]
fn terminator_follows_content_that_ends_at_a_block_boundary() {
    let archive = build(&[regular_file("full", &[1u8; 1024])]);
    assert_eq!(archive.len(), 512 + 1024 + 1024);
    assert!(archive[512..1536].iter().all(|b| *b == 1));
    assert!(archive[1536..].iter().all(|b| *b == 0));
}

#[test]
fn content_is_padded_with_zero_bytes() {
    let archive = build(&[regular_file("short", b"abc")]);
    assert_eq!(&archive[512..515], b"abc");
    assert!(archive[515..1024].iter().all(|b| *b == 0));
}

#[test]
fn built_archive_without_terminator_gives_every_entry() {
    let entries = vec![regular_file("first", b"1"), regular_file("last", &[9u8; 600])];
    let mut archive = build(&entries);
    archive.truncate(archive.len() - 1024);
    let files = parse_to_file_blocks(&archive).unwrap();
    assert_eq!(files.len(), 2);
    assert_eq!(files[1].header.file_name, "last");
    assert_eq!(files[1].content(), vec![9u8; 600]);
    archive.extend_from_slice(&[0u8; 512]);
    assert_eq!(get_tar_files(archive).unwrap(), vec!["first", "last"]);
}

#[test]
fn size_field_with_non_octal_text_fails_the_whole_archive() {
    let entries =
        vec![regular_file("good", b"ok"), regular_file("bad", b"ok"), regular_file("later", b"ok")];
    let mut archive = build(&entries);
    // The second header starts behind the first header and its one data block.
    archive[1024 + 124..1024 + 135].copy_from_slice(b"0000000000z");
    assert!(matches!(parse_to_file_blocks(&archive), Err(TarError::MalformedHeader)));
    assert_eq!(get_tar_files(archive.clone()), Err(TarError::MalformedHeader));
    assert_eq!(list_tar(archive.clone()), Err(TarError::MalformedHeader));
    assert!(matches!(extract_tar(archive), Err(TarError::MalformedHeader)));
}

#[test]
fn checksum_of_a_known_header() {
    // name 846, mode "644" 158, uid "0" 48, gid "0" 48, size "00000000004" 532,
    // time "00000000000" 528, eight spaces 256, flag "0" 48, "ustar" 559,
    // version "00" 96, twice "Unknown" 1504, sixteen "0" 768: 5391 = 0o12417.
    let block = encode_header("test.txt", &plain_metadata(), 4);
    assert_eq!(block.len(), 512);
    assert_eq!(&block[148..156], b"12417\0\0\0");
    let header = parse_header(&block).unwrap();
    assert_eq!(header.checksum, 5391);
    let archive = build(&[regular_file("test.txt", b"data")]);
    assert_eq!(&archive[..512], &block[..]);
}

#[test]
fn header_layout() {
    let metadata = EntryMetadata {
        mode: 0o755,
        uid: 0o1750,
        gid: 0o144,
        mtime: 0o17,
        kind: EntryKind::Directory,
        link_target: String::new(),
        owner_name: Some("root".to_string()),
        group_name: None,
    };
    let block = encode_header("some/dir/", &metadata, 0);
    let mut expected = vec![0u8; 512];
    expected[..9].copy_from_slice(b"some/dir/");
    expected[100..103].copy_from_slice(b"755");
    expected[108..112].copy_from_slice(b"1750");
    expected[116..119].copy_from_slice(b"144");
    expected[124..135].copy_from_slice(b"00000000000");
    expected[136..147].copy_from_slice(b"00000000017");
    expected[156] = b'5';
    expected[257..263].copy_from_slice(b"ustar\0");
    expected[263..265].copy_from_slice(b"00");
    expected[265..269].copy_from_slice(b"root");
    expected[297..304].copy_from_slice(b"Unknown");
    expected[329..345].copy_from_slice(b"0000000000000000");
    expected[148..156].copy_from_slice(b"        ");
    let sum: u32 = expected.iter().map(|b| *b as u32).sum();
    let text = format!("{:o}", sum);
    expected[148..156].copy_from_slice(&[0u8; 8]);
    expected[148..148 + text.len()].copy_from_slice(text.as_bytes());
    assert_eq!(block, expected);
}

#[test]
fn symlink_keeps_its_link_target() {
    let entry = ArchiveEntry {
        path: "link".to_string(),
        metadata: EntryMetadata {
            mode: 0o777,
            uid: 1000,
            gid: 1000,
            mtime: 15,
            kind: EntryKind::Symlink,
            link_target: "target/file".to_string(),
            owner_name: Some("alice".to_string()),
            group_name: Some("staff".to_string()),
        },
        content: Vec::new(),
    };
    let archive = build(&[entry]);
    assert_eq!(archive[156], b'2');
    assert_eq!(&archive[157..168], b"target/file");
    assert_eq!(&archive[148..156], b"13476\0\0\0");
    let files = parse_to_file_blocks(&archive).unwrap();
    assert_eq!(files.len(), 1);
    assert_eq!(files[0].header.kind, EntryKind::Symlink);
    assert_eq!(files[0].header.link_target, "target/file");
    assert_eq!(files[0].header.file_name, "link");
    assert!(files[0].data_blocks.is_empty());
}

#[test]
fn link_target_is_written_for_symlinks_only() {
    let mut metadata = plain_metadata();
    metadata.link_target = "elsewhere".to_string();
    let block = encode_header("file", &metadata, 0);
    assert!(block[157..257].iter().all(|b| *b == 0));
    metadata.kind = EntryKind::Directory;
    let block = encode_header("dir", &metadata, 0);
    assert!(block[157..257].iter().all(|b| *b == 0));
}

#[test]
fn link_target_is_read_for_symlinks_only() {
    let mut metadata = plain_metadata();
    metadata.kind = EntryKind::Symlink;
    metadata.link_target = "elsewhere".to_string();
    let mut block = encode_header("link", &metadata, 0);
    assert_eq!(parse_header(&block).unwrap().link_target, "elsewhere");
    block[156] = b'1';
    let header = parse_header(&block).unwrap();
    assert_eq!(header.kind, EntryKind::Regular);
    assert_eq!(header.link_target, "");
}

#[test]
fn missing_names_are_written_as_unknown() {
    let archive = build(&[regular_file("f", b"")]);
    assert_eq!(&archive[265..273], b"Unknown\0");
    assert_eq!(&archive[297..305], b"Unknown\0");
    let files = parse_to_file_blocks(&archive).unwrap();
    assert_eq!(files[0].header.owner_name, "Unknown");
    assert_eq!(files[0].header.group_name, "Unknown");
}

#[test]
fn kinds_and_flags() {
    assert_eq!(flag_of_kind(EntryKind::Regular), b'0');
    assert_eq!(flag_of_kind(EntryKind::Symlink), b'2');
    assert_eq!(flag_of_kind(EntryKind::Directory), b'5');
    assert_eq!(kind_of_flag(b'0'), EntryKind::Regular);
    assert_eq!(kind_of_flag(b'2'), EntryKind::Symlink);
    assert_eq!(kind_of_flag(b'5'), EntryKind::Directory);
    assert_eq!(kind_of_flag(0), EntryKind::Regular);
    assert_eq!(kind_of_flag(b'1'), EntryKind::Regular);
    assert_eq!(kind_of_flag(b'x'), EntryKind::Regular);
}

#[test]
fn name_of_a_hundred_bytes_fills_its_field() {
    let name = "n".repeat(100);
    let archive = build(&[regular_file(&name, b"")]);
    assert_eq!(&archive[..100], name.as_bytes());
    assert_eq!(get_tar_files(archive).unwrap(), vec![name]);
}

#[test]
fn longer_name_is_cut_to_its_field() {
    let name = "m".repeat(130);
    let archive = build(&[regular_file(&name, b"")]);
    assert_eq!(&archive[..100], &name.as_bytes()[..100]);
    assert_eq!(&archive[100..103], b"644");
    assert_eq!(get_tar_files(archive).unwrap(), vec!["m".repeat(100)]);
}

#[test]
fn number_too_long_for_its_field_is_cut() {
    let mut metadata = plain_metadata();
    metadata.uid = 0o37777777777;
    metadata.mtime = 0o1234567012345;
    let block = encode_header("big", &metadata, 0);
    assert_eq!(&block[108..116], b"37777777");
    assert_eq!(&block[136..148], b"123456701234");
}

#[test]
fn listing_is_in_insertion_order_one_name_per_line() {
    let entries = vec![
        regular_file("zebra", b"z"),
        regular_file("apple", b""),
        regular_file("mango/", &[0u8; 600]),
        regular_file("apple", b"again"),
    ];
    let archive = build(&entries);
    assert_eq!(get_tar_files(archive.clone()).unwrap(), vec!["zebra", "apple", "mango/", "apple"]);
    assert_eq!(list_tar(archive).unwrap(), "zebra\napple\nmango/\napple\n");
    assert_eq!(list_tar(build(&[])).unwrap(), "");
}

#[test]
fn header_is_put_together_from_block_and_texts() {
    let mut metadata = plain_metadata();
    metadata.kind = EntryKind::Symlink;
    metadata.link_target = "ignored".to_string();
    let block = encode_header("ignored", &metadata, 0o1234);
    let header = header_from_texts(
        &block,
        "a name".to_string(),
        "a target".to_string(),
        "an owner".to_string(),
        "a group".to_string(),
    )
    .unwrap();
    assert_eq!(header.file_name, "a name");
    assert_eq!(header.link_target, "a target");
    assert_eq!(header.owner_name, "an owner");
    assert_eq!(header.group_name, "a group");
    assert_eq!(header.file_size, 0o1234);
    assert_eq!(header.mode, 0o644);
    assert_eq!(header.kind, EntryKind::Symlink);

    let mut regular = block.clone();
    regular[156] = b'0';
    let header = header_from_texts(
        &regular,
        "a name".to_string(),
        "a target".to_string(),
        String::new(),
        String::new(),
    )
    .unwrap();
    assert_eq!(header.kind, EntryKind::Regular);
    assert_eq!(header.link_target, "");

    let mut bad = block.clone();
    bad[130] = b'9';
    let refused =
        header_from_texts(&bad, String::new(), String::new(), String::new(), String::new());
    assert!(matches!(refused, Err(TarError::MalformedHeader)));
}

#[test]
fn sum_of_bytes() {
    assert_eq!(sum_bytes(&[]), 0);
    assert_eq!(sum_bytes(&[1, 2, 3, 250]), 256);
    assert_eq!(sum_bytes(&[255u8; 512]), 130560);
}
