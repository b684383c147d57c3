use rustar::{build, parse_to_file_blocks, ArchiveEntry, EntryKind, EntryMetadata};

fn expected_name(name: Option<String>) -> String {
    name.unwrap_or("Unknown".to_string())
}

#[test]
fn system_names_are_those_of_the_ids() {
    let uid = users::get_current_uid();
    let gid = users::get_current_gid();
    let metadata = EntryMetadata::with_system_names(
        0o600,
        uid,
        gid,
        42,
        EntryKind::Symlink,
        "target".to_string(),
    );
    assert_eq!(metadata.mode, 0o600);
    assert_eq!(metadata.uid, uid);
    assert_eq!(metadata.gid, gid);
    assert_eq!(metadata.mtime, 42);
    assert_eq!(metadata.kind, EntryKind::Symlink);
    assert_eq!(metadata.link_target, "target");
    let user = users::get_user_by_uid(uid).map(|user| user.name().to_string_lossy().into_owned());
    let group =
        users::get_group_by_gid(gid).map(|group| group.name().to_string_lossy().into_owned());
    assert_eq!(metadata.owner_name, user);
    assert_eq!(metadata.group_name, group);

    let archive = build(&[ArchiveEntry { path: "f".to_string(), metadata, content: Vec::new() }]);
    let files = parse_to_file_blocks(&archive).unwrap();
    assert_eq!(files[0].header.owner_name, expected_name(user));
    assert_eq!(files[0].header.group_name, expected_name(group));
}

#[test]
fn ids_without_a_name_give_unknown() {
    // Ids that no system database is likely to hold; the assertion is on
    // what the header says for whatever the lookup gave.
    let uid = 4_000_000_123;
    let gid = 4_000_000_456;
    let metadata =
        EntryMetadata::with_system_names(0o644, uid, gid, 0, EntryKind::Regular, String::new());
    let user = users::get_user_by_uid(uid).map(|user| user.name().to_string_lossy().into_owned());
    let group =
        users::get_group_by_gid(gid).map(|group| group.name().to_string_lossy().into_owned());
    assert_eq!(metadata.owner_name, user);
    assert_eq!(metadata.group_name, group);
    let archive = build(&[ArchiveEntry { path: "f".to_string(), metadata, content: Vec::new() }]);
    let files = parse_to_file_blocks(&archive).unwrap();
    assert_eq!(files[0].header.owner_name, expected_name(user));
    assert_eq!(files[0].header.group_name, expected_name(group));
}
