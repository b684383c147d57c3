//! The names of users and groups, as the system's databases give them.

use vstd::prelude::*;
use crate::models::{EntryKind, EntryMetadata};

verus! {

/// Calls `users::get_user_by_uid` and takes the user's name out of what it
/// returns, with U+FFFD in place of what is not Unicode. Trusted: the call
/// returns; nothing is claimed of the name, which is what the system's user
/// database holds at the time of the call, or of whether there is one.
#[verifier::external_body]
fn user_name_by_uid(uid: u32) -> (name: Option<String>) {
    match users::get_user_by_uid(uid) {
        Some(user) => Some(user.name().to_string_lossy().into_owned()),
        None => None,
    }
}

/// Calls `users::get_group_by_gid` and takes the group's name out of what
/// it returns, with U+FFFD in place of what is not Unicode. Trusted: the
/// call returns; nothing is claimed of the name, which is what the system's
/// group database holds at the time of the call, or of whether there is one.
#[verifier::external_body]
fn group_name_by_gid(gid: u32) -> (name: Option<String>) {
    match users::get_group_by_gid(gid) {
        Some(group) => Some(group.name().to_string_lossy().into_owned()),
        None => None,
    }
}

impl EntryMetadata {
    /// The metadata of a file whose owner is known by its ids alone: the
    /// names are those that the system has for the ids, where it has any.
    /// Whatever the system answers, everything else is as it was given.
    pub fn with_system_names(
        mode: u32,
        uid: u32,
        gid: u32,
        mtime: u64,
        kind: EntryKind,
        link_target: String,
    ) -> (metadata: EntryMetadata)
        ensures
            metadata.mode == mode,
            metadata.uid == uid,
            metadata.gid == gid,
            metadata.mtime == mtime,
            metadata.kind == kind,
            metadata.link_target == link_target,
    {
        EntryMetadata {
            mode,
            uid,
            gid,
            mtime,
            kind,
            link_target,
            owner_name: user_name_by_uid(uid),
            group_name: group_name_by_gid(gid),
        }
    }
}

} // verus!
