//! Records of the client: what it asks the server for and what it keeps.
use vstd::prelude::*;
use crate::text::same_text;

verus! {

/// A folder that a user may open, by its Syncthing folder id.
#[derive(Debug, Clone)]
pub struct FolderId {
    pub folder: String,
}

/// An account as the server describes it.
#[derive(Debug, Clone)]
pub struct User {
    pub id: i32,
    pub username: String,
    pub password: String,
    pub salt: String,
    pub role: u8,
    pub allowed_folders: Vec<FolderId>,
}

/// An account with its folder list still as JSON text.
#[derive(Debug, Clone)]
pub struct UserUpdate {
    pub id: i32,
    pub username: String,
    pub password: String,
    pub salt: String,
    pub role: u8,
    pub allowed_folders: String,
}

/// The body of a request to delete an account.
#[derive(Debug, Clone)]
pub struct DeleteUser {
    pub username: String,
}

/// The body of a request for the items of a folder.
#[derive(Debug, Clone)]
pub struct FolderSearch {
    pub id: String,
    pub path: String,
}

/// One row of the client's `site_settings` table.
#[derive(Debug, Clone)]
pub struct SiteSetting {
    pub id: i32,
    pub key: String,
    pub value: String,
}

/// A file or directory inside a shared folder (`id` is the folder's id).
#[derive(Debug, Clone)]
pub struct FolderFile {
    pub id: String,
    pub name: String,
    pub path: String,
    pub is_file: bool,
}

/// Where a selected item stands.
#[derive(Debug, Clone, Copy, PartialEq, Eq, Structural)]
pub enum SyncStatus {
    InCloud,
    Syncing,
    Synced,
}

/// The stored name of a status.
pub open spec fn status_text(s: SyncStatus) -> Seq<char> {
    match s {
        SyncStatus::InCloud => "in_cloud"@,
        SyncStatus::Syncing => "syncing"@,
        SyncStatus::Synced => "synced"@,
    }
}

/// The status a stored name stands for; any name other than `syncing` and
/// `synced` counts as `in_cloud`, the column's default.
pub open spec fn status_named(s: Seq<char>) -> SyncStatus {
    if s == "syncing"@ {
        SyncStatus::Syncing
    } else if s == "synced"@ {
        SyncStatus::Synced
    } else {
        SyncStatus::InCloud
    }
}

/// Reading back the stored name of a status gives that status.
pub proof fn lemma_status_name_round_trip(s: SyncStatus)
    ensures
        status_named(status_text(s)) == s,
{
    reveal_strlit("in_cloud");
    reveal_strlit("syncing");
    reveal_strlit("synced");
    assert("in_cloud"@ != "syncing"@ && "in_cloud"@ != "synced"@ && "syncing"@ != "synced"@) by {
        assert("in_cloud"@[0] != "syncing"@[0]);
        assert("in_cloud"@[0] != "synced"@[0]);
        assert("syncing"@.len() != "synced"@.len());
    }
}

impl SyncStatus {
    /// See `status_named`.
    pub fn from_str(s: &str) -> (r: SyncStatus)
        ensures
            r == status_named(s@),
    {
        if same_text(s, "syncing") {
            SyncStatus::Syncing
        } else if same_text(s, "synced") {
            SyncStatus::Synced
        } else {
            SyncStatus::InCloud
        }
    }

    /// See `status_text`.
    pub fn as_str(&self) -> (r: &'static str)
        ensures
            r@ == status_text(*self),
    {
        match self {
            SyncStatus::InCloud => "in_cloud",
            SyncStatus::Syncing => "syncing",
            SyncStatus::Synced => "synced",
        }
    }
}

/// A selected item as the client stores it: `root` is the folder id,
/// `path` the item's path inside it.
#[derive(Debug, Clone)]
pub struct FolderFileSaved {
    pub id: i32,
    pub root: String,
    pub path: String,
    pub is_file: bool,
    pub sync_status: SyncStatus,
}

/// A folder as Syncthing's configuration lists it.
#[allow(non_snake_case)]
#[derive(Debug, Clone)]
pub struct Folder {
    pub id: String,
    pub label: String,
    pub filesystemType: String,
    pub path: String,
}

/// The credentials the client logs in with.
#[derive(Debug, Clone)]
pub struct LoginUser {
    pub username: String,
    pub password: String,
}

} // verus!
