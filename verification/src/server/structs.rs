//! Records exchanged by the server's API and kept in its database.
use vstd::prelude::*;

verus! {

/// A folder that a user may open, by its Syncthing folder id.
#[derive(Debug, Clone)]
pub struct FolderId {
    pub folder: String,
}


/// An account; `password` holds the salted SHA-256 hash in Base64.
#[derive(Debug, Clone)]
pub struct User {
    pub id: i32,
    pub username: String,
    pub password: String,
    pub salt: String,
    pub role: u8,
    pub allowed_folders: Vec<FolderId>,
}


/// A user as the API receives it: `allowed_folders` is still JSON text.
#[derive(Debug, Clone)]
pub struct UserUpdate {
    pub id: i32,
    pub username: String,
    pub password: String,
    pub salt: String,
    pub role: u8,
    pub allowed_folders: String,
}

/// The body of a request to delete an account.
#[derive(Debug, Clone)]
pub struct DeleteUser {
    pub username: String,
}

/// The body of a request for the items of a folder.
#[derive(Debug, Clone)]
pub struct FolderSearch {
    pub id: String,
    pub path: String,
}

/// One row of the `site_settings` table.
#[derive(Debug, Clone)]
pub struct SiteSetting {
    pub id: i32,
    pub key: String,
    pub value: String,
}

/// A file or directory inside a shared folder.
#[derive(Debug, Clone)]
pub struct FolderFile {
    pub id: String,
    pub name: String,
    pub path: String,
    pub is_file: bool,
}

/// A folder as Syncthing's configuration lists it.
#[allow(non_snake_case)]
#[derive(Debug, Clone)]
pub struct Folder {
    pub id: String,
    pub label: String,
    pub filesystemType: String,
    pub path: String,
}

} // verus!
