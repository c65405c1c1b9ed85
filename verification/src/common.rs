//! Pieces shared by the server and the client: answer statuses and setting updates.
use vstd::prelude::*;
use crate::text::{replace_all, replace_str};

verus! {

/// The HTTP statuses the endpoints answer with.
#[derive(Debug, Clone, Copy, PartialEq, Eq, Structural)]
pub enum Status {
    Success,
    Accepted,
    Forbidden,
    NotFound,
    ImATeapot,
    InternalServerError,
    ServiceUnavailable,
    UnavailableForLegalReasons,
}

/// The numeric code of a status.
pub open spec fn status_code(s: Status) -> u16 {
    match s {
        Status::Success => 200,
        Status::Accepted => 202,
        Status::Forbidden => 403,
        Status::NotFound => 404,
        Status::ImATeapot => 418,
        Status::InternalServerError => 500,
        Status::ServiceUnavailable => 503,
        Status::UnavailableForLegalReasons => 451,
    }
}

impl Status {
    /// The numeric HTTP code.
    pub fn code(&self) -> (c: u16)
        ensures
            c == status_code(*self),
    {
        match self {
            Status::Success => 200,
            Status::Accepted => 202,
            Status::Forbidden => 403,
            Status::NotFound => 404,
            Status::ImATeapot => 418,
            Status::InternalServerError => 500,
            Status::ServiceUnavailable => 503,
            Status::UnavailableForLegalReasons => 451,
        }
    }
}

/// A setting to overwrite: key and new value.
#[derive(Debug)]
pub struct SettingUpdate {
    pub key: String,
    pub value: String,
}

/// A setting as a key-value pair of texts.
pub open spec fn update_pair(u: SettingUpdate) -> (Seq<char>, Seq<char>) {
    (u.key@, u.value@)
}

/// `(key, value)` when `value` is not empty, nothing otherwise.
pub open spec fn set_if(key: Seq<char>, value: Seq<char>) -> Seq<(Seq<char>, Seq<char>)> {
    if value.len() > 0 {
        seq![(key, value)]
    } else {
        Seq::empty()
    }
}

/// Adds `(key, value)` to `updates` when `value` is not empty.
pub fn push_if_set(updates: &mut Vec<SettingUpdate>, key: &str, value: &str)
    ensures
        final(updates)@.map_values(|u: SettingUpdate| update_pair(u)) == old(updates)@.map_values(
            |u: SettingUpdate| update_pair(u),
        ) + set_if(key@, value@),
{
    if !value.is_empty() {
        updates.push(SettingUpdate { key: String::from_str(key), value: String::from_str(value) });
    }
    assert(final(updates)@.map_values(|u: SettingUpdate| update_pair(u)) =~= old(updates)@.map_values(
        |u: SettingUpdate| update_pair(u),
    ) + set_if(key@, value@));
}

/// 200 when a database change succeeded, 500 when it did not.
pub fn outcome_status(success: bool) -> (s: Status)
    ensures
        s == (if success {
            Status::Success
        } else {
            Status::InternalServerError
        }),
{
    if success {
        Status::Success
    } else {
        Status::InternalServerError
    }
}

/// `path` with `~` replaced by the home directory, as the server reads
/// Syncthing's folder paths.
pub open spec fn expand_home(path: Seq<char>, home: Seq<char>) -> Seq<char> {
    replace_all(path, "~"@, home)
}

/// See `expand_home`.
pub fn expand_home_path(path: &str, home: &str) -> (r: String)
    ensures
        r@ == expand_home(path@, home@),
{
    replace_str(path, "~", home)
}

} // verus!
