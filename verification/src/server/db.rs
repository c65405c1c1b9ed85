//! What the server's database starts with.
use vstd::prelude::*;
use crate::server::structs::SiteSetting;

verus! {

/// A setting as a key-value pair of texts.
pub open spec fn setting_pair(s: SiteSetting) -> (Seq<char>, Seq<char>) {
    (s.key@, s.value@)
}

/// A setting with the given key and value, its id left to the database.
pub fn setting(key: &str, value: &str) -> (s: SiteSetting)
    ensures
        s.id == 0,
        s.key@ == key@,
        s.value@ == value@,
{
    SiteSetting { id: 0, key: String::from_str(key), value: String::from_str(value) }
}

/// The settings written when the `site_settings` table is created: no API
/// key yet, Syncthing on the local machine, the server on every interface.
pub fn default_site_settings() -> (r: Vec<SiteSetting>)
    ensures
        r@.map_values(|s: SiteSetting| setting_pair(s)) == seq![
            ("api-key"@, "NULL"@),
            ("st-url"@, "127.0.0.1:8384"@),
            ("ssss-url"@, "0.0.0.0:8383"@),
        ],
        forall|i: int| 0 <= i < r@.len() ==> (#[trigger] r@[i]).id == 0,
{
    let mut r: Vec<SiteSetting> = Vec::new();
    r.push(setting("api-key", "NULL"));
    r.push(setting("st-url", "127.0.0.1:8384"));
    r.push(setting("ssss-url", "0.0.0.0:8383"));
    assert(r@.map_values(|s: SiteSetting| setting_pair(s)) =~= seq![
        ("api-key"@, "NULL"@),
        ("st-url"@, "127.0.0.1:8384"@),
        ("ssss-url"@, "0.0.0.0:8383"@),
    ]);
    r
}

} // verus!
