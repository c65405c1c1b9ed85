//! The decisions of the client's database layer.
use vstd::prelude::*;
use crate::text::same_text;
use crate::client::structs::{FolderFileSaved, SiteSetting};

verus! {

/// A setting as a key-value pair of texts.
pub open spec fn setting_pair(s: SiteSetting) -> (Seq<char>, Seq<char>) {
    (s.key@, s.value@)
}

fn setting(key: &str, value: &str) -> (s: SiteSetting)
    ensures
        s.id == 0,
        s.key@ == key@,
        s.value@ == value@,
{
    SiteSetting { id: 0, key: String::from_str(key), value: String::from_str(value) }
}

/// The settings written when the client's `site_settings` table is created.
pub fn default_site_settings() -> (r: Vec<SiteSetting>)
    ensures
        r@.map_values(|s: SiteSetting| setting_pair(s)) == seq![
            ("api-key"@, "NULL"@),
            ("ssss-url"@, "127.0.0.1:8383"@),
            ("ssss-user"@, "NULL"@),
            ("ssss-pass"@, "NULL"@),
            ("st-url"@, "NULL"@),
        ],
        forall|i: int| 0 <= i < r@.len() ==> (#[trigger] r@[i]).id == 0,
{
    let mut r: Vec<SiteSetting> = Vec::new();
    r.push(setting("api-key", "NULL"));
    r.push(setting("ssss-url", "127.0.0.1:8383"));
    r.push(setting("ssss-user", "NULL"));
    r.push(setting("ssss-pass", "NULL"));
    r.push(setting("st-url", "NULL"));
    assert(r@.map_values(|s: SiteSetting| setting_pair(s)) =~= seq![
        ("api-key"@, "NULL"@),
        ("ssss-url"@, "127.0.0.1:8383"@),
        ("ssss-user"@, "NULL"@),
        ("ssss-pass"@, "NULL"@),
        ("st-url"@, "NULL"@),
    ]);
    r
}

/// Whether an existing `selected_items` table (with these column names)
/// still lacks the `sync_status` column.
pub fn needs_sync_status_column(columns: &Vec<String>) -> (r: bool)
    ensures
        r == forall|i: int| 0 <= i < columns@.len() ==> (#[trigger] columns@[i])@ != "sync_status"@,
{
    let mut i: usize = 0;
    while i < columns.len()
        invariant
            i <= columns@.len(),
            forall|j: int| 0 <= j < i ==> (#[trigger] columns@[j])@ != "sync_status"@,
        decreases columns.len() - i,
    {
        if same_text(columns[i].as_str(), "sync_status") {
            return false;
        }
        i = i + 1;
    }
    true
}

/// The selected items as the database layer hands them out: none at all
/// when the list is empty.
pub fn items_or_none(items: Vec<FolderFileSaved>) -> (r: Option<Vec<FolderFileSaved>>)
    ensures
        items@.len() == 0 ==> r is None,
        items@.len() > 0 ==> r == Some(items),
{
    if items.len() == 0 {
        None
    } else {
        Some(items)
    }
}

/// Some item of `items` has id `id`.
pub open spec fn has_id(items: Seq<FolderFileSaved>, id: i32) -> bool {
    exists|i: int| 0 <= i < items.len() && (#[trigger] items[i]).id == id
}

fn contains_id(items: &Vec<FolderFileSaved>, id: i32) -> (r: bool)
    ensures
        r == has_id(items@, id),
{
    let mut i: usize = 0;
    while i < items.len()
        invariant
            i <= items@.len(),
            forall|j: int| 0 <= j < i ==> (#[trigger] items@[j]).id != id,
        decreases items.len() - i,
    {
        if items[i].id == id {
            return true;
        }
        i = i + 1;
    }
    false
}

/// The rows that `update_database` deletes: the ids of the original items
/// that no updated item has, each once.
pub fn ids_to_delete(updated_items: &Vec<FolderFileSaved>, original_items: &Vec<FolderFileSaved>) -> (r: Vec<i32>)
    ensures
        forall|x: i32| r@.contains(x) <==> has_id(original_items@, x) && !has_id(updated_items@, x),
        r@.no_duplicates(),
{
    let mut r: Vec<i32> = Vec::new();
    let mut i: usize = 0;
    while i < original_items.len()
        invariant
            i <= original_items@.len(),
            forall|x: i32| r@.contains(x) <==> (exists|j: int| 0 <= j < i && (#[trigger] original_items@[j]).id == x) && !has_id(updated_items@, x),
            r@.no_duplicates(),
        decreases original_items.len() - i,
    {
        let id = original_items[i].id;
        let gone = !contains_id(updated_items, id);
        let mut seen = false;
        let mut k: usize = 0;
        while k < r.len()
            invariant
                k <= r@.len(),
                seen == exists|j: int| 0 <= j < k && r@[j] == id,
            decreases r.len() - k,
        {
            if r[k] == id {
                seen = true;
            }
            k = k + 1;
        }
        let ghost old_r = r@;
        if gone && !seen {
            r.push(id);
            assert(r@ == old_r.push(id));
        }
        proof {
            assert forall|x: i32| r@.contains(x) <==> (old_r.contains(x) || (gone && !seen && x == id)) by {
                if gone && !seen {
                    if old_r.contains(x) {
                        let j = choose|j: int| 0 <= j < old_r.len() && old_r[j] == x;
                        assert(r@[j] == x);
                    }
                    if x == id {
                        assert(r@[old_r.len() as int] == x);
                    }
                }
            }
            if seen {
                let j = choose|j: int| 0 <= j < old_r.len() && old_r[j] == id;
                assert(old_r.contains(id));
            }
            assert forall|x: i32| r@.contains(x) <==> (exists|j: int| 0 <= j < i + 1 && (#[trigger] original_items@[j]).id == x) && !has_id(updated_items@, x) by {
                if x == id {
                    if gone {
                        assert(original_items@[i as int].id == x);
                    }
                } else {
                    if exists|j: int| 0 <= j < i + 1 && (#[trigger] original_items@[j]).id == x {
                        let j = choose|j: int| 0 <= j < i + 1 && (#[trigger] original_items@[j]).id == x;
                        assert(j < i);
                    }
                }
            }
        }
        i = i + 1;
    }
    r
}

} // verus!
