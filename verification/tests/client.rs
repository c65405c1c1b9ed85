use syncthing_select_sync::common::Status;
use syncthing_select_sync::client::api::{
    create_html, create_html_folders, find_folder, folder_item_path, folders_as_items, folders_url,
    locate_item, login_status_label, must_materialize, plan_add_selected, render_home, scan_url,
    site_setting_updates, stignore_contents, stignore_path, sync_file_result, free_space_result, file_status_report, AddPlan, FreeOutcome,
    ItemLocation, ServerReply, SyncOutcome,
};
use syncthing_select_sync::client::db::{
    default_site_settings, ids_to_delete, items_or_none, needs_sync_status_column,
};
use syncthing_select_sync::client::listing::sort_listing;
use syncthing_select_sync::client::paths::{consolidate_paths, is_child_path, update_folder_file};
use syncthing_select_sync::client::structs::{Folder, FolderFile, FolderFileSaved, SyncStatus};
use syncthing_select_sync::client::virtual_files::{
    access_selection, browse_url, cache_tick, config_folders_url, is_selected, keep_access_record,
    normalize_separators, path_segments, should_trigger_sync, syncthing_base_url,
    traverse_browse_tree, virtual_action, BrowseEntry, VirtualAction,
};

fn saved(id: i32, root: &str, path: &str) -> FolderFileSaved {
    FolderFileSaved { id, root: root.to_string(), path: path.to_string(), is_file: false, sync_status: SyncStatus::InCloud }
}

fn item(id: &str, name: &str, path: &str, is_file: bool) -> FolderFile {
    FolderFile { id: id.to_string(), name: name.to_string(), path: path.to_string(), is_file }
}

fn st_folder(id: &str, label: &str, path: &str) -> Folder {
    Folder { id: id.to_string(), label: label.to_string(), filesystemType: "basic".to_string(), path: path.to_string() }
}

fn paths(v: &[FolderFileSaved]) -> Vec<String> {
    v.iter().map(|f| f.path.clone()).collect()
}

#[test]
fn child_paths_lie_strictly_below() {
    assert!(is_child_path("docs", "docs/a"));
    assert!(is_child_path("docs", "docs/a/b.txt"));
    assert!(!is_child_path("docs", "docsx"));
    assert!(!is_child_path("docs", "docs2/a.txt"));
    assert!(is_child_path("docs", "docs/"));
    assert!(is_child_path("docs/", "docs/a"));
    assert!(!is_child_path("docs/", "docs/"));
    assert!(!is_child_path("docs", "docs"));
    assert!(!is_child_path("docs/a", "docs"));
    assert!(is_child_path("", "a"));
    assert!(!is_child_path("", ""));
}

#[test]
fn consolidate_merges_children_into_parents() {
    let mut v = vec![saved(1, "f", "a/b"), saved(2, "f", "a"), saved(3, "f", "c"), saved(4, "f", "a/b/c")];
    consolidate_paths(&mut v);
    assert_eq!(paths(&v), vec!["a", "c"]);
    assert_eq!(v[0].id, 1);
    assert_eq!(v[1].id, 3);
}

#[test]
fn consolidate_keeps_unrelated_paths_sorted() {
    let mut v = vec![saved(1, "f", "z"), saved(2, "f", "m"), saved(3, "f", "m")];
    consolidate_paths(&mut v);
    assert_eq!(paths(&v), vec!["m", "z"]);
    assert_eq!(v[0].id, 2);
    let mut empty: Vec<FolderFileSaved> = vec![];
    consolidate_paths(&mut empty);
    assert!(empty.is_empty());
}

#[test]
fn consolidated_selection_is_stable() {
    let mut v = vec![saved(1, "f", "a/b"), saved(2, "f", "a"), saved(3, "f", "c")];
    consolidate_paths(&mut v);
    let once = paths(&v);
    consolidate_paths(&mut v);
    assert_eq!(paths(&v), once);
}

#[test]
fn update_folder_file_takes_the_first_parent() {
    let list = vec![saved(1, "f", "x"), saved(2, "f", "a"), saved(3, "f", "a/b")];
    let mut f = item("f", "c", "a/b/c", true);
    update_folder_file(&mut f, &list);
    assert_eq!(f.path, "a");
    assert_eq!(f.name, "c");
    let mut g = item("f", "q", "q", false);
    update_folder_file(&mut g, &list);
    assert_eq!(g.path, "q");
}

#[test]
fn sync_status_names() {
    for s in [SyncStatus::InCloud, SyncStatus::Syncing, SyncStatus::Synced] {
        assert_eq!(SyncStatus::from_str(s.as_str()), s);
    }
    assert_eq!(SyncStatus::Synced.as_str(), "synced");
    assert_eq!(SyncStatus::from_str("whatever"), SyncStatus::InCloud);
}

#[test]
fn login_labels() {
    assert_eq!(login_status_label(ServerReply::NotAsked), "(Not Logged In)");
    assert_eq!(login_status_label(ServerReply::Unreachable), "Server Error");
    assert_eq!(login_status_label(ServerReply::Answered(200)), "Logged In");
    assert_eq!(login_status_label(ServerReply::Answered(418)), "Not Logged In");
    assert_eq!(login_status_label(ServerReply::Answered(500)), "Server Error");
}

#[test]
fn client_site_setting_updates_in_order() {
    let u = site_setting_updates("t", "", "me", "", "127.0.0.1:8384");
    let pairs: Vec<(String, String)> = u.into_iter().map(|s| (s.key, s.value)).collect();
    assert_eq!(
        pairs,
        vec![
            ("api-key".to_string(), "t".to_string()),
            ("ssss-user".to_string(), "me".to_string()),
            ("st-url".to_string(), "127.0.0.1:8384".to_string()),
        ]
    );
}

#[test]
fn add_plan_for_child_parent_and_new_items() {
    let list = vec![saved(1, "f", "docs"), saved(2, "g", "pics/2020"), saved(3, "g", "pics/2021")];
    assert_eq!(plan_add_selected(&list, &item("f", "a", "docs/a", true)), AddPlan::Ignore);
    assert_eq!(plan_add_selected(&list, &item("g", "pics", "pics", false)), AddPlan::UpdateParent(3));
    assert_eq!(plan_add_selected(&list, &item("f", "new", "new", false)), AddPlan::Create);
    assert_eq!(plan_add_selected(&list, &item("h", "a", "docs/a", true)), AddPlan::Create);
    assert_eq!(plan_add_selected(&list, &item("f", "docs", "docs", false)), AddPlan::Create);
    assert_eq!(plan_add_selected(&list, &item("f", "a", "docs2/a", true)), AddPlan::Create);
}

#[test]
fn item_paths_and_locations() {
    assert_eq!(folder_item_path("~/Sync", "/home/u", "a/b"), "/home/u/Sync/a/b");
    let fs = vec![st_folder("a", "A", "/x"), st_folder("b", "B", "~/y")];
    assert_eq!(find_folder(&fs, "b"), Some(1));
    assert_eq!(find_folder(&fs, "q"), None);
    assert!(matches!(locate_item(None, "a", Some("/h".to_string()), "p"), ItemLocation::NoFolders));
    assert!(matches!(locate_item(Some(fs.clone()), "q", Some("/h".to_string()), "p"), ItemLocation::NoFolder));
    assert!(matches!(locate_item(Some(fs.clone()), "b", None, "p"), ItemLocation::NoHome));
    match locate_item(Some(fs), "b", Some("/h".to_string()), "p/q") {
        ItemLocation::At(p) => assert_eq!(p, "/h/y/p/q"),
        other => panic!("unexpected {:?}", other),
    }
}

#[test]
fn materialize_only_absent_or_placeholder() {
    assert!(must_materialize(false, false));
    assert!(must_materialize(true, true));
    assert!(!must_materialize(true, false));
}

#[test]
fn folders_become_root_items() {
    let r = folders_as_items(vec![st_folder("a", "Alpha", "/x")]);
    assert_eq!(r.len(), 1);
    assert_eq!((r[0].id.as_str(), r[0].name.as_str(), r[0].path.as_str(), r[0].is_file), ("a", "Alpha", "", false));
}

#[test]
fn stignore_lists_the_selected_items_of_the_folder() {
    let list = vec![saved(1, "f", "docs"), saved(2, "g", "x"), saved(3, "f", "pics/a b")];
    assert_eq!(stignore_contents(&list, "f"), "// DO NOT CHANGE MANUALY\n!docs\n!pics/a b\n\n*");
    assert_eq!(stignore_contents(&list, "z"), "// DO NOT CHANGE MANUALY\n\n*");
    assert_eq!(stignore_path("~/Sync", "/home/u"), "/home/u/Sync/.stignore");
}

#[test]
fn added_item_appears_in_stignore() {
    let mut list = vec![saved(1, "f", "docs")];
    let new = item("f", "pics", "pics", false);
    assert_eq!(plan_add_selected(&list, &new), AddPlan::Create);
    list.push(saved(2, "f", "pics"));
    assert!(stignore_contents(&list, "f").contains("\n!pics"));
}

#[test]
fn syncthing_urls() {
    assert_eq!(scan_url("127.0.0.1:8384", "abcd-1"), "https://127.0.0.1:8384/rest/db/scan?folder=abcd-1");
    assert_eq!(folders_url("h:1"), "https://h:1/rest/config/folders");
    assert_eq!(syncthing_base_url("127.0.0.1:8384"), "https://127.0.0.1:8384");
    assert_eq!(syncthing_base_url("http://h:1"), "http://h:1");
    assert_eq!(syncthing_base_url("https://h:1"), "https://h:1");
    assert_eq!(browse_url("https://h", "f"), "https://h/rest/db/browse?folder=f&levels=-1&prefix=");
    assert_eq!(config_folders_url("https://h"), "https://h/rest/config/folders");
}

#[test]
fn client_create_html_is_a_link() {
    let r = create_html("<p>".to_string(), "L".to_string(), "I".to_string(), "P".to_string(), "S".to_string());
    assert_eq!(
        r,
        "<p><a href=\"/items\" class=\"folder-item\"><div class=\"folder-name\">L</div><div class=\"folder-detail\">ID: I</div><div class=\"folder-detail\">Path: P</div><div class=\"folder-detail\">File System: S</div></a>"
    );
    let fs = vec![st_folder("a", "A", "/a"), st_folder("b", "B", "/b")];
    let both = create_html_folders(&fs);
    let one = create_html(String::new(), "A".to_string(), "a".to_string(), "/a".to_string(), "basic".to_string());
    let two = create_html(one, "B".to_string(), "b".to_string(), "/b".to_string(), "basic".to_string());
    assert_eq!(both, two);
    assert_eq!(create_html_folders(&vec![]), "");
}

#[test]
fn client_default_site_settings() {
    let pairs: Vec<(String, String)> = default_site_settings().into_iter().map(|s| (s.key, s.value)).collect();
    assert_eq!(
        pairs,
        vec![
            ("api-key".to_string(), "NULL".to_string()),
            ("ssss-url".to_string(), "127.0.0.1:8383".to_string()),
            ("ssss-user".to_string(), "NULL".to_string()),
            ("ssss-pass".to_string(), "NULL".to_string()),
            ("st-url".to_string(), "NULL".to_string()),
        ]
    );
}

#[test]
fn sync_status_column_check() {
    assert!(needs_sync_status_column(&vec!["id".to_string(), "folder".to_string()]));
    assert!(!needs_sync_status_column(&vec!["id".to_string(), "sync_status".to_string()]));
}

#[test]
fn empty_selection_is_none() {
    assert!(items_or_none(vec![]).is_none());
    assert_eq!(items_or_none(vec![saved(1, "f", "a")]).unwrap().len(), 1);
}

#[test]
fn deleted_ids_are_those_consolidated_away() {
    let original = vec![saved(1, "f", "a/b"), saved(2, "f", "a"), saved(3, "f", "c"), saved(2, "f", "a")];
    let mut updated = original.clone();
    consolidate_paths(&mut updated);
    let mut gone = ids_to_delete(&updated, &original);
    gone.sort();
    let kept: Vec<i32> = updated.iter().map(|f| f.id).collect();
    for id in &gone {
        assert!(!kept.contains(id));
    }
    assert_eq!(ids_to_delete(&vec![saved(1, "f", "x")], &vec![saved(1, "f", "x"), saved(5, "f", "y"), saved(5, "f", "y")]), vec![5]);
}

#[test]
fn listing_puts_folders_first_then_names() {
    let v = vec![
        item("f", "b.txt", "b.txt", true),
        item("f", "Zeta", "Zeta", false),
        item("f", "a.txt", "a.txt", true),
        item("f", "alpha", "alpha", false),
        item("f", "a.txt", "dup", true),
    ];
    let r = sort_listing(v);
    let got: Vec<(String, String)> = r.into_iter().map(|f| (f.name, f.path)).collect();
    assert_eq!(
        got,
        vec![
            ("Zeta".to_string(), "Zeta".to_string()),
            ("alpha".to_string(), "alpha".to_string()),
            ("a.txt".to_string(), "a.txt".to_string()),
            ("a.txt".to_string(), "dup".to_string()),
            ("b.txt".to_string(), "b.txt".to_string()),
        ]
    );
}

fn entry(name: Option<&str>, kind: Option<&str>, children: Option<Vec<BrowseEntry>>) -> BrowseEntry {
    BrowseEntry { name: name.map(|s| s.to_string()), kind: kind.map(|s| s.to_string()), children }
}

#[test]
fn browse_tree_in_pre_order() {
    let tree = vec![
        entry(
            Some("docs"),
            Some("FILE_INFO_TYPE_DIRECTORY"),
            Some(vec![
                entry(Some("a.txt"), Some("FILE_INFO_TYPE_FILE"), None),
                entry(Some("sub"), Some("FILE_INFO_TYPE_DIRECTORY"), Some(vec![entry(None, Some("FILE_INFO_TYPE_FILE"), None)])),
            ]),
        ),
        entry(Some("top.bin"), Some("FILE_INFO_TYPE_FILE"), Some(vec![entry(Some("hidden"), None, None)])),
        entry(Some("odd"), None, None),
    ];
    let mut out = vec![item("x", "pre", "pre", true)];
    traverse_browse_tree(&tree, "", "fid", &mut out);
    let got: Vec<(String, String, String, bool)> = out.into_iter().map(|f| (f.id, f.name, f.path, f.is_file)).collect();
    let e = |id: &str, n: &str, p: &str, f: bool| (id.to_string(), n.to_string(), p.to_string(), f);
    assert_eq!(
        got,
        vec![
            e("x", "pre", "pre", true),
            e("fid", "docs", "docs", false),
            e("fid", "a.txt", "docs/a.txt", true),
            e("fid", "sub", "docs/sub", false),
            e("fid", "unknown", "docs/sub/unknown", true),
            e("fid", "top.bin", "top.bin", true),
            e("fid", "odd", "odd", false),
        ]
    );
    let mut below = vec![];
    traverse_browse_tree(&vec![entry(Some("n"), Some("FILE"), None)], "p/q", "g", &mut below);
    assert_eq!(below[0].path, "p/q/n");
}

#[test]
fn virtual_actions() {
    assert_eq!(virtual_action(true, true, true, true), VirtualAction::RemoveMarker);
    assert_eq!(virtual_action(true, true, false, true), VirtualAction::Leave);
    assert_eq!(virtual_action(true, false, false, false), VirtualAction::Leave);
    assert_eq!(virtual_action(false, true, true, true), VirtualAction::Leave);
    assert_eq!(virtual_action(false, false, false, true), VirtualAction::CreateFile);
    assert_eq!(virtual_action(false, false, false, false), VirtualAction::CreateDirectory);
}

#[test]
fn selection_lookup_by_folder_and_path() {
    let list = vec![saved(1, "f", "a"), saved(2, "g", "b")];
    assert!(is_selected(&list, "f", "a"));
    assert!(!is_selected(&list, "g", "a"));
    assert!(!is_selected(&list, "f", "a/"));
}

#[test]
fn access_time_triggers() {
    assert!(should_trigger_sync(Some(100), None));
    assert!(!should_trigger_sync(Some(600), None));
    assert!(should_trigger_sync(Some(900), Some(Some(5))));
    assert!(!should_trigger_sync(Some(900), Some(Some(0))));
    assert!(!should_trigger_sync(Some(900), Some(None)));
    assert!(!should_trigger_sync(Some(1000), Some(Some(5))));
    assert!(!should_trigger_sync(None, None));
}

#[test]
fn polling_ticks_and_retention() {
    assert_eq!(cache_tick(0), (1, false));
    assert_eq!(cache_tick(8), (9, false));
    assert_eq!(cache_tick(9), (0, true));
    assert_eq!(cache_tick(u32::MAX), (0, true));
    assert!(keep_access_record(Some(9)));
    assert!(!keep_access_record(Some(10)));
    assert!(!keep_access_record(None));
}

#[test]
fn separators_and_segments() {
    assert_eq!(normalize_separators("a\\b\\c"), "a/b/c");
    assert_eq!(path_segments("/a//b/c/"), vec!["a", "b", "c"]);
    assert!(path_segments("").is_empty());
    assert!(path_segments("///").is_empty());
}

#[test]
fn access_selects_the_item_and_its_folders() {
    let selected = vec![saved(1, "f", "a")];
    let r = access_selection("a/b/c.txt", true, Some("c.txt".to_string()), "f", &selected);
    let got: Vec<(String, String, String, bool)> = r.into_iter().map(|f| (f.id, f.name, f.path, f.is_file)).collect();
    assert_eq!(
        got,
        vec![
            ("f".to_string(), "b".to_string(), "a/b".to_string(), false),
            ("f".to_string(), "c.txt".to_string(), "a/b/c.txt".to_string(), true),
        ]
    );
    let dir = access_selection("x/y", false, None, "g", &vec![]);
    assert_eq!(dir.len(), 2);
    assert!(!dir[1].is_file);
    let root = access_selection("", true, None, "g", &vec![]);
    assert_eq!(root.len(), 1);
    assert_eq!((root[0].name.as_str(), root[0].path.as_str(), root[0].is_file), ("unknown", "", true));
    let known = access_selection("", false, Some("n".to_string()), "g", &vec![saved(4, "g", "")]);
    assert!(known.is_empty());
}

#[test]
fn client_home_page_placeholders() {
    let page = "<b><LogInStatus/></b><Folders/><Folders/>";
    assert_eq!(render_home(page, login_status_label(ServerReply::Answered(200)), "F"), "<b>Logged In</b>FF");
    assert_eq!(render_home("x", "y", "z"), "x");
}

#[test]
fn below_a_child_is_below_the_parent() {
    assert!(is_child_path("a", "a/b"));
    assert!(is_child_path("a/b", "a/b/c"));
    assert!(is_child_path("a", "a/b/c"));
    assert!(!is_child_path("a/b/c", "a/b/c"));
}

#[test]
fn consolidation_follows_chains_to_the_top() {
    let mut v = vec![saved(1, "f", "a"), saved(2, "f", "a/b"), saved(3, "f", "a/b/c"), saved(4, "f", "ab")];
    consolidate_paths(&mut v);
    assert_eq!(paths(&v), vec!["a", "ab"]);
    assert_eq!(v[0].id, 1);
    assert_eq!(v[1].id, 4);
    let mut w = vec![saved(1, "f", "x/y/z"), saved(2, "f", "x/y"), saved(3, "f", "x")];
    consolidate_paths(&mut w);
    assert_eq!(paths(&w), vec!["x"]);
    assert_eq!(w[0].id, 1);
}

#[test]
fn sync_file_never_stays_syncing() {
    let all = [
        SyncOutcome::NoFolders,
        SyncOutcome::NoFolder,
        SyncOutcome::NoHome,
        SyncOutcome::AlreadyPresent,
        SyncOutcome::DirectoryFailed,
        SyncOutcome::Created,
        SyncOutcome::CreateFailed,
    ];
    for o in all {
        let (status, answer, _) = sync_file_result(o);
        assert_ne!(status, SyncStatus::Syncing);
        assert_eq!(status == SyncStatus::Synced, answer == Status::Success);
    }
    assert_eq!(sync_file_result(SyncOutcome::Created), (SyncStatus::Synced, Status::Success, "File synced successfully"));
    assert_eq!(sync_file_result(SyncOutcome::AlreadyPresent).2, "File already synced");
    assert_eq!(sync_file_result(SyncOutcome::NoFolder), (SyncStatus::InCloud, Status::NotFound, "Folder not found"));
    assert_eq!(sync_file_result(SyncOutcome::CreateFailed).1.code(), 500);
}

#[test]
fn freeing_space_puts_the_item_back_in_the_cloud() {
    assert_eq!(free_space_result(FreeOutcome::Removed), (Some(SyncStatus::InCloud), Status::Success, "Space freed successfully"));
    assert_eq!(free_space_result(FreeOutcome::RemoveFailed), (None, Status::InternalServerError, "Failed to free up space"));
    assert_eq!(free_space_result(FreeOutcome::NoFolder), (None, Status::NotFound, "Folder not found"));
    assert_eq!(free_space_result(FreeOutcome::NoFolders).1.code(), 500);
    assert_eq!(free_space_result(FreeOutcome::NoHome).2, "Failed to get home directory");
}

#[test]
fn file_status_reports() {
    let none = file_status_report(None, true);
    assert_eq!((none.exists, none.in_sync_list, none.status, none.is_file), (false, false, "not_in_list", None));
    let listed = file_status_report(Some((SyncStatus::Synced, true)), true);
    assert_eq!((listed.exists, listed.in_sync_list, listed.status, listed.is_file), (true, true, "synced", Some(true)));
    let gone = file_status_report(Some((SyncStatus::InCloud, false)), false);
    assert_eq!((gone.exists, gone.status, gone.is_file), (false, "in_cloud", Some(false)));
}

#[test]
fn unparented_selection_survives() {
    let mut v = vec![saved(1, "f", "docs/x"), saved(2, "f", "pics"), saved(3, "f", "docs")];
    consolidate_paths(&mut v);
    assert!(paths(&v).contains(&"pics".to_string()));
    assert!(paths(&v).contains(&"docs".to_string()));
    let mut w = vec![saved(1, "f", "a/"), saved(2, "f", "a/b"), saved(3, "f", "")];
    consolidate_paths(&mut w);
    assert_eq!(paths(&w), vec![""]);
}
