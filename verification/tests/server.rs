use syncthing_select_sync::common::{expand_home_path, outcome_status, Status};
use syncthing_select_sync::server::api::{
    access_refusal, check_status, create_html, create_html_folders, create_html_users,
    default_admin_user, find_folder, get_users, granted, listed_item, locate_folder, login, logout,
    new_account, new_password_record, render_home, site_setting_updates, Config, FolderLookup,
};
use syncthing_select_sync::server::create_user::{generate_salt, sha256_hash, SALT_LEN};
use syncthing_select_sync::server::db::{default_site_settings, setting};
use syncthing_select_sync::server::file_indexer::{
    index_due_at, index_record, parse_schedule_days, relative_path, should_index_now, within_schedule, ClockReading,
    TimeOfDay,
};
use syncthing_select_sync::server::guest::{GuestData, ADMIN};
use syncthing_select_sync::server::structs::{Folder, FolderId, FolderSearch, User, UserUpdate};
use syncthing_select_sync::server::syncthing_config::{
    config_candidates, join_path, ApiKeyAction, Platform, SyncthingConfig,
};
use syncthing_select_sync::server::structs::SiteSetting;

fn guest(name: &str, logged_in: bool, role: u8) -> GuestData {
    GuestData { id: 7, username: name.to_string(), logged_in, role }
}

fn folder(id: &str, label: &str, path: &str) -> Folder {
    Folder { id: id.to_string(), label: label.to_string(), filesystemType: "basic".to_string(), path: path.to_string() }
}

fn user(id: i32, name: &str, password: &str, salt: &str, role: u8, folders: &[&str]) -> User {
    User {
        id,
        username: name.to_string(),
        password: password.to_string(),
        salt: salt.to_string(),
        role,
        allowed_folders: folders.iter().map(|f| FolderId { folder: f.to_string() }).collect(),
    }
}

fn is_salt(s: &str) -> bool {
    s.chars().count() == SALT_LEN && s.chars().all(|c| c.is_ascii_alphanumeric())
}

#[test]
fn status_codes_are_the_http_ones() {
    assert_eq!(Status::Success.code(), 200);
    assert_eq!(Status::Accepted.code(), 202);
    assert_eq!(Status::Forbidden.code(), 403);
    assert_eq!(Status::NotFound.code(), 404);
    assert_eq!(Status::ImATeapot.code(), 418);
    assert_eq!(Status::InternalServerError.code(), 500);
    assert_eq!(Status::ServiceUnavailable.code(), 503);
    assert_eq!(Status::UnavailableForLegalReasons.code(), 451);
}

#[test]
fn outcome_status_maps_success() {
    assert_eq!(outcome_status(true), Status::Success);
    assert_eq!(outcome_status(false), Status::InternalServerError);
}

#[test]
fn sha256_hash_is_base64_of_sha256_of_salt_then_password() {
    assert_eq!(
        sha256_hash("secret".to_string(), "abcdefgh12345678".to_string()),
        "EF3lajWN12u6TADOjnz4sqcvktPk+G8jVirbubK3tHE="
    );
    assert_eq!(
        sha256_hash("ADMIN".to_string(), "0000000000000000".to_string()),
        "QB8dsz8DQgeuVYlSEnthmu46KqxjFtHtYkUNV6zyj3w="
    );
    assert_eq!(sha256_hash(String::new(), String::new()), "47DEQpj8HBSa+/TImW+5JCeuQeRkm5NMpJWZG3hSuFU=");
}

#[test]
fn salts_are_sixteen_letters_or_digits_and_vary() {
    let a = generate_salt();
    let b = generate_salt();
    assert!(is_salt(&a));
    assert!(is_salt(&b));
    assert_ne!(a, b);
}

#[test]
fn default_guest_is_logged_out_with_a_version_four_id() {
    let g = GuestData::default();
    assert!(!g.logged_in);
    assert_eq!(g.username, "");
    assert_eq!(g.role, 0);
    assert_eq!((g.id >> 76) & 0xf, 4);
    assert_eq!((g.id >> 62) & 0x3, 2);
    assert_ne!(GuestData::default().id, g.id);
}

#[test]
fn check_status_follows_login_state() {
    assert_eq!(check_status(&guest("a", true, 0)), Status::Success);
    assert_eq!(check_status(&guest("a", false, 0)), Status::ImATeapot);
}

#[test]
fn refusals_for_guarded_endpoints() {
    assert_eq!(access_refusal(&guest("a", false, ADMIN), true), Some(Status::ImATeapot));
    assert_eq!(access_refusal(&guest("a", false, 0), false), Some(Status::ImATeapot));
    assert_eq!(access_refusal(&guest("a", true, 3), true), Some(Status::Forbidden));
    assert_eq!(access_refusal(&guest("a", true, 3), false), None);
    assert_eq!(access_refusal(&guest("a", true, ADMIN), true), None);
}

#[test]
fn login_unknown_user_is_teapot() {
    let g = guest("", false, 0);
    let (s, after) = login(g, None, "pw".to_string());
    assert_eq!(s, Status::ImATeapot);
    assert!(!after.logged_in);
    assert_eq!(after.username, "");
}

#[test]
fn login_with_right_password_logs_in() {
    let salt = "abcdefgh12345678";
    let stored = sha256_hash("secret".to_string(), salt.to_string());
    let u = user(3, "bob", &stored, salt, 9, &[]);
    let (s, after) = login(guest("", false, 0), Some(u), "secret".to_string());
    assert_eq!(s, Status::Success);
    assert!(after.logged_in);
    assert_eq!(after.username, "bob");
    assert_eq!(after.role, 9);
    assert_eq!(after.id, 7);
}

#[test]
fn login_with_wrong_password_is_teapot() {
    let salt = "abcdefgh12345678";
    let stored = sha256_hash("secret".to_string(), salt.to_string());
    let u = user(3, "bob", &stored, salt, 9, &[]);
    let (s, after) = login(guest("", false, 0), Some(u), "Secret".to_string());
    assert_eq!(s, Status::ImATeapot);
    assert!(!after.logged_in);
    assert_eq!(after.username, "");
}

#[test]
fn default_admin_logs_in_with_admin() {
    let admin = default_admin_user();
    assert_eq!(admin.username, "ADMIN");
    assert_eq!(admin.role, ADMIN);
    assert!(admin.allowed_folders.is_empty());
    assert!(is_salt(&admin.salt));
    let (s, after) = login(GuestData::default(), Some(admin.clone()), "ADMIN".to_string());
    assert_eq!(s, Status::Success);
    assert_eq!(after.role, ADMIN);
    let (s2, _) = login(GuestData::default(), Some(admin), "admin".to_string());
    assert_eq!(s2, Status::ImATeapot);
}

#[test]
fn logout_then_status_is_teapot() {
    let (s, after) = logout(guest("bob", true, ADMIN));
    assert_eq!(s, Status::Accepted);
    assert!(!after.logged_in);
    assert_eq!(after.username, "");
    assert_eq!(after.id, 7);
    assert_eq!(check_status(&after), Status::ImATeapot);
    assert_eq!(access_refusal(&after, false), Some(Status::ImATeapot));
}

#[test]
fn new_password_record_logs_in_with_the_new_password() {
    let r = new_password_record("n3w".to_string());
    assert!(is_salt(&r.salt));
    assert_eq!(r.password, sha256_hash("n3w".to_string(), r.salt.clone()));
    let u = user(1, "bob", &r.password, &r.salt, 0, &[]);
    assert_eq!(login(guest("", false, 0), Some(u), "n3w".to_string()).0, Status::Success);
}

#[test]
fn new_account_hashes_the_password() {
    let payload = UserUpdate {
        id: 99,
        username: "carol".to_string(),
        password: "pw".to_string(),
        salt: "ignored".to_string(),
        role: 5,
        allowed_folders: "[{\"folder\":\"f1\"}]".to_string(),
    };
    let u = new_account(payload, vec![FolderId { folder: "f1".to_string() }]);
    assert_eq!(u.id, 0);
    assert_eq!(u.username, "carol");
    assert_eq!(u.role, 5);
    assert_eq!(u.allowed_folders.len(), 1);
    assert_eq!(u.allowed_folders[0].folder, "f1");
    assert!(is_salt(&u.salt));
    assert_eq!(u.password, sha256_hash("pw".to_string(), u.salt.clone()));
}

#[test]
fn update_user_without_account_stores_nothing() {
    let updated = user(0, "ghost", "x", "", 1, &[]);
    assert!(User::update_user(None, updated, &guest("admin", true, ADMIN)).is_none());
}

#[test]
fn update_user_by_other_non_admin_stores_nothing() {
    let before = user(4, "bob", "HASH", "abcdefgh12345678", 1, &["a"]);
    let updated = user(0, "bob", "new", "", 9, &["b"]);
    assert!(User::update_user(Some(before), updated, &guest("eve", true, 1)).is_none());
}

#[test]
fn update_user_by_owner_changes_only_the_password() {
    let before = user(4, "bob", "HASH", "abcdefgh12345678", 1, &["a"]);
    let updated = user(0, "bob", "new", "zzz", 255, &["b", "c"]);
    let after = User::update_user(Some(before), updated, &guest("bob", true, 1)).unwrap();
    assert_eq!(after.id, 4);
    assert_eq!(after.username, "bob");
    assert_eq!(after.role, 1);
    assert_eq!(after.allowed_folders.len(), 1);
    assert_eq!(after.allowed_folders[0].folder, "a");
    assert!(is_salt(&after.salt));
    assert_eq!(after.password, sha256_hash("new".to_string(), after.salt.clone()));
    assert_eq!(login(guest("", false, 0), Some(after), "new".to_string()).0, Status::Success);
}

#[test]
fn update_user_by_admin_keeps_a_repeated_hash() {
    let before = user(4, "bob", "HASH", "abcdefgh12345678", 1, &["a"]);
    let updated = user(0, "bob", "HASH", "zzz", 7, &["b", "c"]);
    let after = User::update_user(Some(before), updated, &guest("root", true, ADMIN)).unwrap();
    assert_eq!(after.id, 4);
    assert_eq!(after.password, "HASH");
    assert_eq!(after.salt, "abcdefgh12345678");
    assert_eq!(after.role, 7);
    assert_eq!(after.allowed_folders.len(), 2);
    assert_eq!(after.allowed_folders[1].folder, "c");
}

#[test]
fn server_site_setting_updates_skip_empty_values() {
    let u = site_setting_updates("tok", "", "0.0.0.0:9000");
    let pairs: Vec<(String, String)> = u.into_iter().map(|s| (s.key, s.value)).collect();
    assert_eq!(
        pairs,
        vec![("api-key".to_string(), "tok".to_string()), ("ssss-url".to_string(), "0.0.0.0:9000".to_string())]
    );
    assert!(site_setting_updates("", "", "").is_empty());
}

#[test]
fn server_default_site_settings() {
    let s = default_site_settings();
    let pairs: Vec<(String, String, i32)> = s.into_iter().map(|s| (s.key, s.value, s.id)).collect();
    assert_eq!(
        pairs,
        vec![
            ("api-key".to_string(), "NULL".to_string(), 0),
            ("st-url".to_string(), "127.0.0.1:8384".to_string(), 0),
            ("ssss-url".to_string(), "0.0.0.0:8383".to_string(), 0),
        ]
    );
    let one = setting("k", "v");
    assert_eq!((one.id, one.key.as_str(), one.value.as_str()), (0, "k", "v"));
}

#[test]
fn server_find_folder_takes_the_first_match() {
    let fs = vec![folder("a", "A", "/x"), folder("b", "B", "/y"), folder("b", "B2", "/z")];
    assert_eq!(find_folder(&fs, "b"), Some(1));
    assert_eq!(find_folder(&fs, "c"), None);
}

#[test]
fn locate_folder_answers() {
    let search = FolderSearch { id: "b".to_string(), path: "docs/x".to_string() };
    let fs = vec![folder("a", "A", "/x"), folder("b", "B", "~/Sync")];
    let acct = Some(user(1, "u", "h", "s", 0, &["b", "zz"]));
    match locate_folder(&guest("u", false, 0), &acct, Some(fs.clone()), &search, "/home/u") {
        FolderLookup::Refused(s) => assert_eq!(s, Status::ImATeapot),
        other => panic!("unexpected {:?}", other),
    }
    match locate_folder(&guest("u", true, 0), &acct, None, &search, "/home/u") {
        FolderLookup::Refused(s) => assert_eq!(s, Status::ServiceUnavailable),
        other => panic!("unexpected {:?}", other),
    }
    let missing = FolderSearch { id: "zz".to_string(), path: String::new() };
    match locate_folder(&guest("u", true, 0), &acct, Some(fs.clone()), &missing, "/home/u") {
        FolderLookup::Refused(s) => assert_eq!(s, Status::UnavailableForLegalReasons),
        other => panic!("unexpected {:?}", other),
    }
    match locate_folder(&guest("u", true, 0), &acct, Some(fs.clone()), &search, "/home/u") {
        FolderLookup::Found { root, dir } => {
            assert_eq!(root, "/home/u/Sync/");
            assert_eq!(dir, "/home/u/Sync/docs/x");
        }
        other => panic!("unexpected {:?}", other),
    }
}

#[test]
fn listed_item_cuts_the_root() {
    let f = listed_item("f1", "/home/u/Sync/docs/a.txt", Some("a.txt".to_string()), true, "/home/u/Sync/");
    assert_eq!(f.id, "f1");
    assert_eq!(f.path, "docs/a.txt");
    assert_eq!(f.name, "a.txt");
    assert!(f.is_file);
    let g = listed_item("f1", "/r/", None, false, "/r/");
    assert_eq!(g.name, "Unknown");
    assert_eq!(g.path, "");
}

#[test]
fn render_home_fills_the_placeholders() {
    let page = "<h1/><Folders/>|<Users/>|<UsersData/>|<Folders/>";
    assert_eq!(render_home(page, "F", "U", "[]"), "<h1/>F|U|[]|F");
}

#[test]
fn server_create_html_appends_a_card() {
    let r = create_html("X".to_string(), "L".to_string(), "I".to_string(), "P".to_string(), "S".to_string());
    assert_eq!(
        r,
        "X<div class=\"folder-item\"><div class=\"folder-name\">L</div><div class=\"folder-detail\">ID: I</div><div class=\"folder-detail\">Path: P</div><div class=\"folder-detail\">File System: S</div></div>"
    );
}

fn card(f: &Folder) -> String {
    create_html(String::new(), f.label.clone(), f.id.clone(), f.path.clone(), f.filesystemType.clone())
}

#[test]
fn folders_shown_to_admin_and_to_users() {
    let fs = vec![folder("a", "A", "/a"), folder("b", "B", "/b"), folder("c", "C", "/c")];
    let u = user(1, "bob", "h", "s", 0, &["c", "a", "zz"]);
    let all = create_html_folders(&guest("root", true, ADMIN), Some(u.clone()), &fs);
    assert_eq!(all, format!("{}{}{}", card(&fs[0]), card(&fs[1]), card(&fs[2])));
    let mine = create_html_folders(&guest("bob", true, 0), Some(u), &fs);
    assert_eq!(mine, format!("{}{}", card(&fs[2]), card(&fs[0])));
    assert_eq!(create_html_folders(&guest("bob", true, ADMIN), None, &fs), "");
}

#[test]
fn get_users_for_admin_and_for_a_user() {
    let users = vec![user(1, "a", "", "", 0, &[]), user(2, "b", "", "", 0, &[]), user(3, "b", "", "", 0, &[])];
    assert_eq!(get_users(&guest("x", true, ADMIN), users.clone()).unwrap().len(), 3);
    let mine = get_users(&guest("b", true, 0), users.clone()).unwrap();
    assert_eq!(mine.len(), 1);
    assert_eq!(mine[0].id, 2);
    assert!(get_users(&guest("z", true, 0), users).is_none());
}

#[test]
fn users_table_rows() {
    let users = vec![user(-3, "bob", "", "", 255, &["a", "b"])];
    let r = create_html_users(Some(users));
    assert_eq!(
        r,
        "<tr data-id=\"user--3\">\n                        <td>bob</td>\n                        <td>********</td>\n                        <td>255</td>\n                        <td>2</td>\n                    </tr>"
    );
    assert_eq!(create_html_users(None), "");
    assert_eq!(create_html_users(Some(vec![])), "");
}

#[test]
fn config_new_is_empty() {
    let c = Config::new();
    assert_eq!(c.folder, "");
    assert_eq!(c.path, "");
}

#[test]
fn expand_home_replaces_every_tilde() {
    assert_eq!(expand_home_path("~/Sync/~x", "/home/u"), "/home/u/Sync//home/ux");
    assert_eq!(expand_home_path("/abs", "/home/u"), "/abs");
}

#[test]
fn relative_paths_of_indexed_files() {
    assert_eq!(relative_path("/base/dir/file", "/base"), "dir/file");
    assert_eq!(relative_path("/base", "/base"), "");
    assert_eq!(relative_path("//x", "/nothing"), "x");
}

#[test]
fn index_record_fields() {
    let r = index_record("f", "/b/d/e.txt", Some("/b/d".to_string()), Some("e.txt".to_string()), true, 42, "/b");
    assert_eq!(r.id, 0);
    assert_eq!(r.folder_id, "f");
    assert_eq!(r.path, "d/e.txt");
    assert_eq!(r.parent_path, "d");
    assert_eq!(r.name, "e.txt");
    assert!(r.is_file);
    assert_eq!(r.last_modified, 42);
    let q = index_record("f", "/b/x", None, None, false, -1, "/b");
    assert_eq!(q.parent_path, "");
    assert_eq!(q.name, "Unknown");
}

#[test]
fn schedule_days_keep_the_numbers() {
    assert_eq!(parse_schedule_days("0,1,2,3,4,5,6"), vec![0, 1, 2, 3, 4, 5, 6]);
    assert_eq!(parse_schedule_days(" 1 , x,3,,+4, -2"), vec![1, 3, 4]);
    assert_eq!(parse_schedule_days(""), Vec::<u32>::new());
    assert_eq!(parse_schedule_days("4294967296,7"), vec![7]);
}

#[test]
fn schedule_window_is_under_a_minute() {
    let days = vec![1, 3];
    assert!(within_schedule(&days, 3, 59));
    assert!(within_schedule(&days, 1, -59));
    assert!(!within_schedule(&days, 1, 60));
    assert!(!within_schedule(&days, 1, -60));
    assert!(!within_schedule(&days, 2, 0));
    assert!(!within_schedule(&vec![], 2, 0));
}

#[test]
fn schedule_never_due_with_bad_settings() {
    assert!(!should_index_now(Some("25:99".to_string()), None));
    assert!(!should_index_now(Some("noon".to_string()), Some("1".to_string())));
    assert!(!should_index_now(None, Some("x,y".to_string())));
    assert!(!should_index_now(None, Some(String::new())));
}

#[test]
fn api_key_in_element_or_attribute() {
    let xml = "<configuration><gui><apikey> k3y-ABC </apikey></gui></configuration>";
    assert_eq!(SyncthingConfig::parse_api_key(xml), Some("k3y-ABC".to_string()));
    let attr = "<gui apikey=\"XyZ\" tls=\"false\">";
    assert_eq!(SyncthingConfig::parse_api_key(attr), Some("XyZ".to_string()));
    let empty_element = "<apikey>   </apikey><x apikey=\"second\"/>";
    assert_eq!(SyncthingConfig::parse_api_key(empty_element), Some("second".to_string()));
    assert_eq!(SyncthingConfig::parse_api_key("<apikey>open"), None);
    assert_eq!(SyncthingConfig::parse_api_key("nothing here"), None);
    assert_eq!(SyncthingConfig::parse_api_key("<apikey>a</apikey><apikey>b</apikey>"), Some("a".to_string()));
}

#[test]
fn config_path_is_the_one_given() {
    let c = SyncthingConfig::new(Some("/etc/syncthing/config.xml".to_string()));
    assert_eq!(c.config_path(), Some("/etc/syncthing/config.xml"));
    assert_eq!(SyncthingConfig::new(None).config_path(), None);
}

#[test]
fn first_present_candidate_is_found() {
    let cands = vec!["a".to_string(), "b".to_string(), "c".to_string()];
    assert_eq!(SyncthingConfig::find_config_file(&cands, &vec![false, true, true]), Some("b".to_string()));
    assert_eq!(SyncthingConfig::find_config_file(&cands, &vec![false, false, false]), None);
}

#[test]
fn candidate_locations_per_platform() {
    assert_eq!(
        config_candidates(Platform::Linux, Some("/home/u".to_string()), None, None),
        vec!["/home/u/.config/syncthing/config.xml", "/var/syncthing/config.xml", "/etc/syncthing/config.xml"]
    );
    assert_eq!(
        config_candidates(Platform::Linux, None, None, None),
        vec!["/var/syncthing/config.xml", "/etc/syncthing/config.xml"]
    );
    assert_eq!(
        config_candidates(Platform::Windows, None, Some("C:\\L".to_string()), Some("C:\\R\\".to_string())),
        vec![
            "C:\\L\\Syncthing\\config.xml",
            "C:\\R\\Syncthing\\config.xml",
            "C:\\ProgramData\\Syncthing\\config.xml",
            "C:\\Syncthing\\config.xml"
        ]
    );
    assert_eq!(
        config_candidates(Platform::MacOs, Some("/Users/u".to_string()), None, None),
        vec!["/Users/u/Library/Application Support/Syncthing/config.xml"]
    );
    assert!(config_candidates(Platform::Other, Some("/h".to_string()), None, None).is_empty());
}

#[test]
fn join_path_puts_one_separator() {
    assert_eq!(join_path(Platform::Linux, "/a", "b"), "/a/b");
    assert_eq!(join_path(Platform::Linux, "/a/", "b"), "/a/b");
    assert_eq!(join_path(Platform::Linux, "", "b"), "b");
    assert_eq!(join_path(Platform::Windows, "C:\\a", "b"), "C:\\a\\b");
    assert_eq!(join_path(Platform::Windows, "C:/a/", "b"), "C:/a/b");
}

fn setting_row(v: &str) -> SiteSetting {
    SiteSetting { id: 1, key: "api-key".to_string(), value: v.to_string() }
}

#[test]
fn auto_configure_decisions() {
    let c = SyncthingConfig::new(Some("/x".to_string()));
    let none = c.auto_configure_api_key(None, Some(setting_row("NULL")));
    assert!(matches!(none, ApiKeyAction::NoKey));
    assert!(!none.succeeded());
    let kept = c.auto_configure_api_key(Some("k".to_string()), Some(setting_row("old")));
    assert!(matches!(kept, ApiKeyAction::AlreadyConfigured));
    assert!(kept.succeeded());
    match c.auto_configure_api_key(Some("k".to_string()), Some(setting_row("NULL"))) {
        ApiKeyAction::Store(k) => assert_eq!(k, "k"),
        other => panic!("unexpected {:?}", other),
    }
    match c.auto_configure_api_key(Some("k2".to_string()), Some(setting_row(""))) {
        ApiKeyAction::Store(k) => assert_eq!(k, "k2"),
        other => panic!("unexpected {:?}", other),
    }
    let stored = c.auto_configure_api_key(Some("k3".to_string()), None);
    assert!(stored.succeeded());
    assert!(matches!(stored, ApiKeyAction::Store(_)));
}

fn reading(weekday: u32, h: u32, m: u32, sec: u32) -> ClockReading {
    ClockReading {
        time: TimeOfDay { seconds_from_midnight: h * 3600 + m * 60 + sec, nanosecond: 0 },
        weekday_from_sunday: weekday,
    }
}

#[test]
fn schedule_due_at_a_clock_reading() {
    assert!(index_due_at("10:00", "1,3", reading(3, 10, 0, 30)));
    assert!(index_due_at("10:00", "1,3", reading(1, 9, 59, 1)));
    assert!(!index_due_at("10:00", "1,3", reading(2, 10, 0, 30)));
    assert!(!index_due_at("10:00", "1,3", reading(3, 10, 1, 0)));
    assert!(!index_due_at("10:00", "1,3", reading(3, 9, 59, 0)));
    assert!(index_due_at("00:00", "0,1,2,3,4,5,6", reading(0, 0, 0, 59)));
    assert!(!index_due_at("25:00", "1", reading(1, 1, 0, 0)));
    assert!(!index_due_at("10:00", "x", reading(1, 10, 0, 0)));
}

#[test]
fn users_reach_only_granted_folders() {
    let fs = vec![folder("a", "A", "/x"), folder("b", "B", "/y")];
    let acct = Some(user(1, "u", "h", "s", 0, &["b"]));
    let other = FolderSearch { id: "a".to_string(), path: String::new() };
    match locate_folder(&guest("u", true, 0), &acct, Some(fs.clone()), &other, "/h") {
        FolderLookup::Refused(s) => assert_eq!(s, Status::UnavailableForLegalReasons),
        found => panic!("unexpected {:?}", found),
    }
    match locate_folder(&guest("u", true, 0), &None, Some(fs.clone()), &other, "/h") {
        FolderLookup::Refused(s) => assert_eq!(s, Status::UnavailableForLegalReasons),
        found => panic!("unexpected {:?}", found),
    }
    match locate_folder(&guest("root", true, ADMIN), &None, Some(fs), &other, "/h") {
        FolderLookup::Found { root, .. } => assert_eq!(root, "/x/"),
        refused => panic!("unexpected {:?}", refused),
    }
    assert!(granted(&guest("u", true, 0), &acct, "b"));
    assert!(!granted(&guest("u", true, 0), &acct, "a"));
    assert!(granted(&guest("x", true, ADMIN), &None, "a"));
}

#[test]
fn stored_hashes_are_forty_four_base64_characters() {
    for (p, salt) in [("", ""), ("secret", "abcdefgh12345678"), ("ünï", "s")] {
        let h = sha256_hash(p.to_string(), salt.to_string());
        assert_eq!(h.chars().count(), 44);
        assert!(h.ends_with('='));
        assert!(h.chars().all(|c| c.is_ascii_alphanumeric() || c == '+' || c == '/' || c == '='));
    }
    assert_eq!(
        sha256_hash("cret".to_string(), "se".to_string()),
        sha256_hash("secret".to_string(), String::new())
    );
}

#[test]
fn whole_seconds_round_toward_zero() {
    let half_past = ClockReading {
        time: TimeOfDay { seconds_from_midnight: 9 * 3600 + 59 * 60, nanosecond: 500_000_000 },
        weekday_from_sunday: 1,
    };
    assert!(index_due_at("10:00", "1", half_past));
    let just_before = ClockReading {
        time: TimeOfDay { seconds_from_midnight: 9 * 3600 + 58 * 60 + 59, nanosecond: 999_999_999 },
        weekday_from_sunday: 1,
    };
    assert!(!index_due_at("10:00", "1", just_before));
}
