//! The decisions behind the client's HTTP endpoints.
use vstd::prelude::*;
use crate::text::{is_child_of, same_text, contains_seq, occurs_at, replace_all, replace_str};
use crate::common::{SettingUpdate, update_pair, set_if, push_if_set, expand_home, expand_home_path};
use crate::client::structs::{FolderFile, FolderFileSaved, Folder, SyncStatus, status_text};
use crate::common::Status;
use crate::client::paths::is_child_path;

verus! {

/// What came of asking the server's `/check-status`.
#[derive(Debug, Clone, Copy, PartialEq, Eq, Structural)]
pub enum ServerReply {
    /// No server is set up yet (no settings or no URL): nothing was asked.
    NotAsked,
    /// The request failed: the server could not be reached.
    Unreachable,
    /// The server answered with this status code.
    Answered(u16),
}

/// The login state shown on the home page: `(Not Logged In)` before any
/// server is set up, `Logged In` for 200, `Not Logged In` for 418, and
/// `Server Error` when the server cannot be reached or answers otherwise.
pub open spec fn login_label(reply: ServerReply) -> Seq<char> {
    match reply {
        ServerReply::NotAsked => "(Not Logged In)"@,
        ServerReply::Unreachable => "Server Error"@,
        ServerReply::Answered(200) => "Logged In"@,
        ServerReply::Answered(418) => "Not Logged In"@,
        ServerReply::Answered(_) => "Server Error"@,
    }
}

/// See `login_label`.
pub fn login_status_label(reply: ServerReply) -> (r: &'static str)
    ensures
        r@ == login_label(reply),
{
    match reply {
        ServerReply::NotAsked => "(Not Logged In)",
        ServerReply::Unreachable => "Server Error",
        ServerReply::Answered(200) => "Logged In",
        ServerReply::Answered(418) => "Not Logged In",
        ServerReply::Answered(_) => "Server Error",
    }
}

/// The home page: the template with its `<LogInStatus/>` placeholder
/// replaced by the login state, then its `<Folders/>` placeholder by the
/// folder cards.
pub fn render_home(page: &str, login_state: &str, folders: &str) -> (r: String)
    ensures
        r@ == replace_all(replace_all(page@, "<LogInStatus/>"@, login_state@), "<Folders/>"@, folders@),
{
    let a = replace_str(page, "<LogInStatus/>", login_state);
    replace_str(a.as_str(), "<Folders/>", folders)
}

/// `/update-site-settings`: the settings to overwrite, in this order:
/// `api-key`, `ssss-url`, `ssss-user`, `ssss-pass`, `st-url`, each only when
/// its new value is not empty.
pub fn site_setting_updates(api_token: &str, ssss_url: &str, ssss_user: &str, ssss_pass: &str, st_url: &str) -> (r: Vec<SettingUpdate>)
    ensures
        r@.map_values(|u: SettingUpdate| update_pair(u)) == set_if("api-key"@, api_token@) + set_if(
            "ssss-url"@,
            ssss_url@,
        ) + set_if("ssss-user"@, ssss_user@) + set_if("ssss-pass"@, ssss_pass@) + set_if(
            "st-url"@,
            st_url@,
        ),
{
    let mut updates: Vec<SettingUpdate> = Vec::new();
    assert(updates@.map_values(|u: SettingUpdate| update_pair(u)) =~= Seq::empty());
    push_if_set(&mut updates, "api-key", api_token);
    assert(Seq::<(Seq<char>, Seq<char>)>::empty() + set_if("api-key"@, api_token@) =~= set_if("api-key"@, api_token@));
    push_if_set(&mut updates, "ssss-url", ssss_url);
    push_if_set(&mut updates, "ssss-user", ssss_user);
    push_if_set(&mut updates, "ssss-pass", ssss_pass);
    push_if_set(&mut updates, "st-url", st_url);
    updates
}

/// What `/add-selected-item` does with a new selection.
#[derive(Debug, Clone, Copy, PartialEq, Eq, Structural)]
pub enum AddPlan {
    /// It lies below an item already selected in the same folder: nothing
    /// is stored.
    Ignore,
    /// It lies above the stored item with this id: that item takes its path.
    UpdateParent(i32),
    /// A new item is stored.
    Create,
}

/// A stored item of the same folder lies above `p`.
pub open spec fn covered(saved: Seq<FolderFileSaved>, root: Seq<char>, p: Seq<char>) -> bool {
    exists|i: int| 0 <= i < saved.len() && (#[trigger] saved[i]).root@ == root && is_child_of(saved[i].path@, p)
}

/// The last stored item of the same folder that lies below `p`.
pub open spec fn last_child(saved: Seq<FolderFileSaved>, root: Seq<char>, p: Seq<char>, n: int) -> Option<int>
    decreases n,
{
    if n <= 0 {
        None
    } else if saved[n - 1].root@ == root && is_child_of(p, saved[n - 1].path@) {
        Some(n - 1)
    } else {
        last_child(saved, root, p, n - 1)
    }
}

/// The plan for adding `payload` (whose `id` is its folder) to `saved`:
/// ignore it when a stored item of its folder lies above it; otherwise
/// move the last stored item of its folder that lies below it up to its
/// path; otherwise store it.
pub open spec fn add_plan(saved: Seq<FolderFileSaved>, payload: FolderFile) -> AddPlan {
    if covered(saved, payload.id@, payload.path@) {
        AddPlan::Ignore
    } else {
        match last_child(saved, payload.id@, payload.path@, saved.len() as int) {
            Some(j) => AddPlan::UpdateParent(saved[j].id),
            None => AddPlan::Create,
        }
    }
}

/// See `add_plan`.
pub fn plan_add_selected(saved: &Vec<FolderFileSaved>, payload: &FolderFile) -> (r: AddPlan)
    ensures
        r == add_plan(saved@, *payload),
{
    let mut parent: Option<usize> = None;
    let mut i: usize = 0;
    while i < saved.len()
        invariant
            i <= saved@.len(),
            forall|j: int| 0 <= j < i ==> !((#[trigger] saved@[j]).root@ == payload.id@ && is_child_of(saved@[j].path@, payload.path@)),
            match parent {
                Some(x) => last_child(saved@, payload.id@, payload.path@, i as int) == Some(x as int) && x < i,
                None => last_child(saved@, payload.id@, payload.path@, i as int) is None,
            },
        decreases saved.len() - i,
    {
        let file = &saved[i];
        if same_text(file.root.as_str(), payload.id.as_str()) {
            if is_child_path(file.path.as_str(), payload.path.as_str()) {
                proof {
                    assert(saved@[i as int].root@ == payload.id@ && is_child_of(saved@[i as int].path@, payload.path@));
                }
                return AddPlan::Ignore;
            } else if is_child_path(payload.path.as_str(), file.path.as_str()) {
                parent = Some(i);
            }
        }
        i = i + 1;
    }
    match parent {
        Some(x) => AddPlan::UpdateParent(saved[x].id),
        None => AddPlan::Create,
    }
}

/// The folder and path of each item of the selection once `plan` is
/// carried out for `payload`: nothing changes when it is ignored; the item
/// with id `pid` takes the new path for `UpdateParent(pid)`; a new item is
/// appended for `Create`.
pub open spec fn placements_after(saved: Seq<FolderFileSaved>, payload: FolderFile, plan: AddPlan) -> Seq<(Seq<char>, Seq<char>)> {
    let kept = saved.map_values(|f: FolderFileSaved| (f.root@, f.path@));
    match plan {
        AddPlan::Ignore => kept,
        AddPlan::UpdateParent(pid) => saved.map_values(
            |f: FolderFileSaved|
                if f.id == pid {
                    (f.root@, payload.path@)
                } else {
                    (f.root@, f.path@)
                },
        ),
        AddPlan::Create => kept.push((payload.id@, payload.path@)),
    }
}

/// Once `/add-selected-item` has carried out its plan, the selection of the
/// new item's folder holds the item itself or an item above it.
pub proof fn lemma_added_item_is_selected(saved: Seq<FolderFileSaved>, payload: FolderFile)
    ensures
        exists|i: int|
            0 <= i < placements_after(saved, payload, add_plan(saved, payload)).len() && {
                let q = #[trigger] placements_after(saved, payload, add_plan(saved, payload))[i];
                q.0 == payload.id@ && (q.1 == payload.path@ || is_child_of(q.1, payload.path@))
            },
{
    let after = placements_after(saved, payload, add_plan(saved, payload));
    if covered(saved, payload.id@, payload.path@) {
        let i = choose|i: int| 0 <= i < saved.len() && (#[trigger] saved[i]).root@ == payload.id@
            && is_child_of(saved[i].path@, payload.path@);
        assert(after[i] == (saved[i].root@, saved[i].path@));
    } else {
        match last_child(saved, payload.id@, payload.path@, saved.len() as int) {
            Some(j) => {
                lemma_last_child(saved, payload.id@, payload.path@, saved.len() as int);
                assert(after[j] == (saved[j].root@, payload.path@));
            },
            None => {
                assert(after[saved.len() as int] == (payload.id@, payload.path@));
            },
        }
    }
}

proof fn lemma_last_child(saved: Seq<FolderFileSaved>, root: Seq<char>, p: Seq<char>, n: int)
    requires
        n <= saved.len(),
    ensures
        last_child(saved, root, p, n) matches Some(j) ==> 0 <= j < n && saved[j].root@ == root
            && is_child_of(p, saved[j].path@),
    decreases n,
{
    if n > 0 {
        lemma_last_child(saved, root, p, n - 1);
    }
}

/// Every selected item of a folder has its own `!` line in that folder's
/// `.stignore`.
pub proof fn lemma_selected_item_unignored(items: Seq<FolderFileSaved>, id: Seq<char>, i: int)
    requires
        0 <= i < items.len(),
        items[i].root@ == id,
    ensures
        contains_seq(stignore_text(items, id), unignore_line(items[i].path@)),
{
    let line = unignore_line(items[i].path@);
    let k = lemma_line_in_lines(items, id, i);
    let head = "// DO NOT CHANGE MANUALY"@;
    let text = stignore_text(items, id);
    let lines = unignore_lines(items, id);
    let at = head.len() + k;
    assert(text.subrange(at, at + line.len()) =~= lines.subrange(k, k + line.len()));
    assert(occurs_at(text, line, at));
}

proof fn lemma_line_in_lines(items: Seq<FolderFileSaved>, id: Seq<char>, i: int) -> (k: int)
    requires
        0 <= i < items.len(),
        items[i].root@ == id,
    ensures
        occurs_at(unignore_lines(items, id), unignore_line(items[i].path@), k),
    decreases items.len(),
{
    let line = unignore_line(items[i].path@);
    let lines = unignore_lines(items, id);
    let prev = unignore_lines(items.drop_last(), id);
    if i == items.len() - 1 {
        let k = prev.len() as int;
        assert(lines.subrange(k, k + line.len()) =~= line);
        k
    } else {
        assert(items.drop_last()[i] == items[i]);
        let k = lemma_line_in_lines(items.drop_last(), id, i);
        assert(lines.subrange(k, k + line.len()) =~= prev.subrange(k, k + line.len()));
        k
    }
}

proof fn lemma_lines_concat(a: Seq<FolderFileSaved>, b: Seq<FolderFileSaved>, id: Seq<char>)
    ensures
        unignore_lines(a + b, id) == unignore_lines(a, id) + unignore_lines(b, id),
    decreases b.len(),
{
    if b.len() == 0 {
        assert(a + b =~= a);
        assert(unignore_lines(a, id) + unignore_lines(b, id) =~= unignore_lines(a, id));
    } else {
        lemma_lines_concat(a, b.drop_last(), id);
        assert((a + b).drop_last() =~= a + b.drop_last());
        assert((a + b).last() == b.last());
    }
}

proof fn lemma_lines_start_with_newline(items: Seq<FolderFileSaved>, id: Seq<char>)
    ensures
        unignore_lines(items, id).len() > 0 ==> unignore_lines(items, id)[0] == '\n',
    decreases items.len(),
{
    reveal_strlit("\n!");
    if items.len() > 0 {
        lemma_lines_start_with_newline(items.drop_last(), id);
    }
}

/// Each selected item of a folder has a whole line of its own in that
/// folder's `.stignore`: a new line, `!`, its path, and the line's end,
/// with nothing added after the path.
pub proof fn lemma_selected_line_is_whole(items: Seq<FolderFileSaved>, id: Seq<char>, i: int)
    requires
        0 <= i < items.len(),
        items[i].root@ == id,
    ensures
        contains_seq(stignore_text(items, id), "\n!"@ + items[i].path@ + "\n"@),
{
    reveal_strlit("\n!");
    reveal_strlit("\n");
    reveal_strlit("\n\n*");
    let before = items.take(i + 1);
    let after = items.skip(i + 1);
    assert(items =~= before + after);
    lemma_lines_concat(before, after, id);
    assert(before.drop_last() =~= items.take(i));
    assert(before.last() == items[i]);
    let l1 = unignore_lines(items.take(i), id);
    let line = "\n!"@ + items[i].path@;
    let l2 = unignore_lines(after, id);
    let head = "// DO NOT CHANGE MANUALY"@;
    let foot = "\n\n*"@;
    let text = stignore_text(items, id);
    lemma_lines_start_with_newline(after, id);
    assert((l2 + foot)[0] == '\n');
    assert(text =~= head + l1 + line + (l2 + foot));
    let at: int = (head.len() + l1.len()) as int;
    let want = "\n!"@ + items[i].path@ + "\n"@;
    assert(text.subrange(at, at + want.len() as int) =~= want);
    assert(occurs_at(text, want, at));
}

/// The `.stignore` of a folder depends only on where the selected items are,
/// not on whether they are files or directories or on their status: two
/// selections with the same folders and paths, item by item, give the same
/// text.
pub proof fn lemma_stignore_ignores_kind(a: Seq<FolderFileSaved>, b: Seq<FolderFileSaved>, id: Seq<char>)
    requires
        a.len() == b.len(),
        forall|k: int| 0 <= k < a.len() ==> (#[trigger] a[k]).root@ == b[k].root@ && a[k].path@ == b[k].path@,
    ensures
        stignore_text(a, id) == stignore_text(b, id),
    decreases a.len(),
{
    lemma_same_lines(a, b, id);
}

proof fn lemma_same_lines(a: Seq<FolderFileSaved>, b: Seq<FolderFileSaved>, id: Seq<char>)
    requires
        a.len() == b.len(),
        forall|k: int| 0 <= k < a.len() ==> (#[trigger] a[k]).root@ == b[k].root@ && a[k].path@ == b[k].path@,
    ensures
        unignore_lines(a, id) == unignore_lines(b, id),
    decreases a.len(),
{
    if a.len() > 0 {
        assert forall|k: int| 0 <= k < a.drop_last().len() implies (#[trigger] a.drop_last()[k]).root@
            == b.drop_last()[k].root@ && a.drop_last()[k].path@ == b.drop_last()[k].path@ by {
            assert(a.drop_last()[k] == a[k] && b.drop_last()[k] == b[k]);
        }
        lemma_same_lines(a.drop_last(), b.drop_last(), id);
        assert(a.last() == a[a.len() - 1] && b.last() == b[b.len() - 1]);
    }
}

/// Where an item of a folder lies: the folder's directory (home expanded),
/// `/`, then the item's path.
pub open spec fn item_location(folder_path: Seq<char>, home: Seq<char>, rel: Seq<char>) -> Seq<char> {
    expand_home(folder_path, home) + "/"@ + rel
}

/// See `item_location`.
pub fn folder_item_path(folder_path: &str, home: &str, rel: &str) -> (r: String)
    ensures
        r@ == item_location(folder_path@, home@, rel@),
{
    let mut p = expand_home_path(folder_path, home);
    p.append("/");
    p.append(rel);
    p
}

/// The index of the first folder whose id is `id`.
pub fn find_folder(folders: &Vec<Folder>, id: &str) -> (r: Option<usize>)
    ensures
        match r {
            Some(i) => i < folders@.len() && folders@[i as int].id@ == id@ && forall|j: int|
                0 <= j < i ==> (#[trigger] folders@[j]).id@ != id@,
            None => forall|j: int| 0 <= j < folders@.len() ==> (#[trigger] folders@[j]).id@ != id@,
        },
{
    let mut i: usize = 0;
    while i < folders.len()
        invariant
            i <= folders@.len(),
            forall|j: int| 0 <= j < i ==> (#[trigger] folders@[j]).id@ != id@,
        decreases folders.len() - i,
    {
        if same_text(folders[i].id.as_str(), id) {
            return Some(i);
        }
        i = i + 1;
    }
    None
}

/// Where a selected item was found on disk, or why it was not.
#[derive(Debug)]
pub enum ItemLocation {
    /// The folder list could not be had (answered 500).
    NoFolders,
    /// No folder has the item's root id (answered 404).
    NoFolder,
    /// There is no home directory (answered 500).
    NoHome,
    /// The item's full path.
    At(String),
}

/// Where the item `rel` of the folder with id `root` lies, for
/// `/sync-file`, `/free-up-space` and `/check-file-status`: in the first
/// folder with that id.
pub fn locate_item(folders: Option<Vec<Folder>>, root: &str, home: Option<String>, rel: &str) -> (r: ItemLocation)
    ensures
        folders is None ==> r is NoFolders,
        folders matches Some(fs) ==> match r {
            ItemLocation::NoFolder => forall|j: int| 0 <= j < fs@.len() ==> (#[trigger] fs@[j]).id@ != root@,
            ItemLocation::NoHome => home is None && exists|j: int| 0 <= j < fs@.len() && (#[trigger] fs@[j]).id@ == root@,
            ItemLocation::At(p) => home matches Some(h) && exists|i: int|
                0 <= i < fs@.len() && fs@[i].id@ == root@ && (forall|j: int| 0 <= j < i ==> (#[trigger] fs@[j]).id@ != root@)
                    && p@ == item_location(fs@[i].path@, h@, rel@),
            ItemLocation::NoFolders => false,
        },
{
    let folders = match folders {
        None => {
            return ItemLocation::NoFolders;
        },
        Some(f) => f,
    };
    let i = match find_folder(&folders, root) {
        None => {
            return ItemLocation::NoFolder;
        },
        Some(i) => i,
    };
    let home = match home {
        None => {
            assert(folders@[i as int].id@ == root@);
            return ItemLocation::NoHome;
        },
        Some(h) => h,
    };
    ItemLocation::At(folder_item_path(folders[i].path.as_str(), home.as_str(), rel))
}

/// Whether `/sync-file` has to (re)create the item: unless it exists and is
/// not a placeholder, in which case it is already synced.
pub fn must_materialize(present: bool, is_virtual: bool) -> (r: bool)
    ensures
        r == (!present || is_virtual),
{
    !present || is_virtual
}

/// How `/sync-file` ended for an item of the selection (marked `syncing`
/// while it ran).
#[derive(Debug, Clone, Copy, PartialEq, Eq, Structural)]
pub enum SyncOutcome {
    /// The folder list could not be had.
    NoFolders,
    /// No folder has the item's root id.
    NoFolder,
    /// There is no home directory.
    NoHome,
    /// The item is on disk and is not a placeholder.
    AlreadyPresent,
    /// Its parent directory could not be created.
    DirectoryFailed,
    /// The item was created on disk.
    Created,
    /// The item could not be created.
    CreateFailed,
}

/// The status an item is left with after `/sync-file`, and the answer:
/// `synced` with 200 when the item is on disk, `in_cloud` with 404 when its
/// folder is unknown, `in_cloud` with 500 for every other failure.
pub open spec fn sync_result(o: SyncOutcome) -> (SyncStatus, Status) {
    match o {
        SyncOutcome::AlreadyPresent | SyncOutcome::Created => (SyncStatus::Synced, Status::Success),
        SyncOutcome::NoFolder => (SyncStatus::InCloud, Status::NotFound),
        _ => (SyncStatus::InCloud, Status::InternalServerError),
    }
}

/// The message that goes with the answer of `/sync-file`.
pub open spec fn sync_message(o: SyncOutcome) -> Seq<char> {
    match o {
        SyncOutcome::NoFolders => "Failed to get folders"@,
        SyncOutcome::NoFolder => "Folder not found"@,
        SyncOutcome::NoHome => "Failed to get home directory"@,
        SyncOutcome::AlreadyPresent => "File already synced"@,
        SyncOutcome::DirectoryFailed => "Failed to create directory"@,
        SyncOutcome::Created => "File synced successfully"@,
        SyncOutcome::CreateFailed => "Failed to sync file"@,
    }
}

/// See `sync_result` and `sync_message`.
pub fn sync_file_result(o: SyncOutcome) -> (r: (SyncStatus, Status, &'static str))
    ensures
        (r.0, r.1) == sync_result(o),
        r.2@ == sync_message(o),
{
    match o {
        SyncOutcome::NoFolders => (SyncStatus::InCloud, Status::InternalServerError, "Failed to get folders"),
        SyncOutcome::NoFolder => (SyncStatus::InCloud, Status::NotFound, "Folder not found"),
        SyncOutcome::NoHome => (SyncStatus::InCloud, Status::InternalServerError, "Failed to get home directory"),
        SyncOutcome::AlreadyPresent => (SyncStatus::Synced, Status::Success, "File already synced"),
        SyncOutcome::DirectoryFailed => (SyncStatus::InCloud, Status::InternalServerError, "Failed to create directory"),
        SyncOutcome::Created => (SyncStatus::Synced, Status::Success, "File synced successfully"),
        SyncOutcome::CreateFailed => (SyncStatus::InCloud, Status::InternalServerError, "Failed to sync file"),
    }
}

/// `/sync-file` never leaves an item `syncing`: it ends `synced` exactly
/// when the answer is 200, and `in_cloud` otherwise.
pub proof fn lemma_sync_never_left_syncing(o: SyncOutcome)
    ensures
        sync_result(o).0 != SyncStatus::Syncing,
        (sync_result(o).0 == SyncStatus::Synced) == (sync_result(o).1 == Status::Success),
{
}

/// How `/free-up-space` ended for an item of the selection.
#[derive(Debug, Clone, Copy, PartialEq, Eq, Structural)]
pub enum FreeOutcome {
    /// The folder list could not be had.
    NoFolders,
    /// No folder has the item's root id.
    NoFolder,
    /// There is no home directory.
    NoHome,
    /// The item was removed from disk.
    Removed,
    /// The item could not be removed.
    RemoveFailed,
}

/// The status an item takes after `/free-up-space` (`None`: it keeps its
/// status) and the answer: back `in_cloud` with 200 once removed; 404 when
/// its folder is unknown; 500 for every other failure.
pub open spec fn free_result(o: FreeOutcome) -> (Option<SyncStatus>, Status) {
    match o {
        FreeOutcome::Removed => (Some(SyncStatus::InCloud), Status::Success),
        FreeOutcome::NoFolder => (None, Status::NotFound),
        _ => (None, Status::InternalServerError),
    }
}

/// The message that goes with the answer of `/free-up-space`.
pub open spec fn free_message(o: FreeOutcome) -> Seq<char> {
    match o {
        FreeOutcome::NoFolders => "Failed to get folders"@,
        FreeOutcome::NoFolder => "Folder not found"@,
        FreeOutcome::NoHome => "Failed to get home directory"@,
        FreeOutcome::Removed => "Space freed successfully"@,
        FreeOutcome::RemoveFailed => "Failed to free up space"@,
    }
}

/// See `free_result` and `free_message`.
pub fn free_space_result(o: FreeOutcome) -> (r: (Option<SyncStatus>, Status, &'static str))
    ensures
        (r.0, r.1) == free_result(o),
        r.2@ == free_message(o),
{
    match o {
        FreeOutcome::NoFolders => (None, Status::InternalServerError, "Failed to get folders"),
        FreeOutcome::NoFolder => (None, Status::NotFound, "Folder not found"),
        FreeOutcome::NoHome => (None, Status::InternalServerError, "Failed to get home directory"),
        FreeOutcome::Removed => (Some(SyncStatus::InCloud), Status::Success, "Space freed successfully"),
        FreeOutcome::RemoveFailed => (None, Status::InternalServerError, "Failed to free up space"),
    }
}

/// What `/check-file-status` reports of an item.
#[derive(Debug, Clone, Copy, PartialEq, Eq)]
pub struct FileReport {
    pub exists: bool,
    pub in_sync_list: bool,
    pub status: &'static str,
    /// Given only for an item of the selection.
    pub is_file: Option<bool>,
}

/// `/check-file-status` for an item: `listed` holds the status and kind of
/// the selected item with that folder and path, if there is one, and
/// `exists` whether its path is on disk. An item outside the selection is
/// reported as not on disk, not listed, with status `not_in_list`.
pub fn file_status_report(listed: Option<(SyncStatus, bool)>, exists: bool) -> (r: FileReport)
    ensures
        match listed {
            None => r.exists == false && r.in_sync_list == false && r.status@ == "not_in_list"@ && r.is_file
                is None,
            Some((st, f)) => r.exists == exists && r.in_sync_list && r.status@ == status_text(st)
                && r.is_file == Some(f),
        },
{
    match listed {
        None => FileReport { exists: false, in_sync_list: false, status: "not_in_list", is_file: None },
        Some((st, f)) => FileReport { exists, in_sync_list: true, status: st.as_str(), is_file: Some(f) },
    }
}

/// The folders, listed as items at the root of the folder browser: id,
/// label as the name, an empty path, not a file.
pub fn folders_as_items(folders: Vec<Folder>) -> (r: Vec<FolderFile>)
    ensures
        r@.len() == folders@.len(),
        forall|i: int| 0 <= i < r@.len() ==> {
            &&& (#[trigger] r@[i]).id == folders@[i].id
            &&& r@[i].name == folders@[i].label
            &&& r@[i].path@ == Seq::<char>::empty()
            &&& !r@[i].is_file
        },
{
    let mut r: Vec<FolderFile> = Vec::new();
    let mut i: usize = 0;
    while i < folders.len()
        invariant
            i <= folders@.len(),
            r@.len() == i,
            forall|k: int| 0 <= k < i ==> {
                &&& (#[trigger] r@[k]).id == folders@[k].id
                &&& r@[k].name == folders@[k].label
                &&& r@[k].path@ == Seq::<char>::empty()
                &&& !r@[k].is_file
            },
        decreases folders.len() - i,
    {
        let f = &folders[i];
        r.push(FolderFile { id: f.id.clone(), name: f.label.clone(), path: String::new(), is_file: false });
        i = i + 1;
    }
    r
}

/// One line of `.stignore` that lets an item through: `!` and its path,
/// on a new line.
pub open spec fn unignore_line(path: Seq<char>) -> Seq<char> {
    "\n!"@ + path
}

/// The lines for the items of `items` whose folder is `id`, in order.
pub open spec fn unignore_lines(items: Seq<FolderFileSaved>, id: Seq<char>) -> Seq<char>
    decreases items.len(),
{
    if items.len() == 0 {
        Seq::empty()
    } else {
        unignore_lines(items.drop_last(), id) + if items.last().root@ == id {
            unignore_line(items.last().path@)
        } else {
            Seq::empty()
        }
    }
}

/// The `.stignore` of the folder `id`: a warning line, the selected items
/// of that folder, then a blank line and `*`, which ignores everything else.
pub open spec fn stignore_text(items: Seq<FolderFileSaved>, id: Seq<char>) -> Seq<char> {
    "// DO NOT CHANGE MANUALY"@ + unignore_lines(items, id) + "\n\n*"@
}

/// See `stignore_text`.
pub fn stignore_contents(items: &Vec<FolderFileSaved>, id: &str) -> (r: String)
    ensures
        r@ == stignore_text(items@, id@),
{
    let mut out = String::from_str("// DO NOT CHANGE MANUALY");
    let ghost head = out@;
    let mut i: usize = 0;
    while i < items.len()
        invariant
            i <= items@.len(),
            out@ == head + unignore_lines(items@.subrange(0, i as int), id@),
        decreases items.len() - i,
    {
        assert(items@.subrange(0, i + 1).drop_last() =~= items@.subrange(0, i as int));
        let ghost before = out@;
        if same_text(items[i].root.as_str(), id) {
            out.append("\n!");
            out.append(items[i].path.as_str());
        }
        assert(out@ =~= head + unignore_lines(items@.subrange(0, i + 1), id@));
        i = i + 1;
    }
    assert(items@.subrange(0, items@.len() as int) =~= items@);
    out.append("\n\n*");
    out
}

/// Where a folder's `.stignore` lies.
pub fn stignore_path(folder_path: &str, home: &str) -> (r: String)
    ensures
        r@ == expand_home(folder_path@, home@) + "/.stignore"@,
{
    let mut p = expand_home_path(folder_path, home);
    p.append("/.stignore");
    p
}

/// The request that makes Syncthing rescan the folder `id`.
pub fn scan_url(st_url: &str, id: &str) -> (r: String)
    ensures
        r@ == "https://"@ + st_url@ + "/rest/db/scan?folder="@ + id@,
{
    let mut u = String::from_str("https://");
    u.append(st_url);
    u.append("/rest/db/scan?folder=");
    u.append(id);
    u
}

/// The request for Syncthing's folder list.
pub fn folders_url(st_url: &str) -> (r: String)
    ensures
        r@ == "https://"@ + st_url@ + "/rest/config/folders"@,
{
    let mut u = String::from_str("https://");
    u.append(st_url);
    u.append("/rest/config/folders");
    u
}

/// The card of one folder on the client's home page, a link to the browser.
pub open spec fn folder_link(label: Seq<char>, id: Seq<char>, path: Seq<char>, fst: Seq<char>) -> Seq<char> {
    "<a href=\"/items\" class=\"folder-item\"><div class=\"folder-name\">"@ + label
        + "</div><div class=\"folder-detail\">ID: "@ + id
        + "</div><div class=\"folder-detail\">Path: "@ + path
        + "</div><div class=\"folder-detail\">File System: "@ + fst + "</div></a>"@
}

/// The cards of all of `fs`, in order.
pub open spec fn folder_links(fs: Seq<Folder>) -> Seq<char>
    decreases fs.len(),
{
    if fs.len() == 0 {
        Seq::empty()
    } else {
        folder_links(fs.drop_last()) + folder_link(
            fs.last().label@,
            fs.last().id@,
            fs.last().path@,
            fs.last().filesystemType@,
        )
    }
}

/// `html` followed by the card of a folder.
pub fn create_html(html: String, label: String, id: String, path: String, fst: String) -> (r: String)
    ensures
        r@ == html@ + folder_link(label@, id@, path@, fst@),
{
    let mut out = html;
    out.append("<a href=\"/items\" class=\"folder-item\"><div class=\"folder-name\">");
    out.append(label.as_str());
    out.append("</div><div class=\"folder-detail\">ID: ");
    out.append(id.as_str());
    out.append("</div><div class=\"folder-detail\">Path: ");
    out.append(path.as_str());
    out.append("</div><div class=\"folder-detail\">File System: ");
    out.append(fst.as_str());
    out.append("</div></a>");
    assert(out@ =~= html@ + folder_link(label@, id@, path@, fst@));
    out
}

/// The folder cards of the client's home page (none when the folder list
/// could not be had).
pub fn create_html_folders(folders: &Vec<Folder>) -> (r: String)
    ensures
        r@ == folder_links(folders@),
{
    let mut out = String::new();
    let mut i: usize = 0;
    while i < folders.len()
        invariant
            i <= folders@.len(),
            out@ == folder_links(folders@.subrange(0, i as int)),
        decreases folders.len() - i,
    {
        assert(folders@.subrange(0, i + 1).drop_last() =~= folders@.subrange(0, i as int));
        let f = &folders[i];
        out = create_html(out, f.label.clone(), f.id.clone(), f.path.clone(), f.filesystemType.clone());
        i = i + 1;
    }
    assert(folders@.subrange(0, folders@.len() as int) =~= folders@);
    out
}

} // verus!
