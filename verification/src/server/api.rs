//! The decisions behind the server's HTTP endpoints.
use vstd::prelude::*;
use crate::text::{replace_all, replace_str, append_decimal, append_signed_decimal, decimal, signed_decimal, same_text};
use crate::server::structs::{User, FolderId, Folder, FolderFile, FolderSearch, UserUpdate};
use crate::server::guest::{GuestData, ADMIN};
use crate::common::{Status, SettingUpdate, update_pair, set_if, push_if_set, expand_home, expand_home_path};
use crate::server::create_user::{generate_salt, sha256_hash, password_hash, is_salt};

verus! {

/// The answer a guest gets before an endpoint does any work: 418 when not
/// logged in, 403 when the endpoint is for administrators and the guest is
/// not one, nothing otherwise.
pub open spec fn refusal(guest: GuestData, admin_only: bool) -> Option<Status> {
    if !guest.logged_in {
        Some(Status::ImATeapot)
    } else if admin_only && guest.role != ADMIN {
        Some(Status::Forbidden)
    } else {
        None
    }
}

/// See `refusal`.
pub fn access_refusal(guest: &GuestData, admin_only: bool) -> (r: Option<Status>)
    ensures
        r == refusal(*guest, admin_only),
{
    if !guest.logged_in {
        Some(Status::ImATeapot)
    } else if admin_only && guest.role != ADMIN {
        Some(Status::Forbidden)
    } else {
        None
    }
}

/// The answer of `/check-status`: 200 for a logged-in guest, 418 otherwise.
pub open spec fn guest_status(guest: GuestData) -> Status {
    if guest.logged_in {
        Status::Success
    } else {
        Status::ImATeapot
    }
}

/// `/check-status`: see `guest_status`.
pub fn check_status(guest: &GuestData) -> (s: Status)
    ensures
        s == guest_status(*guest),
{
    if guest.logged_in {
        Status::Success
    } else {
        Status::ImATeapot
    }
}

/// A guest who is not logged in (as every guest is after `/api/logout`) is
/// answered 418 by the status check and by every guarded endpoint.
pub proof fn lemma_logged_out_guest_refused(guest: GuestData, admin_only: bool)
    requires
        !guest.logged_in,
    ensures
        guest_status(guest) == Status::ImATeapot,
        refusal(guest, admin_only) == Some(Status::ImATeapot),
{
}

/// A logged-in guest passes the status check and every endpoint that is not
/// for administrators; it passes the administrators' endpoints exactly when
/// its role is `ADMIN`, and is answered 403 there otherwise.
pub proof fn lemma_logged_in_guest_admitted(guest: GuestData)
    requires
        guest.logged_in,
    ensures
        guest_status(guest) == Status::Success,
        refusal(guest, false) is None,
        guest.role == ADMIN ==> refusal(guest, true) is None,
        guest.role != ADMIN ==> refusal(guest, true) == Some(Status::Forbidden),
{
}

/// The answer to a login with `password` when `found` is the account stored
/// under the submitted name: 200 when there is one and the password hashes
/// to its stored hash under its stored salt; otherwise 418, the answer for
/// a user name or password that is not correct.
pub open spec fn login_status(found: Option<User>, password: Seq<char>) -> Status {
    match found {
        None => Status::ImATeapot,
        Some(u) => if password_hash(password, u.salt@) == u.password@ {
            Status::Success
        } else {
            Status::ImATeapot
        },
    }
}

/// `/api/login`: the answer is `login_status`; on 200 the guest becomes the
/// account's logged-in user (same session id), otherwise it is unchanged.
pub fn login(guest: GuestData, found: Option<User>, password: String) -> (r: (Status, GuestData))
    ensures
        r.0 == login_status(found, password@),
        r.0 == Status::Success ==> {
            let u = found->0;
            &&& r.1.id == guest.id
            &&& r.1.username == u.username
            &&& r.1.logged_in
            &&& r.1.role == u.role
        },
        r.0 != Status::Success ==> r.1 == guest,
{
    match found {
        None => (Status::ImATeapot, guest),
        Some(u) => {
            let stored = u.password.clone();
            let h = sha256_hash(password, u.salt);
            if h == stored {
                let g = GuestData { id: guest.id, username: u.username, logged_in: true, role: u.role };
                (Status::Success, g)
            } else {
                (Status::ImATeapot, guest)
            }
        },
    }
}

/// `/api/logout`: 202 and a guest that is logged out with no name.
pub fn logout(guest: GuestData) -> (r: (Status, GuestData))
    ensures
        r.0 == Status::Accepted,
        r.1.id == guest.id,
        r.1.role == guest.role,
        !r.1.logged_in,
        r.1.username@ == Seq::<char>::empty(),
{
    (Status::Accepted, GuestData { id: guest.id, username: String::new(), logged_in: false, role: guest.role })
}

/// Whether `guest` may change the account named `username`: an
/// administrator may change any account, anyone else only their own.
pub open spec fn may_update(guest: GuestData, username: Seq<char>) -> bool {
    guest.role == ADMIN || guest.username@ == username
}

/// What may be stored when `guest` submits `updated` for the account
/// `before` (looked up by `updated.username`): nothing (`None`) when there is
/// no such account or the guest may not change it. Otherwise the id, name
/// and salt are not taken from the submission; role and folders are taken
/// from it only for an administrator; a submitted password equal to the
/// stored hash keeps hash and salt, any other is hashed under a fresh salt.
pub open spec fn update_result(before: Option<User>, updated: User, guest: GuestData, r: Option<User>) -> bool {
    &&& (r is None <==> (before is None || !may_update(guest, updated.username@)))
    &&& (r matches Some(u) ==> {
        let b = before->0;
        &&& u.id == b.id
        &&& u.username == updated.username
        &&& (guest.role == ADMIN ==> u.role == updated.role && u.allowed_folders
            == updated.allowed_folders)
        &&& (guest.role != ADMIN ==> u.role == b.role && u.allowed_folders == b.allowed_folders)
        &&& if b.password@ == updated.password@ {
            u.password@ == b.password@ && u.salt == b.salt
        } else {
            is_salt(u.salt@) && u.password@ == password_hash(updated.password@, u.salt@)
        }
    })
}

impl User {
    /// The record to store for `/api/update-user`: see `update_result`.
    pub fn update_user(before: Option<User>, updated: User, guest: &GuestData) -> (r: Option<User>)
        ensures
            update_result(before, updated, *guest, r),
    {
        let b = match before {
            None => {
                return None;
            },
            Some(b) => b,
        };
        let is_admin = guest.role == ADMIN;
        if !is_admin && !(guest.username == updated.username) {
            return None;
        }
        let same = b.password == updated.password;
        let (password, salt) = if same {
            (b.password, b.salt)
        } else {
            let salt = generate_salt();
            let h = sha256_hash(updated.password, salt.clone());
            (h, salt)
        };
        let (role, allowed_folders) = if is_admin {
            (updated.role, updated.allowed_folders)
        } else {
            (b.role, b.allowed_folders)
        };
        Some(User { id: b.id, username: updated.username, password, salt, role, allowed_folders })
    }
}

/// An account accepts at login the password its stored hash was made from,
/// as every account made by `new_account`, `new_password_record` or
/// `default_admin_user` is.
pub proof fn lemma_login_accepts_stored_password(u: User, password: Seq<char>)
    requires
        u.password@ == password_hash(password, u.salt@),
    ensures
        login_status(Some(u), password) == Status::Success,
{
}

/// After an update is stored, a newly submitted password is the one that
/// logs in; a submission that repeats the stored hash leaves the answer to
/// every login as it was.
pub proof fn lemma_update_then_login(before: User, updated: User, guest: GuestData, after: User, password: Seq<char>)
    requires
        update_result(Some(before), updated, guest, Some(after)),
    ensures
        updated.password@ != before.password@ ==> login_status(Some(after), updated.password@)
            == Status::Success,
        updated.password@ == before.password@ ==> login_status(Some(after), password)
            == login_status(Some(before), password),
{
}

/// The salted hash and salt to store for a new password.
#[derive(Debug)]
pub struct PasswordRecord {
    pub password: String,
    pub salt: String,
}

/// `/api/update-password`: the record that replaces the password of the
/// logged-in account, hashed under a fresh salt.
pub fn new_password_record(new_password: String) -> (r: PasswordRecord)
    ensures
        is_salt(r.salt@),
        r.password@ == password_hash(new_password@, r.salt@),
{
    let salt = generate_salt();
    let password = sha256_hash(new_password, salt.clone());
    PasswordRecord { password, salt }
}

/// `/api/add-user`: the account to create from a submission whose folder
/// list has been read into `folders`; the password is hashed under a fresh
/// salt and the id is left to the database.
pub fn new_account(payload: UserUpdate, folders: Vec<FolderId>) -> (u: User)
    ensures
        u.id == 0,
        u.username == payload.username,
        is_salt(u.salt@),
        u.password@ == password_hash(payload.password@, u.salt@),
        u.role == payload.role,
        u.allowed_folders == folders,
{
    let salt = generate_salt();
    let password = sha256_hash(payload.password, salt.clone());
    User { id: 0, username: payload.username, password, salt, role: payload.role, allowed_folders: folders }
}

/// The account created with the database: `ADMIN` with password `ADMIN`,
/// role 255 and no folders.
pub fn default_admin_user() -> (u: User)
    ensures
        u.id == 0,
        u.username@ == "ADMIN"@,
        is_salt(u.salt@),
        u.password@ == password_hash("ADMIN"@, u.salt@),
        u.role == ADMIN,
        u.allowed_folders@ == Seq::<FolderId>::empty(),
{
    let salt = generate_salt();
    let password = sha256_hash(String::from_str("ADMIN"), salt.clone());
    User {
        id: 0,
        username: String::from_str("ADMIN"),
        password,
        salt,
        role: ADMIN,
        allowed_folders: Vec::new(),
    }
}

/// `/api/update-site-settings`: the settings to overwrite, in this order:
/// `api-key`, `st-url`, `ssss-url`, each only when its new value is not empty.
pub fn site_setting_updates(api_token: &str, st_url: &str, ssss_url: &str) -> (r: Vec<SettingUpdate>)
    ensures
        r@.map_values(|u: SettingUpdate| update_pair(u)) == set_if("api-key"@, api_token@) + set_if(
            "st-url"@,
            st_url@,
        ) + set_if("ssss-url"@, ssss_url@),
{
    let mut updates: Vec<SettingUpdate> = Vec::new();
    assert(updates@.map_values(|u: SettingUpdate| update_pair(u)) =~= Seq::empty());
    push_if_set(&mut updates, "api-key", api_token);
    push_if_set(&mut updates, "st-url", st_url);
    push_if_set(&mut updates, "ssss-url", ssss_url);
    assert(Seq::<(Seq<char>, Seq<char>)>::empty() + set_if("api-key"@, api_token@) =~= set_if("api-key"@, api_token@));
    updates
}

/// The first folder in `folders` whose id is `id`.
pub open spec fn first_folder_with_id(folders: Seq<Folder>, id: Seq<char>) -> Option<int> {
    if exists|i: int| 0 <= i < folders.len() && (#[trigger] folders[i]).id@ == id {
        Some(
            choose|i: int|
                0 <= i < folders.len() && (#[trigger] folders[i]).id@ == id && forall|j: int|
                    0 <= j < i ==> (#[trigger] folders[j]).id@ != id,
        )
    } else {
        None
    }
}

/// Where `/api/ssss/get-items` looks, or why it looks nowhere.
#[derive(Debug)]
pub enum FolderLookup {
    Refused(Status),
    /// `root` is the folder's directory with a `/` (cut from the listed
    /// paths), `dir` the directory to list.
    Found { root: String, dir: String },
}

/// The index of the first folder whose id is `id`.
pub fn find_folder(folders: &Vec<Folder>, id: &str) -> (r: Option<usize>)
    ensures
        match r {
            Some(i) => i < folders@.len() && folders@[i as int].id@ == id@ && forall|j: int|
                0 <= j < i ==> (#[trigger] folders@[j]).id@ != id@,
            None => forall|j: int| 0 <= j < folders@.len() ==> (#[trigger] folders@[j]).id@ != id@,
        },
{
    let mut i: usize = 0;
    while i < folders.len()
        invariant
            i <= folders@.len(),
            forall|j: int| 0 <= j < i ==> (#[trigger] folders@[j]).id@ != id@,
        decreases folders.len() - i,
    {
        if same_text(folders[i].id.as_str(), id) {
            return Some(i);
        }
        i = i + 1;
    }
    None
}

/// Whether `guest`, whose stored account is `user`, may open the folder
/// `id`: an administrator any folder, anyone else only a folder granted to
/// the account.
pub open spec fn may_open(guest: GuestData, user: Option<User>, id: Seq<char>) -> bool {
    guest.role == ADMIN || match user {
        Some(u) => exists|i: int|
            0 <= i < u.allowed_folders@.len() && (#[trigger] u.allowed_folders@[i]).folder@ == id,
        None => false,
    }
}

/// See `may_open`.
pub fn granted(guest: &GuestData, user: &Option<User>, id: &str) -> (r: bool)
    ensures
        r == may_open(*guest, *user, id@),
{
    if guest.role == ADMIN {
        return true;
    }
    match user {
        None => false,
        Some(u) => {
            let mut i: usize = 0;
            while i < u.allowed_folders.len()
                invariant
                    *user == Some(*u),
                    guest.role != ADMIN,
                    i <= u.allowed_folders@.len(),
                    forall|j: int| 0 <= j < i ==> (#[trigger] u.allowed_folders@[j]).folder@ != id@,
                decreases u.allowed_folders.len() - i,
            {
                if same_text(u.allowed_folders[i].folder.as_str(), id) {
                    assert(u.allowed_folders@[i as int].folder@ == id@);
                    assert(user->0.allowed_folders@[i as int].folder@ == id@);
                    return true;
                }
                i = i + 1;
            }
            false
        },
    }
}

/// `/api/ssss/get-items` for `guest`, whose stored account is `user`: 418
/// for a guest who is not logged in; 451 (no such folder) for a folder the
/// guest may not open (see `may_open`); 503 when the folder list could not
/// be had; 451 when no folder has the requested id; otherwise the first
/// folder with that id, its directory (home expanded) followed by `/` as
/// `root`, and `root` followed by the requested path as `dir`.
pub fn locate_folder(guest: &GuestData, user: &Option<User>, folders: Option<Vec<Folder>>, search: &FolderSearch, home: &str) -> (r: FolderLookup)
    ensures
        !guest.logged_in ==> r == FolderLookup::Refused(Status::ImATeapot),
        guest.logged_in && !may_open(*guest, *user, search.id@) ==> r == FolderLookup::Refused(
            Status::UnavailableForLegalReasons,
        ),
        guest.logged_in && may_open(*guest, *user, search.id@) && folders is None ==> r
            == FolderLookup::Refused(Status::ServiceUnavailable),
        guest.logged_in && may_open(*guest, *user, search.id@) && folders is Some ==> match r {
            FolderLookup::Refused(s) => s == Status::UnavailableForLegalReasons && forall|j: int|
                0 <= j < folders->0@.len() ==> (#[trigger] folders->0@[j]).id@ != search.id@,
            FolderLookup::Found { root, dir } => exists|i: int|
                0 <= i < folders->0@.len() && folders->0@[i].id@ == search.id@ && (forall|j: int|
                    0 <= j < i ==> (#[trigger] folders->0@[j]).id@ != search.id@) && root@
                    == expand_home(folders->0@[i].path@, home@) + "/"@ && dir@ == root@
                    + search.path@,
        },
        r is Found ==> guest.logged_in && may_open(*guest, *user, search.id@),
{
    if !guest.logged_in {
        return FolderLookup::Refused(Status::ImATeapot);
    }
    if !granted(guest, user, search.id.as_str()) {
        return FolderLookup::Refused(Status::UnavailableForLegalReasons);
    }
    let folders = match folders {
        None => {
            return FolderLookup::Refused(Status::ServiceUnavailable);
        },
        Some(f) => f,
    };
    match find_folder(&folders, search.id.as_str()) {
        None => FolderLookup::Refused(Status::UnavailableForLegalReasons),
        Some(i) => {
            let mut root = expand_home_path(folders[i].path.as_str(), home);
            root.append("/");
            let mut dir = root.clone();
            dir.append(search.path.as_str());
            FolderLookup::Found { root, dir }
        },
    }
}

/// One entry of a listed directory: its full path with every occurrence of
/// `root` removed, and its file name (`Unknown` when it has none).
pub fn listed_item(id: &str, full_path: &str, file_name: Option<String>, is_file: bool, root: &str) -> (f: FolderFile)
    ensures
        f.id@ == id@,
        f.path@ == replace_all(full_path@, root@, Seq::<char>::empty()),
        f.name@ == (match file_name {
            Some(n) => n@,
            None => "Unknown"@,
        }),
        f.is_file == is_file,
{
    let name = match file_name {
        Some(n) => n,
        None => String::from_str("Unknown"),
    };
    proof {
        reveal_strlit("");
        assert(""@ =~= Seq::<char>::empty());
    }
    FolderFile { id: String::from_str(id), name, path: replace_str(full_path, root, ""), is_file }
}

/// The home page: the template with its `<Folders/>`, `<Users/>` and
/// `<UsersData/>` placeholders replaced, in that order.
pub fn render_home(page: &str, folders: &str, users: &str, users_json: &str) -> (r: String)
    ensures
        r@ == replace_all(
            replace_all(replace_all(page@, "<Folders/>"@, folders@), "<Users/>"@, users@),
            "<UsersData/>"@,
            users_json@,
        ),
{
    let a = replace_str(page, "<Folders/>", folders);
    let b = replace_str(a.as_str(), "<Users/>", users);
    replace_str(b.as_str(), "<UsersData/>", users_json)
}

/// The card of one folder on the home page.
pub open spec fn folder_card(label: Seq<char>, id: Seq<char>, path: Seq<char>, fst: Seq<char>) -> Seq<char> {
    "<div class=\"folder-item\"><div class=\"folder-name\">"@ + label
        + "</div><div class=\"folder-detail\">ID: "@ + id
        + "</div><div class=\"folder-detail\">Path: "@ + path
        + "</div><div class=\"folder-detail\">File System: "@ + fst + "</div></div>"@
}

/// The card of `f`.
pub open spec fn card_of(f: Folder) -> Seq<char> {
    folder_card(f.label@, f.id@, f.path@, f.filesystemType@)
}

/// The cards of all of `fs`, in order.
pub open spec fn cards(fs: Seq<Folder>) -> Seq<char>
    decreases fs.len(),
{
    if fs.len() == 0 {
        Seq::empty()
    } else {
        cards(fs.drop_last()) + card_of(fs.last())
    }
}

/// The cards of the folders of `fs` whose id is `id`, in order.
pub open spec fn cards_with_id(fs: Seq<Folder>, id: Seq<char>) -> Seq<char>
    decreases fs.len(),
{
    if fs.len() == 0 {
        Seq::empty()
    } else {
        cards_with_id(fs.drop_last(), id) + if fs.last().id@ == id {
            card_of(fs.last())
        } else {
            Seq::empty()
        }
    }
}

/// For each allowed folder in turn, the cards of the folders with its id.
pub open spec fn allowed_cards(allowed: Seq<FolderId>, fs: Seq<Folder>) -> Seq<char>
    decreases allowed.len(),
{
    if allowed.len() == 0 {
        Seq::empty()
    } else {
        allowed_cards(allowed.drop_last(), fs) + cards_with_id(fs, allowed.last().folder@)
    }
}

/// `html` followed by the card of a folder.
pub fn create_html(html: String, label: String, id: String, path: String, fst: String) -> (r: String)
    ensures
        r@ == html@ + folder_card(label@, id@, path@, fst@),
{
    let mut out = html;
    out.append("<div class=\"folder-item\"><div class=\"folder-name\">");
    out.append(label.as_str());
    out.append("</div><div class=\"folder-detail\">ID: ");
    out.append(id.as_str());
    out.append("</div><div class=\"folder-detail\">Path: ");
    out.append(path.as_str());
    out.append("</div><div class=\"folder-detail\">File System: ");
    out.append(fst.as_str());
    out.append("</div></div>");
    assert(out@ =~= html@ + folder_card(label@, id@, path@, fst@));
    out
}

fn append_card(out: String, f: &Folder) -> (r: String)
    ensures
        r@ == out@ + card_of(*f),
{
    create_html(out, f.label.clone(), f.id.clone(), f.path.clone(), f.filesystemType.clone())
}

fn append_cards_with_id(out: String, fs: &Vec<Folder>, id: &str) -> (r: String)
    ensures
        r@ == out@ + cards_with_id(fs@, id@),
{
    let mut out = out;
    let ghost start = out@;
    let mut i: usize = 0;
    while i < fs.len()
        invariant
            i <= fs@.len(),
            out@ == start + cards_with_id(fs@.subrange(0, i as int), id@),
        decreases fs.len() - i,
    {
        let ghost pre = fs@.subrange(0, i as int);
        assert(fs@.subrange(0, i + 1).drop_last() =~= pre);
        if same_text(fs[i].id.as_str(), id) {
            out = append_card(out, &fs[i]);
        }
        assert(out@ =~= start + cards_with_id(fs@.subrange(0, i + 1), id@));
        i = i + 1;
    }
    assert(fs@.subrange(0, fs@.len() as int) =~= fs@);
    out
}

/// The folder cards of the home page. No cards when the visitor's account
/// `user` was not found; every folder for an administrator; otherwise, for
/// each allowed folder in turn, the folders with its id.
pub fn create_html_folders(guest: &GuestData, user: Option<User>, folders: &Vec<Folder>) -> (r: String)
    ensures
        r@ == match user {
            None => Seq::empty(),
            Some(u) => if guest.role == ADMIN {
                cards(folders@)
            } else {
                allowed_cards(u.allowed_folders@, folders@)
            },
        },
{
    let u = match user {
        None => {
            return String::new();
        },
        Some(u) => u,
    };
    let mut out = String::new();
    if guest.role == ADMIN {
        let mut i: usize = 0;
        while i < folders.len()
            invariant
                i <= folders@.len(),
                out@ == cards(folders@.subrange(0, i as int)),
            decreases folders.len() - i,
        {
            assert(folders@.subrange(0, i + 1).drop_last() =~= folders@.subrange(0, i as int));
            out = append_card(out, &folders[i]);
            i = i + 1;
        }
        assert(folders@.subrange(0, folders@.len() as int) =~= folders@);
    } else {
        let allowed = &u.allowed_folders;
        let mut k: usize = 0;
        while k < allowed.len()
            invariant
                k <= allowed@.len(),
                out@ == allowed_cards(allowed@.subrange(0, k as int), folders@),
            decreases allowed.len() - k,
        {
            assert(allowed@.subrange(0, k + 1).drop_last() =~= allowed@.subrange(0, k as int));
            out = append_cards_with_id(out, folders, allowed[k].folder.as_str());
            k = k + 1;
        }
        assert(allowed@.subrange(0, allowed@.len() as int) =~= allowed@);
    }
    out
}

/// The accounts shown to a visitor: all of them to an administrator,
/// otherwise the first one with the visitor's name, if any.
pub fn get_users(guest: &GuestData, users: Vec<User>) -> (r: Option<Vec<User>>)
    ensures
        guest.role == ADMIN ==> r == Some(users),
        guest.role != ADMIN ==> match r {
            Some(v) => exists|i: int|
                0 <= i < users@.len() && users@[i].username@ == guest.username@ && (forall|j: int|
                    0 <= j < i ==> (#[trigger] users@[j]).username@ != guest.username@) && v@
                    == seq![users@[i]],
            None => forall|j: int| 0 <= j < users@.len() ==> (#[trigger] users@[j]).username@ != guest.username@,
        },
{
    if guest.role == ADMIN {
        return Some(users);
    }
    let mut rest = users;
    let ghost all = rest@;
    let mut i: usize = 0;
    while i < rest.len()
        invariant
            rest@ == all,
            all == users@,
            guest.role != ADMIN,
            i <= rest@.len(),
            forall|j: int| 0 <= j < i ==> (#[trigger] rest@[j]).username@ != guest.username@,
        decreases rest.len() - i,
    {
        if rest[i].username == guest.username {
            let u = rest.remove(i);
            let mut v: Vec<User> = Vec::new();
            v.push(u);
            assert(v@ =~= seq![all[i as int]]);
            return Some(v);
        }
        i = i + 1;
    }
    None
}

/// One row of the users table: id, name, a masked password, role and the
/// number of allowed folders.
pub open spec fn user_row(u: User) -> Seq<char> {
    "<tr data-id=\"user-"@ + signed_decimal(u.id as int) + "\">\n                        <td>"@
        + u.username@ + "</td>\n                        <td>********</td>\n                        <td>"@
        + decimal(u.role as nat) + "</td>\n                        <td>"@ + decimal(
        u.allowed_folders@.len(),
    ) + "</td>\n                    </tr>"@
}

/// The rows of `users`, in order.
pub open spec fn user_rows(users: Seq<User>) -> Seq<char>
    decreases users.len(),
{
    if users.len() == 0 {
        Seq::empty()
    } else {
        user_rows(users.drop_last()) + user_row(users.last())
    }
}

/// The users table of the home page, for the accounts `get_users` gave.
pub fn create_html_users(users: Option<Vec<User>>) -> (r: String)
    ensures
        r@ == match users {
            None => Seq::empty(),
            Some(v) => user_rows(v@),
        },
{
    let users = match users {
        None => {
            return String::new();
        },
        Some(v) => v,
    };
    let mut out = String::new();
    let mut i: usize = 0;
    while i < users.len()
        invariant
            i <= users@.len(),
            out@ == user_rows(users@.subrange(0, i as int)),
        decreases users.len() - i,
    {
        let ghost before = out@;
        let u = &users[i];
        out.append("<tr data-id=\"user-");
        append_signed_decimal(&mut out, u.id as i64);
        out.append("\">\n                        <td>");
        out.append(u.username.as_str());
        out.append("</td>\n                        <td>********</td>\n                        <td>");
        append_decimal(&mut out, u.role as u64);
        out.append("</td>\n                        <td>");
        append_decimal(&mut out, u.allowed_folders.len() as u64);
        out.append("</td>\n                    </tr>");
        assert(users@.subrange(0, i + 1).drop_last() =~= users@.subrange(0, i as int));
        assert(out@ =~= before + user_row(users@[i as int]));
        i = i + 1;
    }
    assert(users@.subrange(0, users@.len() as int) =~= users@);
    out
}

/// The unused search record of the server: an empty folder and path.
#[derive(Debug)]
pub struct Config {
    pub folder: String,
    pub path: String,
}

impl Config {
    pub fn new() -> (c: Self)
        ensures
            c.folder@ == Seq::<char>::empty(),
            c.path@ == Seq::<char>::empty(),
    {
        Config { folder: String::new(), path: String::new() }
    }
}

} // verus!
