//! Placeholder ("virtual") files: what Syncthing holds, what to create, and
//! what an access to a placeholder adds to the selection.
use vstd::prelude::*;
use crate::text::{chars_of, contains_seq, contains_chars, has_prefix, occurs_at, matches_at, same_text, split_char, replace_all, replace_str};
use crate::client::structs::{FolderFile, FolderFileSaved};

verus! {

/// One entry of Syncthing's `/rest/db/browse` tree, with the fields the
/// client reads: `name` and `type` when they are strings, `children` when
/// it is an array.
#[derive(Debug)]
pub struct BrowseEntry {
    pub name: Option<String>,
    pub kind: Option<String>,
    pub children: Option<Vec<BrowseEntry>>,
}

/// An item as plain values: folder id, name, path, and whether it is a file.
pub open spec fn item_view(f: FolderFile) -> (Seq<char>, Seq<char>, Seq<char>, bool) {
    (f.id@, f.name@, f.path@, f.is_file)
}

/// The name of an entry, `unknown` when it has none.
pub open spec fn entry_name(e: BrowseEntry) -> Seq<char> {
    match e.name {
        Some(n) => n@,
        None => "unknown"@,
    }
}

/// The path of an entry below `parent`: its name, after `parent` and `/`
/// unless `parent` is empty.
pub open spec fn entry_path(parent: Seq<char>, e: BrowseEntry) -> Seq<char> {
    if parent.len() == 0 {
        entry_name(e)
    } else {
        parent + "/"@ + entry_name(e)
    }
}

/// An entry is a file when its type mentions `FILE` and not `DIRECTORY`.
pub open spec fn entry_is_file(e: BrowseEntry) -> bool {
    let t = match e.kind {
        Some(k) => k@,
        None => Seq::empty(),
    };
    contains_seq(t, "FILE"@) && !contains_seq(t, "DIRECTORY"@)
}

/// The items of a browse tree in pre-order: each entry, then (for a
/// directory with children) its descendants.
pub open spec fn tree_items(entries: Seq<BrowseEntry>, parent: Seq<char>, folder: Seq<char>) -> Seq<(Seq<char>, Seq<char>, Seq<char>, bool)>
    decreases entries, 1nat,
{
    if entries.len() == 0 {
        Seq::empty()
    } else {
        tree_items(entries.drop_last(), parent, folder) + entry_items(entries.last(), parent, folder)
    }
}

/// The items of one entry and its descendants.
pub open spec fn entry_items(e: BrowseEntry, parent: Seq<char>, folder: Seq<char>) -> Seq<(Seq<char>, Seq<char>, Seq<char>, bool)>
    decreases e, 0nat,
{
    let path = entry_path(parent, e);
    seq![(folder, entry_name(e), path, entry_is_file(e))] + if !entry_is_file(e) && e.children is Some {
        tree_items(e.children->0@, path, folder)
    } else {
        Seq::empty()
    }
}

fn entry_item(e: &BrowseEntry, parent_path: &str, folder_id: &str) -> (f: FolderFile)
    ensures
        item_view(f) == (folder_id@, entry_name(*e), entry_path(parent_path@, *e), entry_is_file(*e)),
{
    let name = match &e.name {
        Some(n) => n.clone(),
        None => String::from_str("unknown"),
    };
    let path = if parent_path.is_empty() {
        name.clone()
    } else {
        let mut p = String::from_str(parent_path);
        p.append("/");
        p.append(name.as_str());
        p
    };
    let t = match &e.kind {
        Some(k) => chars_of(k.as_str()),
        None => Vec::new(),
    };
    let file_word = chars_of("FILE");
    let dir_word = chars_of("DIRECTORY");
    let is_file = contains_chars(&t, &file_word) && !contains_chars(&t, &dir_word);
    FolderFile { id: String::from_str(folder_id), name, path, is_file }
}

/// Appends to `files` the items of a browse tree below `parent_path`, in
/// pre-order, each marked with `folder_id`.
pub fn traverse_browse_tree(entries: &Vec<BrowseEntry>, parent_path: &str, folder_id: &str, files: &mut Vec<FolderFile>)
    ensures
        final(files)@.map_values(|f: FolderFile| item_view(f)) == old(files)@.map_values(
            |f: FolderFile| item_view(f),
        ) + tree_items(entries@, parent_path@, folder_id@),
    decreases entries@,
{
    let ghost start = files@.map_values(|f: FolderFile| item_view(f));
    let mut i: usize = 0;
    while i < entries.len()
        invariant
            i <= entries@.len(),
            start == old(files)@.map_values(|f: FolderFile| item_view(f)),
            files@.map_values(|f: FolderFile| item_view(f)) == start + tree_items(
                entries@.subrange(0, i as int),
                parent_path@,
                folder_id@,
            ),
        decreases entries.len() - i,
    {
        let e = &entries[i];
        let ghost before = files@.map_values(|f: FolderFile| item_view(f));
        let item = entry_item(e, parent_path, folder_id);
        let is_file = item.is_file;
        let path = item.path.clone();
        let ghost iv = item_view(item);
        assert(path@ == entry_path(parent_path@, *e));
        assert(is_file == entry_is_file(*e));
        files.push(item);
        assert(files@.map_values(|f: FolderFile| item_view(f)) =~= before + seq![item_view(item)]);
        let ghost after_item = files@.map_values(|f: FolderFile| item_view(f));
        if !is_file {
            match &e.children {
                Some(children) => {
                    assert(decreases_to!(entries@ => entries@[i as int]));
                    assert(decreases_to!(entries@[i as int] => entries@[i as int].children));
                    assert(decreases_to!(entries@ => children@));
                    traverse_browse_tree(children, path.as_str(), folder_id, files);
                },
                None => {},
            }
        }
        proof {
            let es = entries@.subrange(0, i + 1);
            assert(es.drop_last() =~= entries@.subrange(0, i as int));
            assert(es.last() == *e);
            let rest = if !entry_is_file(*e) && e.children is Some {
                tree_items(e.children->0@, entry_path(parent_path@, *e), folder_id@)
            } else {
                Seq::empty()
            };
            assert(entry_items(*e, parent_path@, folder_id@) == seq![iv] + rest);
            assert(files@.map_values(|f: FolderFile| item_view(f)) =~= after_item + rest);
            assert(tree_items(es, parent_path@, folder_id@) == tree_items(entries@.subrange(0, i as int), parent_path@, folder_id@) + (seq![iv] + rest));
            assert(files@.map_values(|f: FolderFile| item_view(f)) =~= start + tree_items(es, parent_path@, folder_id@));
        }
        i = i + 1;
    }
    assert(entries@.subrange(0, entries@.len() as int) =~= entries@);
}

/// Syncthing's REST base: the `st-url` setting, with `https://` put in front
/// unless it already starts with `http://` or `https://`.
pub open spec fn syncthing_base(st_url: Seq<char>) -> Seq<char> {
    if has_prefix(st_url, "http://"@) || has_prefix(st_url, "https://"@) {
        st_url
    } else {
        "https://"@ + st_url
    }
}

fn starts_with_text(s: &Vec<char>, p: &str) -> (r: bool)
    ensures
        r == has_prefix(s@, p@),
{
    let pv = chars_of(p);
    let b = matches_at(s, &pv, 0);
    assert(occurs_at(s@, p@, 0) == has_prefix(s@, p@));
    b
}

/// See `syncthing_base`.
pub fn syncthing_base_url(st_url: &str) -> (r: String)
    ensures
        r@ == syncthing_base(st_url@),
{
    let v = chars_of(st_url);
    if starts_with_text(&v, "http://") || starts_with_text(&v, "https://") {
        String::from_str(st_url)
    } else {
        let mut u = String::from_str("https://");
        u.append(st_url);
        u
    }
}

/// The request for every file of a folder, at any depth.
pub fn browse_url(base: &str, folder_id: &str) -> (r: String)
    ensures
        r@ == base@ + "/rest/db/browse?folder="@ + folder_id@ + "&levels=-1&prefix="@,
{
    let mut u = String::from_str(base);
    u.append("/rest/db/browse?folder=");
    u.append(folder_id);
    u.append("&levels=-1&prefix=");
    u
}

/// The request for the folder list, below a REST base.
pub fn config_folders_url(base: &str) -> (r: String)
    ensures
        r@ == base@ + "/rest/config/folders"@,
{
    let mut u = String::from_str(base);
    u.append("/rest/config/folders");
    u
}

/// What the periodic update does with one item that Syncthing holds.
#[derive(Debug, Clone, Copy, PartialEq, Eq, Structural)]
pub enum VirtualAction {
    /// Nothing to do.
    Leave,
    /// A selected item is still a placeholder: clear its marker.
    RemoveMarker,
    /// Create an empty placeholder file.
    CreateFile,
    /// Create a directory and mark it as a placeholder.
    CreateDirectory,
}

/// The action for an item: selected items lose a placeholder marker;
/// items that are not selected and absent get a placeholder; anything
/// else is left alone.
pub open spec fn virtual_action_for(selected: bool, present: bool, is_virtual: bool, is_file: bool) -> VirtualAction {
    if selected {
        if present && is_virtual {
            VirtualAction::RemoveMarker
        } else {
            VirtualAction::Leave
        }
    } else if present {
        VirtualAction::Leave
    } else if is_file {
        VirtualAction::CreateFile
    } else {
        VirtualAction::CreateDirectory
    }
}

/// See `virtual_action_for`.
pub fn virtual_action(selected: bool, present: bool, is_virtual: bool, is_file: bool) -> (r: VirtualAction)
    ensures
        r == virtual_action_for(selected, present, is_virtual, is_file),
{
    if selected {
        if present && is_virtual {
            VirtualAction::RemoveMarker
        } else {
            VirtualAction::Leave
        }
    } else if present {
        VirtualAction::Leave
    } else if is_file {
        VirtualAction::CreateFile
    } else {
        VirtualAction::CreateDirectory
    }
}

/// The updater never writes over what is on disk: an item that is present
/// is left alone or only loses its placeholder marker, and one that is not
/// selected is left alone; only an absent, unselected item gets a
/// placeholder, a file for a file and a directory for a directory.
pub proof fn lemma_placeholders_never_overwrite(selected: bool, present: bool, is_virtual: bool, is_file: bool)
    ensures
        present ==> virtual_action_for(selected, present, is_virtual, is_file) == VirtualAction::Leave
            || virtual_action_for(selected, present, is_virtual, is_file) == VirtualAction::RemoveMarker,
        !selected && present ==> virtual_action_for(selected, present, is_virtual, is_file)
            == VirtualAction::Leave,
        selected ==> virtual_action_for(selected, present, is_virtual, is_file) != VirtualAction::CreateFile
            && virtual_action_for(selected, present, is_virtual, is_file) != VirtualAction::CreateDirectory,
        virtual_action_for(selected, present, is_virtual, is_file) == VirtualAction::RemoveMarker ==> selected
            && present && is_virtual,
        !selected && !present ==> virtual_action_for(selected, present, is_virtual, is_file) == (if is_file {
            VirtualAction::CreateFile
        } else {
            VirtualAction::CreateDirectory
        }),
{
}

/// Some selected item has folder `root` and path `path`.
pub open spec fn selected_in(items: Seq<FolderFileSaved>, root: Seq<char>, path: Seq<char>) -> bool {
    exists|i: int| 0 <= i < items.len() && (#[trigger] items[i]).root@ == root && items[i].path@ == path
}

/// See `selected_in`.
pub fn is_selected(items: &Vec<FolderFileSaved>, root: &str, path: &str) -> (r: bool)
    ensures
        r == selected_in(items@, root@, path@),
{
    let mut i: usize = 0;
    while i < items.len()
        invariant
            i <= items@.len(),
            forall|j: int| 0 <= j < i ==> !((#[trigger] items@[j]).root@ == root@ && items@[j].path@ == path@),
        decreases items.len() - i,
    {
        if same_text(items[i].root.as_str(), root) && same_text(items[i].path.as_str(), path) {
            return true;
        }
        i = i + 1;
    }
    false
}

/// Whether a seen access time calls for a sync: the access happened less
/// than a second ago (`since_access_ms`, `None` when it lies in the future)
/// and either the access time moved forward by at least a millisecond since
/// it was last seen (`previous` holds that change, `Some(None)` when it
/// moved back), or, when the file was not seen before, the access happened
/// less than half a second ago.
pub open spec fn access_triggers(since_access_ms: Option<u128>, previous: Option<Option<u128>>) -> bool {
    match since_access_ms {
        None => false,
        Some(d) => d < 1000 && match previous {
            Some(Some(change)) => change > 0,
            Some(None) => false,
            None => d < 500,
        },
    }
}

/// See `access_triggers`.
pub fn should_trigger_sync(since_access_ms: Option<u128>, previous: Option<Option<u128>>) -> (r: bool)
    ensures
        r == access_triggers(since_access_ms, previous),
{
    match since_access_ms {
        None => false,
        Some(d) => d < 1000 && match previous {
            Some(Some(change)) => change > 0,
            Some(None) => false,
            None => d < 500,
        },
    }
}

/// The number of polling ticks between two refreshes of the placeholder cache.
pub const CACHE_REFRESH_TICKS: u32 = 10;

/// One polling tick: the tick counter after it, and whether the cache of
/// placeholders is rebuilt on it (every `CACHE_REFRESH_TICKS` ticks, the
/// counter then starting over from 0).
pub fn cache_tick(counter: u32) -> (r: (u32, bool))
    ensures
        counter + 1 >= CACHE_REFRESH_TICKS ==> r == (0u32, true),
        counter + 1 < CACHE_REFRESH_TICKS ==> r == ((counter + 1) as u32, false),
{
    if counter >= CACHE_REFRESH_TICKS - 1 {
        (0, true)
    } else {
        (counter + 1, false)
    }
}

/// Whether a remembered access time is kept: only while it is less than ten
/// seconds old (`elapsed_secs` is `None` when its age cannot be told, and
/// it is then dropped).
pub fn keep_access_record(elapsed_secs: Option<u64>) -> (r: bool)
    ensures
        r == (elapsed_secs matches Some(e) && e < 10),
{
    match elapsed_secs {
        Some(e) => e < 10,
        None => false,
    }
}

/// The pieces of a list that are not empty.
pub open spec fn nonempty_pieces(ps: Seq<Seq<char>>) -> Seq<Seq<char>>
    decreases ps.len(),
{
    if ps.len() == 0 {
        ps
    } else if ps.last().len() > 0 {
        nonempty_pieces(ps.drop_last()).push(ps.last())
    } else {
        nonempty_pieces(ps.drop_last())
    }
}

/// The pieces joined with `/` between them.
pub open spec fn joined(ps: Seq<Seq<char>>) -> Seq<char>
    decreases ps.len(),
{
    if ps.len() == 0 {
        Seq::empty()
    } else if ps.len() == 1 {
        ps[0]
    } else {
        joined(ps.drop_last()) + "/"@ + ps.last()
    }
}

/// A path relative to its folder with `\` turned into `/`.
pub open spec fn normalized(rel: Seq<char>) -> Seq<char> {
    replace_all(rel, "\\"@, "/"@)
}

/// See `normalized`.
pub fn normalize_separators(rel: &str) -> (r: String)
    ensures
        r@ == normalized(rel@),
{
    replace_str(rel, "\\", "/")
}

/// What an access to a placeholder at `rel` (a path relative to its folder,
/// already normalized) selects: each folder on the way and the item itself,
/// as (path, name, is a file); only the last can be a file, and only when
/// the item is one. A path with no names selects itself, named after the
/// item (`unknown` when it has no name).
pub open spec fn access_entries(rel: Seq<char>, item_is_file: bool, file_name: Option<String>) -> Seq<(Seq<char>, Seq<char>, bool)> {
    let parts = nonempty_pieces(split_char(rel, '/'));
    if parts.len() == 0 {
        seq![(rel, match file_name { Some(n) => n@, None => "unknown"@ }, item_is_file)]
    } else {
        Seq::new(parts.len(), |k: int| (joined(parts.take(k + 1)), parts[k], item_is_file && k == parts.len() - 1))
    }
}

/// The entries of `access_entries` that are not selected yet in folder
/// `root`, as items of that folder, in order.
pub open spec fn new_selections(es: Seq<(Seq<char>, Seq<char>, bool)>, root: Seq<char>, selected: Seq<FolderFileSaved>) -> Seq<(Seq<char>, Seq<char>, Seq<char>, bool)>
    decreases es.len(),
{
    if es.len() == 0 {
        Seq::empty()
    } else {
        new_selections(es.drop_last(), root, selected) + if selected_in(selected, root, es.last().0) {
            Seq::empty()
        } else {
            seq![(root, es.last().1, es.last().0, es.last().2)]
        }
    }
}

proof fn lemma_new_selections_unselected(es: Seq<(Seq<char>, Seq<char>, bool)>, root: Seq<char>, selected: Seq<FolderFileSaved>)
    requires
        forall|i: int| 0 <= i < selected.len() ==> (#[trigger] selected[i]).root@ != root,
    ensures
        new_selections(es, root, selected).len() == es.len(),
        forall|k: int| 0 <= k < es.len() ==> #[trigger] new_selections(es, root, selected)[k] == (root, es[k].1, es[k].0, es[k].2),
    decreases es.len(),
{
    if es.len() > 0 {
        lemma_new_selections_unselected(es.drop_last(), root, selected);
        assert(!selected_in(selected, root, es.last().0));
        let r = new_selections(es, root, selected);
        assert forall|k: int| 0 <= k < es.len() implies #[trigger] r[k] == (root, es[k].1, es[k].0, es[k].2) by {
            if k < es.len() - 1 {
                assert(es.drop_last()[k] == es[k]);
            }
        }
    }
}

proof fn lemma_new_selections_fresh(es: Seq<(Seq<char>, Seq<char>, bool)>, root: Seq<char>, selected: Seq<FolderFileSaved>)
    ensures
        forall|k: int| 0 <= k < new_selections(es, root, selected).len() ==> !selected_in(
            selected,
            root,
            #[trigger] new_selections(es, root, selected)[k].2,
        ) && new_selections(es, root, selected)[k].0 == root,
    decreases es.len(),
{
    if es.len() > 0 {
        lemma_new_selections_fresh(es.drop_last(), root, selected);
        let prev = new_selections(es.drop_last(), root, selected);
        let r = new_selections(es, root, selected);
        assert forall|k: int| 0 <= k < r.len() implies !selected_in(selected, root, #[trigger] r[k].2) && r[k].0
            == root by {
            if k < prev.len() {
                assert(r[k] == prev[k]);
            }
        }
    }
}

/// Opening a placeholder at `rel` in folder `root`, when nothing of that
/// folder is selected yet, selects every folder on the way and the item,
/// one entry per non-empty segment of `rel` in order: the first is the
/// first segment itself, each next one is the previous path, `/` and its
/// own segment, and only the last can be a file (when the item is one). A
/// path with no segment selects itself. Whatever is selected, no entry is
/// one that is selected already, and every entry is in `root`.
pub proof fn lemma_access_selects_the_way(
    rel: Seq<char>,
    item_is_file: bool,
    file_name: Option<String>,
    root: Seq<char>,
    selected: Seq<FolderFileSaved>,
)
    ensures
        ({
            let parts = nonempty_pieces(split_char(rel, '/'));
            let r = new_selections(access_entries(rel, item_is_file, file_name), root, selected);
            let n = parts.len();
            (forall|i: int| 0 <= i < selected.len() ==> (#[trigger] selected[i]).root@ != root) ==> {
                &&& n > 0 ==> r.len() == n
                &&& n > 0 ==> forall|k: int|
                    0 <= k < n ==> (#[trigger] r[k]).0 == root && r[k].1 == parts[k] && r[k].3 == (item_is_file
                        && k == n - 1)
                &&& n > 0 ==> r[0].2 == parts[0]
                &&& n > 0 ==> forall|k: int| 0 < k < n ==> (#[trigger] r[k]).2 == r[k - 1].2 + "/"@ + parts[k]
                &&& n == 0 ==> r.len() == 1 && r[0].2 == rel && r[0].3 == item_is_file
            }
        }),
        forall|k: int|
            0 <= k < new_selections(access_entries(rel, item_is_file, file_name), root, selected).len()
                ==> !selected_in(
                selected,
                root,
                #[trigger] new_selections(access_entries(rel, item_is_file, file_name), root, selected)[k].2,
            ),
{
    let parts = nonempty_pieces(split_char(rel, '/'));
    let es = access_entries(rel, item_is_file, file_name);
    let n = parts.len();
    lemma_new_selections_fresh(es, root, selected);
    if forall|i: int| 0 <= i < selected.len() ==> (#[trigger] selected[i]).root@ != root {
        lemma_new_selections_unselected(es, root, selected);
        let r = new_selections(es, root, selected);
        if n > 0 {
            assert(r[0] == (root, es[0].1, es[0].0, es[0].2));
            assert(parts.take(1).len() == 1 && parts.take(1)[0] == parts[0]);
            assert forall|k: int| 0 < k < n implies (#[trigger] r[k]).2 == r[k - 1].2 + "/"@ + parts[k] by {
                let t = parts.take(k + 1);
                assert(t.drop_last() =~= parts.take(k));
                assert(t.last() == parts[k]);
                assert(r[k] == (root, es[k].1, es[k].0, es[k].2));
                assert(r[k - 1] == (root, es[k - 1].1, es[k - 1].0, es[k - 1].2));
            }
            assert forall|k: int| 0 <= k < n implies (#[trigger] r[k]).0 == root && r[k].1 == parts[k] && r[k].3
                == (item_is_file && k == n - 1) by {
                assert(r[k] == (root, es[k].1, es[k].0, es[k].2));
            }
        } else {
            assert(r[0] == (root, es[0].1, es[0].0, es[0].2));
        }
    }
}

/// The non-empty pieces of `s` between `/` characters.
pub fn path_segments(s: &str) -> (r: Vec<String>)
    ensures
        r@.map_values(|x: String| x@) == nonempty_pieces(split_char(s@, '/')),
{
    let v = chars_of(s);
    let n = v.len();
    let mut out: Vec<String> = Vec::new();
    let mut seg: usize = 0;
    let mut i: usize = 0;
    let ghost mut done: Seq<Seq<char>> = Seq::empty();
    assert(s@.subrange(0, 0) =~= Seq::<char>::empty());
    assert(out@.map_values(|x: String| x@) =~= nonempty_pieces(done));
    while i < n
        invariant
            v@ == s@,
            n == v.len(),
            seg <= i <= n,
            split_char(s@.subrange(0, i as int), '/') == done.push(s@.subrange(seg as int, i as int)),
            out@.map_values(|x: String| x@) == nonempty_pieces(done),
        decreases n - i,
    {
        let ghost pre = s@.subrange(0, i as int);
        assert(s@.subrange(0, i + 1).drop_last() =~= pre);
        assert(s@.subrange(0, i + 1).last() == v@[i as int]);
        if v[i] == '/' {
            let ghost piece = s@.subrange(seg as int, i as int);
            assert(done.push(piece).drop_last() =~= done);
            if seg < i {
                let p = s.substring_char(seg, i).to_owned();
                out.push(p);
                assert(out@.map_values(|x: String| x@) =~= nonempty_pieces(done).push(piece));
            }
            proof {
                done = done.push(piece);
                assert(s@.subrange(i + 1, i + 1) =~= Seq::<char>::empty());
            }
            i = i + 1;
            seg = i;
        } else {
            proof {
                assert(s@.subrange(seg as int, i as int).push(v@[i as int]) =~= s@.subrange(seg as int, i + 1));
                let prev = done.push(s@.subrange(seg as int, i as int));
                assert(prev.update(prev.len() - 1, prev.last().push(v@[i as int])) =~= done.push(s@.subrange(seg as int, i + 1)));
            }
            i = i + 1;
        }
    }
    let ghost piece = s@.subrange(seg as int, n as int);
    assert(done.push(piece).drop_last() =~= done);
    if seg < n {
        let p = s.substring_char(seg, n).to_owned();
        out.push(p);
        assert(out@.map_values(|x: String| x@) =~= nonempty_pieces(done).push(piece));
    }
    assert(s@.subrange(0, n as int) =~= s@);
    out
}

/// The items that an access to the placeholder at `rel` (normalized)
/// adds to the selection of folder `root`: see `access_entries` and
/// `new_selections`.
pub fn access_selection(rel: &str, item_is_file: bool, file_name: Option<String>, root: &str, selected: &Vec<FolderFileSaved>) -> (r: Vec<FolderFile>)
    ensures
        r@.map_values(|f: FolderFile| item_view(f)) == new_selections(access_entries(rel@, item_is_file, file_name), root@, selected@),
{
    let ghost es = access_entries(rel@, item_is_file, file_name);
    let parts = path_segments(rel);
    let ghost ps = parts@.map_values(|x: String| x@);
    let mut out: Vec<FolderFile> = Vec::new();
    assert(out@.map_values(|f: FolderFile| item_view(f)) =~= new_selections(es.take(0), root@, selected@));
    if parts.len() == 0 {
        let name = match file_name {
            Some(n) => n,
            None => String::from_str("unknown"),
        };
        if !is_selected(selected, root, rel) {
            out.push(FolderFile { id: String::from_str(root), name, path: String::from_str(rel), is_file: item_is_file });
        }
        assert(es.drop_last() =~= Seq::<(Seq<char>, Seq<char>, bool)>::empty());
        assert(out@.map_values(|f: FolderFile| item_view(f)) =~= new_selections(es, root@, selected@));
        return out;
    }
    let mut current = String::new();
    let mut k: usize = 0;
    while k < parts.len()
        invariant
            ps == parts@.map_values(|x: String| x@),
            ps.len() > 0,
            es == Seq::new(ps.len(), |j: int| (joined(ps.take(j + 1)), ps[j], item_is_file && j == ps.len() - 1)),
            k <= parts@.len(),
            k == 0 ==> current@ == Seq::<char>::empty(),
            k > 0 ==> current@ == joined(ps.take(k as int)),
            out@.map_values(|f: FolderFile| item_view(f)) == new_selections(es.take(k as int), root@, selected@),
        decreases parts.len() - k,
    {
        let ghost prior = current@;
        if k > 0 {
            current.append("/");
        }
        current.append(parts[k].as_str());
        proof {
            let t = ps.take(k + 1);
            assert(ps[k as int] == parts@[k as int]@);
            assert(t.last() == ps[k as int]);
            if k == 0 {
                assert(current@ =~= ps[0]);
            } else {
                reveal_strlit("/");
                assert(t.drop_last() =~= ps.take(k as int));
                assert(current@ =~= prior + "/"@ + ps[k as int]);
            }
            assert(current@ == joined(t));
        }
        let is_file = item_is_file && k == parts.len() - 1;
        if !is_selected(selected, root, current.as_str()) {
            out.push(FolderFile { id: String::from_str(root), name: parts[k].clone(), path: current.clone(), is_file });
        }
        proof {
            let et = es.take(k + 1);
            assert(et.drop_last() =~= es.take(k as int));
            assert(et.last() == (joined(ps.take(k + 1)), ps[k as int], item_is_file && k == ps.len() - 1));
            assert(out@.map_values(|f: FolderFile| item_view(f)) =~= new_selections(et, root@, selected@));
        }
        k = k + 1;
    }
    assert(es.take(es.len() as int) =~= es);
    out
}

} // verus!
