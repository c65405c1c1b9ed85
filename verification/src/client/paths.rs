//! Selected paths: which lie below which, and merging children into parents.
use vstd::prelude::*;
use crate::text::{
    chars_of, is_child_of, lies_below, text_lt, text_less, lemma_text_lt_irreflexive,
    lemma_text_lt_total, lemma_text_lt_transitive,
};
use crate::client::structs::{FolderFile, FolderFileSaved, SyncStatus};

verus! {

/// Whether `child_path` lies strictly below `parent_path`.
pub fn is_child_path(parent_path: &str, child_path: &str) -> (r: bool)
    ensures
        r == is_child_of(parent_path@, child_path@),
{
    let p = chars_of(parent_path);
    let c = chars_of(child_path);
    lies_below(&p, &c)
}

/// Lying below is transitive: a path below a child of `a` is below `a`.
pub proof fn lemma_child_of_child(a: Seq<char>, b: Seq<char>, c: Seq<char>)
    requires
        is_child_of(a, b),
        is_child_of(b, c),
    ensures
        is_child_of(a, c),
{
    assert(c.subrange(0, b.len() as int) == b);
    assert(c[a.len() as int] == c.subrange(0, b.len() as int)[a.len() as int]);
    assert(c.subrange(0, a.len() as int) =~= b.subrange(0, a.len() as int));
}

/// A path lies below only shorter paths.
pub proof fn lemma_child_is_longer(a: Seq<char>, b: Seq<char>)
    requires
        is_child_of(a, b),
    ensures
        a.len() < b.len(),
{
}

/// No path lies below itself.
pub proof fn lemma_not_child_of_itself(a: Seq<char>)
    ensures
        !is_child_of(a, a),
{
}

/// The paths of a list of saved items.
pub open spec fn paths_of(fs: Seq<FolderFileSaved>) -> Seq<Seq<char>> {
    fs.map_values(|f: FolderFileSaved| f.path@)
}

/// Among the first `n` paths, the first of the shortest ones under which
/// `p` lies strictly: its topmost parent there.
pub open spec fn top_parent(ps: Seq<Seq<char>>, p: Seq<char>, n: int) -> Option<int>
    decreases n,
{
    if n <= 0 {
        None
    } else {
        let rest = top_parent(ps, p, n - 1);
        if is_child_of(ps[n - 1], p) && (rest is None || ps[n - 1].len() < ps[rest->0].len()) {
            Some(n - 1)
        } else {
            rest
        }
    }
}

/// The path that `p` is consolidated to among `ps`: its topmost parent
/// among `ps`, or itself when it lies below none of them.
pub open spec fn consolidated(ps: Seq<Seq<char>>, p: Seq<char>) -> Seq<char> {
    match top_parent(ps, p, ps.len() as int) {
        Some(j) => ps[j],
        None => p,
    }
}

/// A saved item as plain values: id, folder, path, kind and status.
pub open spec fn saved_view(f: FolderFileSaved) -> (i32, Seq<char>, Seq<char>, bool, SyncStatus) {
    (f.id, f.root@, f.path@, f.is_file, f.sync_status)
}

/// Item `k` of `fs` with its path consolidated.
pub open spec fn consolidated_item(fs: Seq<FolderFileSaved>, k: int) -> (i32, Seq<char>, Seq<char>, bool, SyncStatus) {
    (fs[k].id, fs[k].root@, consolidated(paths_of(fs), fs[k].path@), fs[k].is_file, fs[k].sync_status)
}

/// Item `k` is the first of `fs` whose consolidated path is its consolidated path.
#[verifier::opaque]
pub open spec fn first_of_its_path(fs: Seq<FolderFileSaved>, k: int) -> bool {
    forall|k2: int|
        0 <= k2 < k ==> consolidated(paths_of(fs), (#[trigger] fs[k2]).path@) != consolidated(
            paths_of(fs),
            fs[k].path@,
        )
}

/// The result of `consolidate_paths` on `fs`: the items sorted by path with
/// no path twice, each path the consolidated path of some item, every
/// consolidated path present, and each kept item the first one (in the
/// order of `fs`) that has its path.
pub open spec fn is_consolidation(fs: Seq<FolderFileSaved>, r: Seq<FolderFileSaved>) -> bool {
    &&& consolidation_sorted(r)
    &&& consolidation_sound(fs, r)
    &&& consolidation_complete(fs, r)
}

/// No path of `r` lies below another.
pub open spec fn consolidation_flat(r: Seq<FolderFileSaved>) -> bool {
    forall|a: int, b: int| 0 <= a < r.len() && 0 <= b < r.len() ==> !is_child_of(
        (#[trigger] r[a]).path@,
        (#[trigger] r[b]).path@,
    )
}

/// The paths of `r` increase strictly.
pub open spec fn consolidation_sorted(r: Seq<FolderFileSaved>) -> bool {
    forall|a: int, b: int| 0 <= a < b < r.len() ==> text_lt((#[trigger] r[a]).path@, (#[trigger] r[b]).path@)
}

/// Item `a` of `r` is the first item of `fs` with its consolidated path,
/// with that path.
pub open spec fn has_source(fs: Seq<FolderFileSaved>, r: Seq<FolderFileSaved>, a: int) -> bool {
    exists|k: int|
        #![trigger consolidated_item(fs, k)]
        0 <= k < fs.len() && first_of_its_path(fs, k) && saved_view(r[a]) == consolidated_item(fs, k)
}

/// Every item of `r` has a source in `fs`.
pub open spec fn consolidation_sound(fs: Seq<FolderFileSaved>, r: Seq<FolderFileSaved>) -> bool {
    forall|a: int| 0 <= a < r.len() ==> #[trigger] has_source(fs, r, a)
}

/// The consolidated path of item `k` of `fs` is the path of an item of `r`.
pub open spec fn is_placed(fs: Seq<FolderFileSaved>, r: Seq<FolderFileSaved>, k: int) -> bool {
    exists|a: int| #![trigger r[a]] 0 <= a < r.len() && r[a].path@ == consolidated(paths_of(fs), fs[k].path@)
}

/// Every consolidated path of `fs` is the path of an item of `r`.
pub open spec fn consolidation_complete(fs: Seq<FolderFileSaved>, r: Seq<FolderFileSaved>) -> bool {
    forall|k: int| 0 <= k < fs.len() ==> #[trigger] is_placed(fs, r, k)
}

/// `r` is what `consolidate_paths` has built after the first `k` items of
/// `fs`; `src[a]` is the item that `r[a]` came from, `pos[k0]` where the
/// path of item `k0` is.
#[verifier::opaque]
pub open spec fn partial_consolidation(fs: Seq<FolderFileSaved>, r: Seq<FolderFileSaved>, k: int, src: Seq<int>, pos: Seq<int>) -> bool {
    &&& forall|a: int, b: int| 0 <= a < b < r.len() ==> text_lt((#[trigger] r[a]).path@, (#[trigger] r[b]).path@)
    &&& src.len() == r.len()
    &&& forall|a: int|
        0 <= a < r.len() ==> 0 <= #[trigger] src[a] < k && first_of_its_path(fs, src[a]) && saved_view(r[a])
            == consolidated_item(fs, src[a])
    &&& pos.len() == k
    &&& forall|k0: int|
        0 <= k0 < k ==> 0 <= #[trigger] pos[k0] < r.len() && r[pos[k0]].path@ == consolidated(
            paths_of(fs),
            fs[k0].path@,
        )
}

proof fn lemma_top_parent(ps: Seq<Seq<char>>, p: Seq<char>, n: int)
    requires
        n <= ps.len(),
    ensures
        top_parent(ps, p, n) matches Some(j) ==> 0 <= j < n && is_child_of(ps[j], p) && forall|i: int|
            0 <= i < n && #[trigger] is_child_of(ps[i], p) ==> ps[j].len() <= ps[i].len(),
        top_parent(ps, p, n) is None ==> forall|i: int| 0 <= i < n ==> !#[trigger] is_child_of(ps[i], p),
    decreases n,
{
    if n > 0 {
        lemma_top_parent(ps, p, n - 1);
    }
}

/// No consolidated path lies below another: each is a topmost parent or a
/// path with no parent at all.
pub proof fn lemma_consolidated_not_below(ps: Seq<Seq<char>>, k1: int, k2: int)
    requires
        0 <= k1 < ps.len(),
        0 <= k2 < ps.len(),
    ensures
        !is_child_of(consolidated(ps, ps[k1]), consolidated(ps, ps[k2])),
{
    let n = ps.len() as int;
    let c1 = consolidated(ps, ps[k1]);
    let c2 = consolidated(ps, ps[k2]);
    lemma_top_parent(ps, ps[k1], n);
    lemma_top_parent(ps, ps[k2], n);
    let i1 = match top_parent(ps, ps[k1], n) {
        Some(j) => j,
        None => k1,
    };
    assert(ps[i1] == c1);
    if is_child_of(c1, c2) {
        match top_parent(ps, ps[k2], n) {
            Some(j2) => {
                lemma_child_of_child(c1, c2, ps[k2]);
                assert(is_child_of(ps[i1], ps[k2]));
                lemma_child_is_longer(c1, c2);
            },
            None => {
                assert(is_child_of(ps[i1], ps[k2]));
            },
        }
    }
}

/// A selected path that lies below no other selected path survives
/// consolidation unchanged.
pub proof fn lemma_unparented_path_kept(fs: Seq<FolderFileSaved>, r: Seq<FolderFileSaved>, k: int)
    requires
        is_consolidation(fs, r),
        0 <= k < fs.len(),
        forall|j: int| 0 <= j < fs.len() ==> !is_child_of(#[trigger] fs[j].path@, fs[k].path@),
    ensures
        exists|a: int| 0 <= a < r.len() && (#[trigger] r[a]).path@ == fs[k].path@,
{
    let ps = paths_of(fs);
    lemma_top_parent(ps, fs[k].path@, ps.len() as int);
    if top_parent(ps, fs[k].path@, ps.len() as int) is Some {
        let j = top_parent(ps, fs[k].path@, ps.len() as int)->0;
        assert(ps[j] == fs[j].path@);
    }
    assert(consolidated(ps, fs[k].path@) == fs[k].path@);
    assert(is_placed(fs, r, k));
}

proof fn lemma_duplicate_step(fs: Seq<FolderFileSaved>, r: Seq<FolderFileSaved>, k: int, x: int, src: Seq<int>, pos: Seq<int>)
    requires
        0 <= k < fs.len(),
        0 <= x < r.len(),
        partial_consolidation(fs, r, k, src, pos),
        r[x].path@ == consolidated(paths_of(fs), fs[k].path@),
    ensures
        partial_consolidation(fs, r, k + 1, src, pos.push(x)),
{
    reveal(partial_consolidation);
    let npos = pos.push(x);
    assert forall|k0: int| 0 <= k0 < k + 1 implies 0 <= #[trigger] npos[k0] < r.len() && r[npos[k0]].path@
        == consolidated(paths_of(fs), fs[k0].path@) by {
        if k0 < k {
            assert(npos[k0] == pos[k0]);
        }
    }
}

proof fn lemma_insert_step(fs: Seq<FolderFileSaved>, r: Seq<FolderFileSaved>, k: int, x: int, item: FolderFileSaved, src: Seq<int>, pos: Seq<int>) -> (res: (Seq<int>, Seq<int>))
    requires
        0 <= k < fs.len(),
        0 <= x <= r.len(),
        partial_consolidation(fs, r, k, src, pos),
        forall|a: int| 0 <= a < x ==> text_lt((#[trigger] r[a]).path@, item.path@),
        x < r.len() ==> !text_lt(r[x].path@, item.path@) && r[x].path@ != item.path@,
        saved_view(item) == consolidated_item(fs, k),
    ensures
        partial_consolidation(fs, r.insert(x, item), k + 1, res.0, res.1),
{
    reveal(partial_consolidation);
    let cp = item.path@;
    let nr = r.insert(x, item);
    let nsrc = src.insert(x, k);
    let npos = pos.map_values(|i: int| if i >= x { i + 1 } else { i }).push(x);
    assert forall|a: int| x <= a < r.len() implies text_lt(cp, #[trigger] r[a].path@) by {
        lemma_text_lt_total(r[x].path@, cp);
        if a > x {
            lemma_text_lt_transitive(cp, r[x].path@, r[a].path@);
        }
    }
    assert(first_of_its_path(fs, k)) by {
        reveal(first_of_its_path);
        assert forall|k2: int| 0 <= k2 < k implies consolidated(paths_of(fs), (#[trigger] fs[k2]).path@) != cp by {
            if consolidated(paths_of(fs), fs[k2].path@) == cp {
                let a = pos[k2];
                assert(r[a].path@ == cp);
                lemma_text_lt_irreflexive(cp);
            }
        }
    }
    assert forall|a: int, b: int| 0 <= a < b < nr.len() implies text_lt((#[trigger] nr[a]).path@, (#[trigger] nr[b]).path@) by {
        if b < x {
            assert(nr[a] == r[a] && nr[b] == r[b]);
        } else if b == x {
            assert(nr[a] == r[a]);
        } else if a < x {
            assert(nr[a] == r[a] && nr[b] == r[b - 1]);
            lemma_text_lt_transitive(r[a].path@, cp, r[b - 1].path@);
        } else if a == x {
            assert(nr[b] == r[b - 1]);
        } else {
            assert(nr[a] == r[a - 1] && nr[b] == r[b - 1]);
        }
    }
    assert forall|a: int| 0 <= a < nr.len() implies 0 <= #[trigger] nsrc[a] < k + 1 && first_of_its_path(fs, nsrc[a])
        && saved_view(nr[a]) == consolidated_item(fs, nsrc[a]) by {
        if a < x {
            assert(nr[a] == r[a] && nsrc[a] == src[a]);
        } else if a == x {
        } else {
            assert(nr[a] == r[a - 1] && nsrc[a] == src[a - 1]);
        }
    }
    assert forall|k0: int| 0 <= k0 < k + 1 implies 0 <= #[trigger] npos[k0] < nr.len() && nr[npos[k0]].path@
        == consolidated(paths_of(fs), fs[k0].path@) by {
        if k0 < k {
            let a = pos[k0];
            if a < x {
                assert(npos[k0] == a);
                assert(nr[a] == r[a]);
            } else {
                assert(npos[k0] == a + 1);
                assert(nr[a + 1] == r[a]);
            }
        }
    }
    (nsrc, npos)
}

fn top_parent_index(pv: &Vec<Vec<char>>, p: &Vec<char>) -> (r: Option<usize>)
    ensures
        match r {
            Some(j) => top_parent(pv@.map_values(|v: Vec<char>| v@), p@, pv@.len() as int) == Some(j as int),
            None => top_parent(pv@.map_values(|v: Vec<char>| v@), p@, pv@.len() as int) is None,
        },
{
    let ghost ps = pv@.map_values(|v: Vec<char>| v@);
    let mut found: Option<usize> = None;
    let mut j: usize = 0;
    while j < pv.len()
        invariant
            j <= pv@.len(),
            ps == pv@.map_values(|v: Vec<char>| v@),
            match found {
                Some(x) => top_parent(ps, p@, j as int) == Some(x as int) && x < j,
                None => top_parent(ps, p@, j as int) is None,
            },
        decreases pv.len() - j,
    {
        if lies_below(&pv[j], p) {
            let shorter = match found {
                None => true,
                Some(x) => pv[j].len() < pv[x].len(),
            };
            if shorter {
                found = Some(j);
            }
        }
        j = j + 1;
    }
    found
}

/// Replaces each path by the path of its topmost parent among the items,
/// then sorts by path and keeps the first item of each path; no kept path
/// lies below another.
pub fn consolidate_paths(folder_files: &mut Vec<FolderFileSaved>)
    ensures
        is_consolidation(old(folder_files)@, final(folder_files)@),
        consolidation_flat(final(folder_files)@),
{
    let ghost fs = folder_files@;
    let n = folder_files.len();
    let mut pv: Vec<Vec<char>> = Vec::new();
    let mut i: usize = 0;
    while i < n
        invariant
            folder_files@ == fs,
            n == fs.len(),
            i <= n,
            pv@.len() == i,
            forall|a: int| 0 <= a < i ==> (#[trigger] pv@[a])@ == fs[a].path@,
        decreases n - i,
    {
        pv.push(chars_of(folder_files[i].path.as_str()));
        i = i + 1;
    }
    assert(pv@.map_values(|v: Vec<char>| v@) =~= paths_of(fs));
    let ghost mut src: Seq<int> = Seq::empty();
    let ghost mut pos: Seq<int> = Seq::empty();
    proof {
        reveal(partial_consolidation);
    }
    let mut result: Vec<FolderFileSaved> = Vec::new();
    let mut rp: Vec<Vec<char>> = Vec::new();
    let mut k: usize = 0;
    while k < n
        invariant
            folder_files@ == fs,
            n == fs.len(),
            k <= n,
            pv@.len() == n,
            forall|a: int| 0 <= a < n ==> (#[trigger] pv@[a])@ == fs[a].path@,
            pv@.map_values(|v: Vec<char>| v@) == paths_of(fs),
            rp@.len() == result@.len(),
            forall|a: int| 0 <= a < rp@.len() ==> (#[trigger] rp@[a])@ == result@[a].path@,
            partial_consolidation(fs, result@, k as int, src, pos),
        decreases n - k,
    {
        let found = top_parent_index(&pv, &pv[k]);
        proof {
            lemma_top_parent(paths_of(fs), fs[k as int].path@, n as int);
        }
        let (path, pchars) = match found {
            Some(j) => (folder_files[j].path.clone(), pv[j].clone()),
            None => (folder_files[k].path.clone(), pv[k].clone()),
        };
        let ghost cp = consolidated(paths_of(fs), fs[k as int].path@);
        proof {
            reveal(consolidated);
        }
        assert(path@ == cp);
        assert(pchars@ == cp);
        let mut x: usize = 0;
        while x < rp.len() && text_less(&rp[x], &pchars)
            invariant
                x <= rp@.len(),
                forall|a: int| 0 <= a < x ==> text_lt((#[trigger] rp@[a])@, pchars@),
            decreases rp.len() - x,
        {
            x = x + 1;
        }
        let duplicate = x < rp.len() && crate::text::same_chars(&rp[x], &pchars);
        if duplicate {
            proof {
                lemma_duplicate_step(fs, result@, k as int, x as int, src, pos);
                pos = pos.push(x as int);
            }
        } else {
            let item = FolderFileSaved {
                id: folder_files[k].id,
                root: folder_files[k].root.clone(),
                path,
                is_file: folder_files[k].is_file,
                sync_status: folder_files[k].sync_status,
            };
            proof {
                assert forall|a: int| 0 <= a < x implies text_lt((#[trigger] result@[a]).path@, item.path@) by {
                    assert(rp@[a]@ == result@[a].path@);
                }
                let (s2, p2) = lemma_insert_step(fs, result@, k as int, x as int, item, src, pos);
                src = s2;
                pos = p2;
            }
            let ghost old_rp = rp@;
            let ghost old_result = result@;
            result.insert(x, item);
            rp.insert(x, pchars);
            proof {
                assert forall|a: int| 0 <= a < rp@.len() implies (#[trigger] rp@[a])@ == result@[a].path@ by {
                    if a < x {
                        assert(rp@[a] == old_rp[a] && result@[a] == old_result[a]);
                    } else if a > x {
                        assert(rp@[a] == old_rp[a - 1] && result@[a] == old_result[a - 1]);
                    }
                }
            }
        }
        k = k + 1;
    }
    proof {
        reveal(partial_consolidation);
        assert forall|a: int| 0 <= a < result@.len() implies #[trigger] has_source(fs, result@, a) by {
            assert(0 <= src[a] < fs.len() && first_of_its_path(fs, src[a]) && saved_view(result@[a])
                == consolidated_item(fs, src[a]));
        }
        assert forall|k: int| 0 <= k < fs.len() implies #[trigger] is_placed(fs, result@, k) by {
            assert(0 <= pos[k] < result@.len() && result@[pos[k]].path@ == consolidated(paths_of(fs), fs[k].path@));
        }
        assert(is_consolidation(fs, result@)) by {
            assert(consolidation_sorted(result@));
            assert(consolidation_sound(fs, result@));
            assert(consolidation_complete(fs, result@));
        }
        assert forall|a: int, b: int| 0 <= a < result@.len() && 0 <= b < result@.len() implies !is_child_of(
            (#[trigger] result@[a]).path@,
            (#[trigger] result@[b]).path@,
        ) by {
            assert(result@[a].path@ == consolidated(paths_of(fs), paths_of(fs)[src[a]]));
            assert(result@[b].path@ == consolidated(paths_of(fs), paths_of(fs)[src[b]]));
            lemma_consolidated_not_below(paths_of(fs), src[a], src[b]);
        }
    }
    *folder_files = result;
}

/// When `folder_file` lies strictly below the path of one of the saved
/// items, its path becomes the first such item's path.
pub fn update_folder_file(folder_file: &mut FolderFile, folder_files: &Vec<FolderFileSaved>)
    ensures
        final(folder_file).id == old(folder_file).id,
        final(folder_file).name == old(folder_file).name,
        final(folder_file).is_file == old(folder_file).is_file,
        match first_parent(folder_files@, old(folder_file).path@) {
            Some(j) => final(folder_file).path@ == folder_files@[j].path@,
            None => final(folder_file).path == old(folder_file).path,
        },
{
    let mut i: usize = 0;
    while i < folder_files.len()
        invariant
            i <= folder_files@.len(),
            *folder_file == *old(folder_file),
            forall|j: int| 0 <= j < i ==> !is_child_of((#[trigger] folder_files@[j]).path@, old(folder_file).path@),
        decreases folder_files.len() - i,
    {
        if is_child_path(folder_files[i].path.as_str(), folder_file.path.as_str()) {
            folder_file.path = folder_files[i].path.clone();
            proof {
                assert(first_parent_from(folder_files@, old(folder_file).path@, i as int) == Some(i as int));
                lemma_first_parent(folder_files@, old(folder_file).path@, 0, i as int);
            }
            return;
        }
        i = i + 1;
    }
    proof {
        lemma_no_parent(folder_files@, old(folder_file).path@, 0);
    }
}

/// The first saved item at or after `from` under whose path `p` lies strictly.
pub open spec fn first_parent_from(fs: Seq<FolderFileSaved>, p: Seq<char>, from: int) -> Option<int>
    decreases fs.len() - from,
{
    if from < 0 || from >= fs.len() {
        None
    } else if is_child_of(fs[from].path@, p) {
        Some(from)
    } else {
        first_parent_from(fs, p, from + 1)
    }
}

/// The first saved item under whose path `p` lies strictly.
pub open spec fn first_parent(fs: Seq<FolderFileSaved>, p: Seq<char>) -> Option<int> {
    first_parent_from(fs, p, 0)
}

proof fn lemma_first_parent(fs: Seq<FolderFileSaved>, p: Seq<char>, from: int, i: int)
    requires
        0 <= from <= i < fs.len(),
        is_child_of(fs[i].path@, p),
        forall|j: int| from <= j < i ==> !is_child_of((#[trigger] fs[j]).path@, p),
    ensures
        first_parent_from(fs, p, from) == Some(i),
    decreases i - from,
{
    if from < i {
        lemma_first_parent(fs, p, from + 1, i);
    }
}

proof fn lemma_no_parent(fs: Seq<FolderFileSaved>, p: Seq<char>, from: int)
    requires
        0 <= from,
        forall|j: int| from <= j < fs.len() ==> !is_child_of((#[trigger] fs[j]).path@, p),
    ensures
        first_parent_from(fs, p, from) is None,
    decreases fs.len() - from,
{
    if from < fs.len() {
        lemma_no_parent(fs, p, from + 1);
    }
}

} // verus!
