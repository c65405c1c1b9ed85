//! The order of items in the folder browser: folders first, then by name.
use vstd::prelude::*;
use crate::text::{chars_of, text_lt, text_less, lemma_text_lt_irreflexive, lemma_text_lt_total, lemma_text_lt_transitive, lemma_text_lt_asymmetric};
use crate::client::structs::FolderFile;

verus! {

/// `a` comes before `b`: a folder before a file, otherwise by name.
pub open spec fn listed_before(a: FolderFile, b: FolderFile) -> bool {
    (!a.is_file && b.is_file) || (a.is_file == b.is_file && text_lt(a.name@, b.name@))
}

/// `a` and `b` sort as equals: same kind and same name.
pub open spec fn same_rank(a: FolderFile, b: FolderFile) -> bool {
    a.is_file == b.is_file && a.name@ == b.name@
}

/// The items of `s` that sort as equals of `x`, in their order in `s`.
pub open spec fn rank_class(s: Seq<FolderFile>, x: FolderFile) -> Seq<FolderFile>
    decreases s.len(),
{
    if s.len() == 0 {
        Seq::empty()
    } else {
        rank_class(s.drop_last(), x) + if same_rank(s.last(), x) {
            seq![s.last()]
        } else {
            Seq::empty()
        }
    }
}

/// `r` is `s` sorted with a stable sort: in order, and each class of
/// equals in the order it had in `s`.
pub open spec fn is_stable_listing(s: Seq<FolderFile>, r: Seq<FolderFile>) -> bool {
    &&& forall|i: int, j: int| 0 <= i < j < r.len() ==> !listed_before(#[trigger] r[j], #[trigger] r[i])
    &&& forall|x: FolderFile| #[trigger] rank_class(r, x) == rank_class(s, x)
}

proof fn lemma_rank_class_concat(a: Seq<FolderFile>, b: Seq<FolderFile>, x: FolderFile)
    ensures
        rank_class(a + b, x) == rank_class(a, x) + rank_class(b, x),
    decreases b.len(),
{
    if b.len() == 0 {
        assert(a + b =~= a);
    } else {
        lemma_rank_class_concat(a, b.drop_last(), x);
        assert((a + b).drop_last() =~= a + b.drop_last());
    }
}

proof fn lemma_rank_class_none(b: Seq<FolderFile>, x: FolderFile)
    requires
        forall|j: int| 0 <= j < b.len() ==> !same_rank(#[trigger] b[j], x),
    ensures
        rank_class(b, x) == Seq::<FolderFile>::empty(),
    decreases b.len(),
{
    if b.len() > 0 {
        lemma_rank_class_none(b.drop_last(), x);
    }
}

proof fn lemma_order_facts(a: FolderFile, b: FolderFile, c: FolderFile)
    ensures
        !listed_before(a, a),
        !(listed_before(a, b) && listed_before(b, a)),
        listed_before(a, b) || listed_before(b, a) || same_rank(a, b),
        listed_before(a, b) && listed_before(b, c) ==> listed_before(a, c),
        listed_before(a, b) && !listed_before(c, b) ==> listed_before(a, c),
        same_rank(a, b) ==> !listed_before(a, b),
{
    lemma_text_lt_irreflexive(a.name@);
    lemma_text_lt_asymmetric(a.name@, b.name@);
    lemma_text_lt_total(a.name@, b.name@);
    lemma_text_lt_total(b.name@, c.name@);
    if text_lt(a.name@, b.name@) && text_lt(b.name@, c.name@) {
        lemma_text_lt_transitive(a.name@, b.name@, c.name@);
    }
}

proof fn lemma_insert_keeps_classes(r: Seq<FolderFile>, p: int, e: FolderFile, x: FolderFile)
    requires
        0 <= p <= r.len(),
        forall|j: int| p <= j < r.len() ==> listed_before(e, #[trigger] r[j]),
    ensures
        rank_class(r.insert(p, e), x) == rank_class(r, x) + if same_rank(e, x) {
            seq![e]
        } else {
            Seq::empty()
        },
{
    let front = r.subrange(0, p);
    let back = r.subrange(p, r.len() as int);
    assert(r =~= front + back);
    assert(r.insert(p, e) =~= front + seq![e] + back);
    lemma_rank_class_concat(front + seq![e], back, x);
    lemma_rank_class_concat(front, seq![e], x);
    lemma_rank_class_concat(front, back, x);
    assert(seq![e].drop_last() =~= Seq::<FolderFile>::empty());
    let single = if same_rank(e, x) {
        seq![e]
    } else {
        Seq::empty()
    };
    assert(rank_class(Seq::<FolderFile>::empty(), x) =~= Seq::<FolderFile>::empty());
    assert(seq![e].last() == e);
    assert(rank_class(seq![e], x) == rank_class(seq![e].drop_last(), x) + single);
    assert(rank_class(seq![e], x) =~= single);
    if same_rank(e, x) {
        assert forall|j: int| 0 <= j < back.len() implies !same_rank(#[trigger] back[j], x) by {
            lemma_order_facts(e, back[j], x);
            lemma_text_lt_irreflexive(e.name@);
        }
        lemma_rank_class_none(back, x);
        assert(rank_class(front, x) + single + rank_class(back, x) =~= rank_class(front, x) + rank_class(back, x) + single);
    } else {
        assert(rank_class(front, x) + single + rank_class(back, x) =~= rank_class(front, x) + rank_class(back, x) + single);
    }
}

fn rank_before(a: &FolderFile, an: &Vec<char>, b: &FolderFile, bn: &Vec<char>) -> (r: bool)
    requires
        an@ == a.name@,
        bn@ == b.name@,
    ensures
        r == listed_before(*a, *b),
{
    if a.is_file == b.is_file {
        text_less(an, bn)
    } else {
        !a.is_file && b.is_file
    }
}

/// The items sorted with a stable sort, folders first, then by name.
pub fn sort_listing(items: Vec<FolderFile>) -> (r: Vec<FolderFile>)
    ensures
        is_stable_listing(items@, r@),
{
    let n = items.len();
    let mut r: Vec<FolderFile> = Vec::new();
    let mut names: Vec<Vec<char>> = Vec::new();
    let mut k: usize = 0;
    while k < n
        invariant
            n == items@.len(),
            k <= n,
            names@.len() == r@.len(),
            forall|a: int| 0 <= a < r@.len() ==> (#[trigger] names@[a])@ == r@[a].name@,
            forall|i: int, j: int| 0 <= i < j < r@.len() ==> !listed_before(#[trigger] r@[j], #[trigger] r@[i]),
            forall|x: FolderFile| #[trigger] rank_class(r@, x) == rank_class(items@.subrange(0, k as int), x),
        decreases n - k,
    {
        let e = FolderFile {
            id: items[k].id.clone(),
            name: items[k].name.clone(),
            path: items[k].path.clone(),
            is_file: items[k].is_file,
        };
        assert(e == items@[k as int]);
        let en = chars_of(e.name.as_str());
        let mut p: usize = 0;
        while p < r.len() && !rank_before(&e, &en, &r[p], &names[p])
            invariant
                p <= r@.len(),
                en@ == e.name@,
                names@.len() == r@.len(),
                forall|a: int| 0 <= a < r@.len() ==> (#[trigger] names@[a])@ == r@[a].name@,
                forall|a: int| 0 <= a < p ==> !listed_before(e, #[trigger] r@[a]),
            decreases r.len() - p,
        {
            p = p + 1;
        }
        let ghost old_r = r@;
        proof {
            assert forall|j: int| p <= j < old_r.len() implies listed_before(e, #[trigger] old_r[j]) by {
                lemma_order_facts(e, old_r[p as int], old_r[j]);
            }
            assert forall|x: FolderFile| #[trigger] rank_class(old_r.insert(p as int, e), x) == rank_class(items@.subrange(0, k + 1), x) by {
                lemma_insert_keeps_classes(old_r, p as int, e, x);
                assert(items@.subrange(0, k + 1).drop_last() =~= items@.subrange(0, k as int));
            }
        }
        let ghost old_names = names@;
        r.insert(p, e);
        names.insert(p, en);
        proof {
            assert forall|i: int, j: int| 0 <= i < j < r@.len() implies !listed_before(#[trigger] r@[j], #[trigger] r@[i]) by {
                if j < p {
                    assert(r@[i] == old_r[i] && r@[j] == old_r[j]);
                } else if j == p {
                    assert(r@[i] == old_r[i]);
                } else if i < p {
                    assert(r@[i] == old_r[i] && r@[j] == old_r[j - 1]);
                    lemma_order_facts(r@[j], e, r@[i]);
                    lemma_order_facts(e, r@[j], r@[i]);
                    lemma_order_facts(r@[j], r@[i], e);
                } else if i == p {
                    assert(r@[j] == old_r[j - 1]);
                    lemma_order_facts(e, r@[j], e);
                } else {
                    assert(r@[i] == old_r[i - 1] && r@[j] == old_r[j - 1]);
                }
            }
            assert forall|a: int| 0 <= a < r@.len() implies (#[trigger] names@[a])@ == r@[a].name@ by {
                if a < p {
                    assert(names@[a] == old_names[a] && r@[a] == old_r[a]);
                } else if a > p {
                    assert(names@[a] == old_names[a - 1] && r@[a] == old_r[a - 1]);
                }
            }
        }
        k = k + 1;
    }
    assert(items@.subrange(0, n as int) =~= items@);
    r
}

/// `a` comes no later than `b` in dictionary order of character codes:
/// `a` is a beginning of `b`, or where they first differ `a` has the
/// character with the smaller code.
pub open spec fn dictionary_le(a: Seq<char>, b: Seq<char>) -> bool {
    ||| (a.len() <= b.len() && b.subrange(0, a.len() as int) == a)
    ||| exists|k: int|
        0 <= k < a.len() && k < b.len() && a.subrange(0, k) == b.subrange(0, k) && (a[k] as u32) < (
        #[trigger] b[k] as u32)
}

proof fn lemma_text_lt_dictionary(a: Seq<char>, b: Seq<char>)
    requires
        text_lt(a, b),
    ensures
        dictionary_le(a, b),
    decreases a.len(),
{
    if a.len() == 0 {
        assert(b.subrange(0, 0) =~= a);
    } else if a[0] == b[0] {
        let a1 = a.drop_first();
        let b1 = b.drop_first();
        lemma_text_lt_dictionary(a1, b1);
        if a1.len() <= b1.len() && b1.subrange(0, a1.len() as int) == a1 {
            assert(b.subrange(0, a.len() as int) =~= seq![b[0]] + b1.subrange(0, a1.len() as int));
            assert(a =~= seq![a[0]] + a1);
        } else {
            let k1 = choose|k: int|
                0 <= k < a1.len() && k < b1.len() && a1.subrange(0, k) == b1.subrange(0, k) && (a1[k] as u32)
                    < (#[trigger] b1[k] as u32);
            let k = k1 + 1;
            assert(a.subrange(0, k) =~= seq![a[0]] + a1.subrange(0, k1));
            assert(b.subrange(0, k) =~= seq![b[0]] + b1.subrange(0, k1));
            assert(a[k] == a1[k1] && b[k] == b1[k1]);
        }
    } else {
        assert(a.subrange(0, 0) =~= b.subrange(0, 0));
        assert((a[0] as u32) < (b[0] as u32));
    }
}

/// A sorted listing shows every folder before every file, and items of the
/// same kind in dictionary order of their names (by character code, as
/// `String` compares them), whatever the names' lengths.
pub proof fn lemma_listing_order(items: Seq<FolderFile>, r: Seq<FolderFile>)
    requires
        is_stable_listing(items, r),
    ensures
        forall|i: int, j: int| 0 <= i < j < r.len() ==> !(#[trigger] r[i].is_file && !#[trigger] r[j].is_file),
        forall|i: int, j: int|
            0 <= i < j < r.len() && (#[trigger] r[i]).is_file == (#[trigger] r[j]).is_file ==> dictionary_le(
                r[i].name@,
                r[j].name@,
            ),
{
    assert forall|i: int, j: int| 0 <= i < j < r.len() implies !(#[trigger] r[i].is_file && !#[trigger] r[j].is_file) by {
        assert(!listed_before(r[j], r[i]));
    }
    assert forall|i: int, j: int|
        0 <= i < j < r.len() && (#[trigger] r[i]).is_file == (#[trigger] r[j]).is_file implies dictionary_le(
            r[i].name@,
            r[j].name@,
        ) by {
        assert(!listed_before(r[j], r[i]));
        lemma_text_lt_total(r[i].name@, r[j].name@);
        if r[i].name@ == r[j].name@ {
            assert(r[j].name@.subrange(0, r[i].name@.len() as int) =~= r[i].name@);
        } else {
            lemma_text_lt_dictionary(r[i].name@, r[j].name@);
        }
    }
}

} // verus!
