//! Lists of paths in order, each path once.

use crate::paths::{
    lemma_path_irreflexive, lemma_path_total, lemma_path_transitive, path_before, path_less,
    same_path,
};
use crate::text::texts;
use vstd::prelude::*;

verus! {

/// Each entry comes before every later one in the order of paths,
/// [`path_less`]. So no two entries spell the same path.
pub open spec fn sorted_by_path(v: Seq<Seq<char>>) -> bool {
    forall|i: int, j: int| 0 <= i < j < v.len() ==> path_less(#[trigger] v[i], #[trigger] v[j])
}

/// Whether some entry of `v` spells the path `p`.
pub open spec fn spells(v: Seq<Seq<char>>, p: Seq<char>) -> bool {
    exists|j: int| 0 <= j < v.len() && #[trigger] same_path(v[j], p)
}

/// Whether `x` is among `items`, with no other spelling of its path before
/// it.
pub open spec fn first_spelling(items: Seq<Seq<char>>, x: Seq<char>) -> bool {
    exists|k: int|
        0 <= k < items.len() && #[trigger] items[k] == x && forall|m: int|
            0 <= m < k ==> !#[trigger] same_path(items[m], x)
}

/// Whether `r` is `items` put in order: sorted by path, every path of
/// `items` once, and each in the spelling in which `items` has it first.
pub open spec fn sorts_paths(r: Seq<Seq<char>>, items: Seq<Seq<char>>) -> bool {
    &&& sorted_by_path(r)
    &&& forall|j: int| 0 <= j < r.len() ==> first_spelling(items, #[trigger] r[j])
    &&& forall|k: int| 0 <= k < items.len() ==> spells(r, #[trigger] items[k])
}

/// Puts `s` into the sorted list `v`, unless the list has its path already,
/// in whatever spelling; returns whether it was put in.
pub fn insert_path(v: &mut Vec<String>, s: String) -> (r: bool)
    requires
        sorted_by_path(texts(old(v)@)),
    ensures
        sorted_by_path(texts(final(v)@)),
        r == !spells(texts(old(v)@), s@),
        r ==> exists|at: int|
            0 <= at <= old(v).len() && texts(final(v)@) == #[trigger] texts(old(v)@).insert(at, s@),
        !r ==> texts(final(v)@) == texts(old(v)@),
{
    let ghost before = texts(v@);
    let mut i: usize = 0;
    while i < v.len() && path_before(v[i].as_str(), s.as_str())
        invariant
            i <= v.len(),
            before == texts(v@),
            forall|j: int| 0 <= j < i ==> path_less(#[trigger] before[j], s@),
        decreases v.len() - i,
    {
        i += 1;
    }
    if i < v.len() && !path_before(s.as_str(), v[i].as_str()) {
        proof {
            lemma_path_total(before[i as int], s@);
            assert(same_path(before[i as int], s@));
        }
        return false;
    }
    proof {
        assert forall|k: int| 0 <= k < before.len() implies !same_path(#[trigger] before[k], s@) by {
            if same_path(before[k], s@) {
                lemma_path_irreflexive(before[k], s@);
                lemma_path_irreflexive(s@, before[k]);
                if k > i {
                    lemma_path_transitive(s@, before[i as int], before[k]);
                }
            }
        }
    }
    v.insert(i, s);
    proof {
        let after = texts(v@);
        assert(after == before.insert(i as int, s@));
        assert forall|a: int, b: int| 0 <= a < b < after.len() implies path_less(
            #[trigger] after[a],
            #[trigger] after[b],
        ) by {
            if b < i {
            } else if b == i {
            } else if a == i {
                if b - 1 > i {
                    lemma_path_transitive(s@, before[i as int], before[b - 1]);
                }
            } else if a < i {
                assert(after[a] == before[a] && after[b] == before[b - 1]);
            } else {
                assert(after[a] == before[a - 1] && after[b] == before[b - 1]);
            }
        }
    }
    true
}

/// A sorted list that takes in a path it does not have yet is the sorting
/// of one item more.
proof fn lemma_sorting_with_new_path(
    before: Seq<Seq<char>>,
    after: Seq<Seq<char>>,
    seen: Seq<Seq<char>>,
    s: Seq<char>,
    at: int,
)
    requires
        sorts_paths(before, seen),
        !spells(before, s),
        0 <= at <= before.len(),
        after == before.insert(at, s),
        sorted_by_path(after),
    ensures
        sorts_paths(after, seen.push(s)),
{
    let more = seen.push(s);
    assert forall|j: int| 0 <= j < after.len() implies first_spelling(more, #[trigger] after[j]) by {
        if j == at {
            assert forall|m: int| 0 <= m < seen.len() implies !#[trigger] same_path(more[m], s) by {
                assert(spells(before, seen[m]));
                let w = choose|w: int| 0 <= w < before.len() && #[trigger] same_path(
                    before[w],
                    seen[m],
                );
                if same_path(more[m], s) {
                    assert(same_path(before[w], s));
                }
            }
            assert(more[seen.len() as int] == after[j]);
        } else {
            let old_j = if j < at {
                j
            } else {
                j - 1
            };
            assert(after[j] == before[old_j]);
            assert(first_spelling(seen, before[old_j]));
            let k = choose|k: int|
                0 <= k < seen.len() && #[trigger] seen[k] == before[old_j] && forall|m: int|
                    0 <= m < k ==> !#[trigger] same_path(seen[m], before[old_j]);
            assert(more[k] == after[j]);
            assert forall|m: int| 0 <= m < k implies !#[trigger] same_path(more[m], after[j]) by {
                assert(more[m] == seen[m]);
                assert(!same_path(seen[m], before[old_j]));
            }
        }
    }
    assert forall|k: int| 0 <= k < more.len() implies spells(after, #[trigger] more[k]) by {
        if k == seen.len() {
            assert(same_path(after[at], more[k]));
        } else {
            assert(more[k] == seen[k]);
            assert(spells(before, seen[k]));
            let w = choose|w: int| 0 <= w < before.len() && #[trigger] same_path(before[w], seen[k]);
            if w < at {
                assert(after[w] == before[w]);
                assert(same_path(after[w], more[k]));
            } else {
                assert(after[w + 1] == before[w]);
                assert(same_path(after[w + 1], more[k]));
            }
        }
    }
}

/// A sorted list that has a path already is the sorting of one item more,
/// whatever the spelling of that item.
proof fn lemma_sorting_with_known_path(before: Seq<Seq<char>>, seen: Seq<Seq<char>>, s: Seq<char>)
    requires
        sorts_paths(before, seen),
        spells(before, s),
    ensures
        sorts_paths(before, seen.push(s)),
{
    let more = seen.push(s);
    assert forall|j: int| 0 <= j < before.len() implies first_spelling(more, #[trigger] before[j]) by {
        assert(first_spelling(seen, before[j]));
        let k = choose|k: int|
            0 <= k < seen.len() && #[trigger] seen[k] == before[j] && forall|m: int|
                0 <= m < k ==> !#[trigger] same_path(seen[m], before[j]);
        assert(more[k] == before[j]);
        assert forall|m: int| 0 <= m < k implies !#[trigger] same_path(more[m], before[j]) by {
            assert(more[m] == seen[m]);
            assert(!same_path(seen[m], before[j]));
        }
    }
    assert forall|k: int| 0 <= k < more.len() implies spells(before, #[trigger] more[k]) by {
        if k < seen.len() {
            assert(more[k] == seen[k]);
            assert(spells(before, seen[k]));
        }
    }
}

/// The paths of `items` in order, each path once: see [`sorts_paths`].
/// Where `items` spells a path in several ways, the first spelling stays.
pub fn sorted_paths(items: Vec<String>) -> (r: Vec<String>)
    ensures
        sorts_paths(texts(r@), texts(items@)),
{
    let ghost all = texts(items@);
    let mut out: Vec<String> = Vec::new();
    let mut i: usize = 0;
    assert(sorts_paths(texts(out@), all.take(0)));
    while i < items.len()
        invariant
            i <= items.len(),
            all == texts(items@),
            sorts_paths(texts(out@), all.take(i as int)),
        decreases items.len() - i,
    {
        let ghost before = texts(out@);
        let put = insert_path(&mut out, items[i].clone());
        proof {
            assert(all.take(i + 1) == all.take(i as int).push(all[i as int]));
            if put {
                let at = choose|at: int|
                    0 <= at <= before.len() && texts(out@) == #[trigger] before.insert(
                        at,
                        all[i as int],
                    );
                lemma_sorting_with_new_path(
                    before,
                    texts(out@),
                    all.take(i as int),
                    all[i as int],
                    at,
                );
            } else {
                lemma_sorting_with_known_path(before, all.take(i as int), all[i as int]);
            }
        }
        i += 1;
    }
    assert(all.take(i as int) == all);
    out
}

/// In a list sorted by path no two entries spell the same path.
pub proof fn sorted_paths_are_all_different(v: Seq<Seq<char>>)
    requires
        sorted_by_path(v),
    ensures
        forall|i: int, j: int|
            0 <= i < j < v.len() ==> !same_path(#[trigger] v[i], #[trigger] v[j]),
{
    assert forall|i: int, j: int| 0 <= i < j < v.len() implies !same_path(
        #[trigger] v[i],
        #[trigger] v[j],
    ) by {
        if same_path(v[i], v[j]) {
            lemma_path_irreflexive(v[i], v[j]);
        }
    }
}

/// A list sorted by path is determined by the paths in it: two such lists
/// in which each path of the one is spelled by the other have the same
/// length and, entry by entry, the same paths.
pub proof fn sorted_lists_of_the_same_paths_agree(a: Seq<Seq<char>>, b: Seq<Seq<char>>)
    requires
        sorted_by_path(a),
        sorted_by_path(b),
        forall|i: int| 0 <= i < a.len() ==> spells(b, #[trigger] a[i]),
        forall|i: int| 0 <= i < b.len() ==> spells(a, #[trigger] b[i]),
    ensures
        a.len() == b.len(),
        forall|i: int| 0 <= i < a.len() ==> same_path(#[trigger] a[i], b[i]),
    decreases a.len(),
{
    if a.len() == 0 {
        if b.len() > 0 {
            assert(spells(a, b[0]));
        }
    } else {
        assert(spells(b, a[0]));
        let j = choose|j: int| 0 <= j < b.len() && #[trigger] same_path(b[j], a[0]);
        assert(spells(a, b[0]));
        let i = choose|i: int| 0 <= i < a.len() && #[trigger] same_path(a[i], b[0]);
        assert(same_path(a[0], b[0])) by {
            if i > 0 && j > 0 {
                lemma_path_step(a[0], a[i], b[0]);
                lemma_path_transitive(a[0], b[0], b[j]);
                lemma_path_irreflexive(a[0], b[j]);
            }
        }
        let ta = a.drop_first();
        let tb = b.drop_first();
        assert forall|k: int| 0 <= k < ta.len() implies spells(tb, #[trigger] ta[k]) by {
            assert(ta[k] == a[k + 1]);
            assert(spells(b, a[k + 1]));
            let m = choose|m: int| 0 <= m < b.len() && #[trigger] same_path(b[m], a[k + 1]);
            if m == 0 {
                lemma_path_irreflexive(a[0], a[k + 1]);
            }
            assert(tb[m - 1] == b[m]);
            assert(same_path(tb[m - 1], ta[k]));
        }
        assert forall|k: int| 0 <= k < tb.len() implies spells(ta, #[trigger] tb[k]) by {
            assert(tb[k] == b[k + 1]);
            assert(spells(a, b[k + 1]));
            let m = choose|m: int| 0 <= m < a.len() && #[trigger] same_path(a[m], b[k + 1]);
            if m == 0 {
                lemma_path_irreflexive(b[0], b[k + 1]);
            }
            assert(ta[m - 1] == a[m]);
            assert(same_path(ta[m - 1], tb[k]));
        }
        assert(sorted_by_path(ta)) by {
            assert forall|p: int, q: int| 0 <= p < q < ta.len() implies path_less(
                #[trigger] ta[p],
                #[trigger] ta[q],
            ) by {
                assert(ta[p] == a[p + 1] && ta[q] == a[q + 1]);
            }
        }
        assert(sorted_by_path(tb)) by {
            assert forall|p: int, q: int| 0 <= p < q < tb.len() implies path_less(
                #[trigger] tb[p],
                #[trigger] tb[q],
            ) by {
                assert(tb[p] == b[p + 1] && tb[q] == b[q + 1]);
            }
        }
        sorted_lists_of_the_same_paths_agree(ta, tb);
        assert forall|k: int| 0 <= k < a.len() implies same_path(#[trigger] a[k], b[k]) by {
            if k > 0 {
                assert(ta[k - 1] == a[k] && tb[k - 1] == b[k]);
            }
        }
    }
}

/// What comes before a path comes before every spelling of it.
proof fn lemma_path_step(a: Seq<char>, b: Seq<char>, c: Seq<char>)
    requires
        path_less(a, b),
        same_path(b, c),
    ensures
        path_less(a, c),
{
}

} // verus!
