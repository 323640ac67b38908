//! What a merged listing is: sorted by path, and of the entries with one
//! path the earliest.
use crate::overlay_fs::insert_listing;
use crate::overlay_fs::insert_pos;
use crate::overlay_fs::merge_upto;
use crate::overlay_fs::name_before_from;
use crate::overlay_fs::names_before_from;
use crate::overlay_fs::path_before;
use crate::overlay_fs::same_path;
use crate::vfs::DirEntryView;
use vstd::prelude::*;

verus! {

proof fn lemma_name_not_before_itself(a: Seq<u8>, i: int)
    requires
        0 <= i,
    ensures
        !name_before_from(a, a, i),
    decreases a.len() - i,
{
    if i < a.len() {
        lemma_name_not_before_itself(a, i + 1);
    }
}

proof fn lemma_name_before_transitive(a: Seq<u8>, b: Seq<u8>, c: Seq<u8>, i: int)
    requires
        0 <= i,
        name_before_from(a, b, i),
        name_before_from(b, c, i),
    ensures
        name_before_from(a, c, i),
    decreases a.len() - i,
{
    if i < a.len() && i < b.len() && i < c.len() && a[i] == b[i] && b[i] == c[i] {
        lemma_name_before_transitive(a, b, c, i + 1);
    }
}

proof fn lemma_name_before_total(a: Seq<u8>, b: Seq<u8>, i: int)
    requires
        0 <= i <= a.len(),
        i <= b.len(),
        a != b,
        forall|k: int| 0 <= k < i ==> a[k] == b[k],
    ensures
        name_before_from(a, b, i) || name_before_from(b, a, i),
    decreases a.len() - i,
{
    if i < a.len() && i < b.len() && a[i] == b[i] {
        lemma_name_before_total(a, b, i + 1);
    } else if i >= a.len() && i >= b.len() {
        assert(a =~= b);
    }
}

proof fn lemma_names_not_before_themselves(a: Seq<Seq<u8>>, i: int)
    requires
        0 <= i,
    ensures
        !names_before_from(a, a, i),
    decreases a.len() - i,
{
    if i < a.len() {
        lemma_names_not_before_themselves(a, i + 1);
    }
}

proof fn lemma_names_before_transitive(a: Seq<Seq<u8>>, b: Seq<Seq<u8>>, c: Seq<Seq<u8>>, i: int)
    requires
        0 <= i,
        names_before_from(a, b, i),
        names_before_from(b, c, i),
    ensures
        names_before_from(a, c, i),
    decreases a.len() - i,
{
    if i < a.len() && i < b.len() && i < c.len() {
        if a[i] == b[i] && b[i] == c[i] {
            lemma_names_before_transitive(a, b, c, i + 1);
        } else if a[i] != b[i] && b[i] != c[i] {
            lemma_name_before_transitive(a[i], b[i], c[i], 0);
            lemma_name_not_before_itself(a[i], 0);
        }
    }
}

proof fn lemma_names_before_total(a: Seq<Seq<u8>>, b: Seq<Seq<u8>>, i: int)
    requires
        0 <= i <= a.len(),
        i <= b.len(),
        a != b,
        forall|k: int| 0 <= k < i ==> a[k] == b[k],
    ensures
        names_before_from(a, b, i) || names_before_from(b, a, i),
    decreases a.len() - i,
{
    if i < a.len() && i < b.len() {
        if a[i] == b[i] {
            lemma_names_before_total(a, b, i + 1);
        } else {
            lemma_name_before_total(a[i], b[i], 0);
        }
    } else if i >= a.len() && i >= b.len() {
        assert(a =~= b);
    }
}

/// The order of paths is strict: no path sorts before a path of the same
/// components.
pub proof fn lemma_path_order_strict(a: Seq<u8>, b: Seq<u8>)
    requires
        same_path(a, b),
    ensures
        !path_before(a, b),
        !path_before(b, a),
{
    lemma_names_not_before_themselves(crate::path::components_of(a), 0);
}

/// The order of paths is transitive.
pub proof fn lemma_path_order_transitive(a: Seq<u8>, b: Seq<u8>, c: Seq<u8>)
    requires
        path_before(a, b),
        path_before(b, c),
    ensures
        path_before(a, c),
{
    lemma_names_before_transitive(
        crate::path::components_of(a),
        crate::path::components_of(b),
        crate::path::components_of(c),
        0,
    );
}

/// The order of paths is total: of two paths of different components one
/// sorts before the other.
pub proof fn lemma_path_order_total(a: Seq<u8>, b: Seq<u8>)
    requires
        !same_path(a, b),
    ensures
        path_before(a, b) || path_before(b, a),
{
    lemma_names_before_total(crate::path::components_of(a), crate::path::components_of(b), 0);
}

/// Whether a listing is sorted by path, each entry before the next.
pub open spec fn sorted_by_path(m: Seq<DirEntryView>) -> bool {
    forall|i: int, j: int|
        0 <= i < j < m.len() ==> path_before((#[trigger] m[i]).path, (#[trigger] m[j]).path)
}

/// The first place from `k` on in a listing that holds an entry of the
/// path, or the length of the listing.
pub open spec fn first_with_path(all: Seq<DirEntryView>, path: Seq<u8>, k: int) -> int
    decreases all.len() - k,
{
    if k < 0 || k >= all.len() || same_path(all[k].path, path) {
        k
    } else {
        first_with_path(all, path, k + 1)
    }
}

proof fn lemma_first_with_path(all: Seq<DirEntryView>, path: Seq<u8>, k: int)
    requires
        0 <= k <= all.len(),
    ensures
        k <= first_with_path(all, path, k) <= all.len(),
        first_with_path(all, path, k) < all.len() ==> same_path(
            all[first_with_path(all, path, k)].path,
            path,
        ),
        forall|j: int| k <= j < first_with_path(all, path, k) ==> !same_path((#[trigger] all[j]).path, path),
    decreases all.len() - k,
{
    if k < all.len() && !same_path(all[k].path, path) {
        lemma_first_with_path(all, path, k + 1);
    }
}

proof fn lemma_insert_pos(s: Seq<DirEntryView>, path: Seq<u8>, i: int)
    requires
        0 <= i <= s.len(),
    ensures
        i <= insert_pos(s, path, i) <= s.len(),
        insert_pos(s, path, i) < s.len() ==> !path_before(s[insert_pos(s, path, i)].path, path),
        forall|j: int| i <= j < insert_pos(s, path, i) ==> path_before((#[trigger] s[j]).path, path),
    decreases s.len() - i,
{
    if i < s.len() && path_before(s[i].path, path) {
        lemma_insert_pos(s, path, i + 1);
    }
}

/// Whether a merged listing holds, for the path of each of the first `n`
/// entries of `all`, the earliest entry of `all` with that path, and
/// nothing else.
pub open spec fn keeps_earliest(m: Seq<DirEntryView>, all: Seq<DirEntryView>, n: int) -> bool {
    &&& forall|k: int|
        0 <= k < n ==> exists|i: int|
            0 <= i < m.len() && #[trigger] m[i] == all[first_with_path(all, (#[trigger] all[k]).path, 0)]
    &&& forall|i: int|
        0 <= i < m.len() ==> exists|k: int|
            0 <= k < n && (#[trigger] m[i]) == (#[trigger] all[k]) && first_with_path(all, all[k].path, 0)
                == k
}

/// In a sorted listing, an entry of a path stands where an entry of that
/// path would be put.
proof fn lemma_found_at_insert_pos(s: Seq<DirEntryView>, path: Seq<u8>, i: int)
    requires
        sorted_by_path(s),
        0 <= i < s.len(),
        same_path(s[i].path, path),
    ensures
        insert_pos(s, path, 0) == i,
{
    lemma_insert_pos(s, path, 0);
    let pos = insert_pos(s, path, 0);
    lemma_path_order_strict(s[i].path, path);
    if pos < i {
        assert(path_before(s[pos].path, s[i].path));
    } else if pos > i {
        assert(path_before(s[i].path, path));
    }
}

/// Putting an entry into a sorted listing leaves the listing sorted.
pub proof fn lemma_insert_keeps_sorted(s: Seq<DirEntryView>, e: DirEntryView)
    requires
        sorted_by_path(s),
    ensures
        sorted_by_path(insert_listing(s, e)),
{
    lemma_insert_pos(s, e.path, 0);
    let pos = insert_pos(s, e.path, 0);
    let t = insert_listing(s, e);
    if !(pos < s.len() && same_path(s[pos].path, e.path)) {
        assert(t == s.insert(pos, e));
        assert forall|i: int, j: int| 0 <= i < j < t.len() implies path_before(
            (#[trigger] t[i]).path,
            (#[trigger] t[j]).path,
        ) by {
            if j < pos {
                assert(t[i] == s[i] && t[j] == s[j]);
            } else if j == pos {
                assert(t[i] == s[i]);
            } else if i == pos {
                assert(t[j] == s[j - 1]);
                lemma_path_order_total(s[pos].path, e.path);
                if j - 1 > pos {
                    assert(path_before(s[pos].path, s[j - 1].path));
                    lemma_path_order_transitive(e.path, s[pos].path, s[j - 1].path);
                }
            } else if i > pos {
                assert(t[i] == s[i - 1] && t[j] == s[j - 1]);
            } else {
                assert(t[i] == s[i] && t[j] == s[j - 1]);
                if j - 1 > i {
                    assert(path_before(s[i].path, s[j - 1].path));
                } else {
                    assert(j - 1 == i);
                }
            }
        }
    }
}

/// A merged listing is sorted by path, so no two of its entries have the
/// same path; and for each path among the entries that were merged it
/// holds the earliest entry of that path, and nothing else.
pub proof fn law_merged_listing(all: Seq<DirEntryView>, n: int)
    requires
        0 <= n <= all.len(),
    ensures
        sorted_by_path(merge_upto(all, n)),
        keeps_earliest(merge_upto(all, n), all, n),
    decreases n,
{
    if n > 0 {
        law_merged_listing(all, n - 1);
        let s = merge_upto(all, n - 1);
        let e = all[n - 1];
        let t = merge_upto(all, n);
        assert(t == insert_listing(s, e));
        lemma_insert_keeps_sorted(s, e);
        lemma_insert_pos(s, e.path, 0);
        lemma_first_with_path(all, e.path, 0);
        let pos = insert_pos(s, e.path, 0);
        let first = first_with_path(all, e.path, 0);
        if pos < s.len() && same_path(s[pos].path, e.path) {
            // The listing has the path already: the entry that is there is
            // the earliest.
            let k0 = choose|k: int|
                0 <= k < n - 1 && s[pos] == (#[trigger] all[k]) && first_with_path(all, all[k].path, 0)
                    == k;
            lemma_same_first(all, all[k0].path, e.path);
            assert forall|k: int| 0 <= k < n implies exists|i: int|
                0 <= i < t.len() && #[trigger] t[i] == all[first_with_path(
                    all,
                    (#[trigger] all[k]).path,
                    0,
                )] by {
                if k == n - 1 {
                    assert(t[pos] == all[first_with_path(all, all[k].path, 0)]);
                } else {
                    let i = choose|i: int|
                        0 <= i < s.len() && #[trigger] s[i] == all[first_with_path(all, all[k].path, 0)];
                    assert(t[i] == s[i]);
                }
            }
            assert forall|i: int| 0 <= i < t.len() implies exists|k: int|
                0 <= k < n && (#[trigger] t[i]) == (#[trigger] all[k]) && first_with_path(
                    all,
                    all[k].path,
                    0,
                ) == k by {
                let k = choose|k: int|
                    0 <= k < n - 1 && s[i] == (#[trigger] all[k]) && first_with_path(
                        all,
                        all[k].path,
                        0,
                    ) == k;
                assert(t[i] == all[k]);
            }
        } else {
            // The listing does not have the path: no earlier entry has it.
            assert(t == s.insert(pos, e));
            assert(first == n - 1) by {
                if first < n - 1 {
                    let i = choose|i: int|
                        0 <= i < s.len() && #[trigger] s[i] == all[first_with_path(
                            all,
                            all[first].path,
                            0,
                        )];
                    lemma_same_first(all, all[first].path, e.path);
                    lemma_found_at_insert_pos(s, e.path, i);
                }
            }
            assert forall|k: int| 0 <= k < n implies exists|i: int|
                0 <= i < t.len() && #[trigger] t[i] == all[first_with_path(
                    all,
                    (#[trigger] all[k]).path,
                    0,
                )] by {
                if k == n - 1 {
                    assert(t[pos] == e);
                } else {
                    let i = choose|i: int|
                        0 <= i < s.len() && #[trigger] s[i] == all[first_with_path(all, all[k].path, 0)];
                    let i2 = if i < pos {
                        i
                    } else {
                        i + 1
                    };
                    assert(t[i2] == s[i]);
                }
            }
            assert forall|i: int| 0 <= i < t.len() implies exists|k: int|
                0 <= k < n && (#[trigger] t[i]) == (#[trigger] all[k]) && first_with_path(
                    all,
                    all[k].path,
                    0,
                ) == k by {
                if i == pos {
                    assert(t[i] == all[n - 1]);
                } else {
                    let i0 = if i < pos {
                        i
                    } else {
                        i - 1
                    };
                    assert(t[i] == s[i0]);
                    let k = choose|k: int|
                        0 <= k < n - 1 && s[i0] == (#[trigger] all[k]) && first_with_path(
                            all,
                            all[k].path,
                            0,
                        ) == k;
                    assert(t[i] == all[k]);
                }
            }
        }
    }
}

/// Paths of the same components have the same earliest entry.
proof fn lemma_same_first(all: Seq<DirEntryView>, a: Seq<u8>, b: Seq<u8>)
    requires
        same_path(a, b),
    ensures
        first_with_path(all, a, 0) == first_with_path(all, b, 0),
{
    lemma_same_first_from(all, a, b, 0);
}

proof fn lemma_same_first_from(all: Seq<DirEntryView>, a: Seq<u8>, b: Seq<u8>, k: int)
    requires
        same_path(a, b),
        0 <= k <= all.len(),
    ensures
        first_with_path(all, a, k) == first_with_path(all, b, k),
    decreases all.len() - k,
{
    if k < all.len() && !same_path(all[k].path, a) {
        lemma_same_first_from(all, a, b, k + 1);
    }
}

} // verus!
