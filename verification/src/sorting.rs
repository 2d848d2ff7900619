//! Sort modes and the sorted child listing of a directory node.
//!
//! Listing a node produces one entry bundle per child, ordered by the
//! active sort mode. The listing is rebuilt from the tree every time it is
//! needed and never cached across sort-mode changes. The order is pinned
//! exactly: a stable insertion sort by size, so children of equal size
//! keep their discovery order.

use vstd::prelude::*;
use crate::tree::{Tree, TreeNode, children_below, children_of, lemma_children_below_bounds};

verus! {

/// The toggleable ordering key for entry listings.
#[derive(Copy, Clone, Debug, PartialEq, Eq, Structural)]
pub enum SortMode {
    SizeAscending,
    SizeDescending,
}

/// The other size ordering.
pub open spec fn toggled(m: SortMode) -> SortMode {
    match m {
        SortMode::SizeAscending => SortMode::SizeDescending,
        SortMode::SizeDescending => SortMode::SizeAscending,
    }
}

impl SortMode {
    /// Flips between ascending and descending size order.
    pub fn toggle_size(&mut self)
        ensures
            *final(self) == toggled(*old(self)),
    {
        *self = match *self {
            SortMode::SizeAscending => SortMode::SizeDescending,
            SortMode::SizeDescending => SortMode::SizeAscending,
        };
    }
}

impl Default for SortMode {
    /// Entry listings start out ordered by ascending size.
    fn default() -> (r: Self)
        ensures
            r == SortMode::SizeAscending,
    {
        SortMode::SizeAscending
    }
}

/// A child node's reference paired with the precomputed data a listing
/// row displays.
#[derive(Clone, Debug)]
pub struct EntryDataBundle {
    pub index: usize,
    pub name: String,
    pub size: u64,
}

/// The ordering the active sort mode imposes on two entries.
pub open spec fn size_le(mode: SortMode, a: EntryDataBundle, b: EntryDataBundle) -> bool {
    match mode {
        SortMode::SizeAscending => a.size <= b.size,
        SortMode::SizeDescending => a.size >= b.size,
    }
}

/// The sequence is ordered under the given mode.
pub open spec fn sorted_by(mode: SortMode, s: Seq<EntryDataBundle>) -> bool {
    forall|i: int, j: int| 0 <= i < j < s.len() ==> size_le(mode, #[trigger] s[i], #[trigger] s[j])
}

/// Inserts `x` behind every already-placed entry that is not strictly
/// greater, so entries of equal size keep their relative order.
pub open spec fn insert_sorted(mode: SortMode, x: EntryDataBundle, s: Seq<EntryDataBundle>) -> Seq<
    EntryDataBundle,
>
    decreases s.len(),
{
    if s.len() == 0 {
        seq![x]
    } else if size_le(mode, s[0], x) {
        seq![s[0]] + insert_sorted(mode, x, s.drop_first())
    } else {
        seq![x] + s
    }
}

/// Stable insertion sort by size under the given mode.
pub open spec fn sort_by_size(mode: SortMode, s: Seq<EntryDataBundle>) -> Seq<EntryDataBundle>
    decreases s.len(),
{
    if s.len() == 0 {
        Seq::<EntryDataBundle>::empty()
    } else {
        insert_sorted(mode, s.last(), sort_by_size(mode, s.drop_last()))
    }
}

/// The entry bundle a listing builds for child `c`.
pub open spec fn bundle_of(t: Seq<TreeNode>, c: int) -> EntryDataBundle {
    EntryDataBundle { index: c as usize, name: t[c].name, size: t[c].size }
}

/// The unsorted bundle list for the children `cs`.
pub open spec fn bundles_of(t: Seq<TreeNode>, cs: Seq<int>) -> Seq<EntryDataBundle>
    decreases cs.len(),
{
    if cs.len() == 0 {
        Seq::<EntryDataBundle>::empty()
    } else {
        bundles_of(t, cs.drop_last()).push(bundle_of(t, cs.last()))
    }
}

/// What listing the children of node `p` under `mode` returns.
pub open spec fn sorted_entries_spec(t: Seq<TreeNode>, p: int, mode: SortMode) -> Seq<
    EntryDataBundle,
> {
    sort_by_size(mode, bundles_of(t, children_of(t, p)))
}

pub proof fn lemma_insert_sorted_len(mode: SortMode, x: EntryDataBundle, s: Seq<EntryDataBundle>)
    ensures
        insert_sorted(mode, x, s).len() == s.len() + 1,
    decreases s.len(),
{
    if s.len() > 0 && size_le(mode, s[0], x) {
        lemma_insert_sorted_len(mode, x, s.drop_first());
    }
}

pub proof fn lemma_sort_len(mode: SortMode, s: Seq<EntryDataBundle>)
    ensures
        sort_by_size(mode, s).len() == s.len(),
    decreases s.len(),
{
    if s.len() > 0 {
        lemma_sort_len(mode, s.drop_last());
        lemma_insert_sorted_len(mode, s.last(), sort_by_size(mode, s.drop_last()));
    }
}

/// Inserting into an ordered sequence keeps it ordered.
pub proof fn lemma_insert_sorted_sorted(mode: SortMode, x: EntryDataBundle, s: Seq<EntryDataBundle>)
    requires
        sorted_by(mode, s),
    ensures
        sorted_by(mode, insert_sorted(mode, x, s)),
    decreases s.len(),
{
    if s.len() == 0 {
    } else if size_le(mode, s[0], x) {
        assert(sorted_by(mode, s.drop_first()));
        lemma_insert_sorted_sorted(mode, x, s.drop_first());
        lemma_insert_sorted_len(mode, x, s.drop_first());
        let r = seq![s[0]] + insert_sorted(mode, x, s.drop_first());
        assert forall|i: int, j: int| 0 <= i < j < r.len() implies size_le(
            mode,
            #[trigger] r[i],
            #[trigger] r[j],
        ) by {
            let q = insert_sorted(mode, x, s.drop_first());
            if i == 0 {
                lemma_insert_sorted_elem(mode, x, s.drop_first(), j - 1);
                assert(r[j] == q[j - 1]);
                if q[j - 1] == x {
                } else {
                    let k = choose|k: int|
                        0 <= k < s.drop_first().len() && s.drop_first()[k] == q[j - 1];
                    assert(s[k + 1] == q[j - 1]);
                }
            } else {
                assert(r[i] == q[i - 1] && r[j] == q[j - 1]);
            }
        }
    } else {
        let r = seq![x] + s;
        assert forall|i: int, j: int| 0 <= i < j < r.len() implies size_le(
            mode,
            #[trigger] r[i],
            #[trigger] r[j],
        ) by {
            if i == 0 {
                assert(r[j] == s[j - 1]);
                if j - 1 > 0 {
                    assert(size_le(mode, s[0], s[j - 1]));
                }
            } else {
                assert(r[i] == s[i - 1] && r[j] == s[j - 1]);
            }
        }
    }
}

/// Every entry of the inserted sequence is the new entry or one of the old.
pub proof fn lemma_insert_sorted_elem(
    mode: SortMode,
    x: EntryDataBundle,
    s: Seq<EntryDataBundle>,
    k: int,
)
    requires
        0 <= k < insert_sorted(mode, x, s).len(),
    ensures
        insert_sorted(mode, x, s)[k] == x || s.contains(insert_sorted(mode, x, s)[k]),
    decreases s.len(),
{
    let r = insert_sorted(mode, x, s);
    if s.len() == 0 {
    } else if size_le(mode, s[0], x) {
        if k == 0 {
            assert(r[0] == s[0]);
            assert(s.contains(s[0]));
        } else {
            let q = insert_sorted(mode, x, s.drop_first());
            assert(r[k] == q[k - 1]);
            lemma_insert_sorted_elem(mode, x, s.drop_first(), k - 1);
            if q[k - 1] != x {
                let m = choose|m: int|
                    0 <= m < s.drop_first().len() && s.drop_first()[m] == q[k - 1];
                assert(s[m + 1] == q[k - 1]);
                assert(s.contains(q[k - 1]));
            }
        }
    } else {
        if k == 0 {
        } else {
            assert(r[k] == s[k - 1]);
            assert(s.contains(s[k - 1]));
        }
    }
}

/// Every entry of the sorted sequence comes from the input sequence.
pub proof fn lemma_sort_elem(mode: SortMode, s: Seq<EntryDataBundle>, k: int)
    requires
        0 <= k < sort_by_size(mode, s).len(),
    ensures
        s.contains(sort_by_size(mode, s)[k]),
    decreases s.len(),
{
    let r = sort_by_size(mode, s);
    if s.len() > 0 {
        lemma_insert_sorted_elem(mode, s.last(), sort_by_size(mode, s.drop_last()), k);
        if r[k] == s.last() {
            assert(s[s.len() - 1] == r[k]);
            assert(s.contains(r[k]));
        } else {
            let m = choose|m: int|
                0 <= m < sort_by_size(mode, s.drop_last()).len() && sort_by_size(
                    mode,
                    s.drop_last(),
                )[m] == r[k];
            lemma_sort_elem(mode, s.drop_last(), m);
            let m2 = choose|m2: int|
                0 <= m2 < s.drop_last().len() && s.drop_last()[m2] == r[k];
            assert(s[m2] == r[k]);
            assert(s.contains(r[k]));
        }
    }
}

pub proof fn lemma_bundles_of_elems(t: Seq<TreeNode>, cs: Seq<int>)
    ensures
        bundles_of(t, cs).len() == cs.len(),
        forall|k: int| 0 <= k < cs.len() ==> #[trigger] bundles_of(t, cs)[k] == bundle_of(t, cs[k]),
    decreases cs.len(),
{
    if cs.len() > 0 {
        lemma_bundles_of_elems(t, cs.drop_last());
        assert forall|k: int| 0 <= k < cs.len() implies #[trigger] bundles_of(t, cs)[k]
            == bundle_of(t, cs[k]) by {
            if k < cs.len() - 1 {
                assert(bundles_of(t, cs)[k] == bundles_of(t, cs.drop_last())[k]);
                assert(cs.drop_last()[k] == cs[k]);
            }
        }
    }
}

/// How long a listing is, and what each of its rows is: the bundle of some
/// child of `p`, whose parent link points back at `p`.
pub proof fn lemma_sorted_entries_len(t: Seq<TreeNode>, p: int, mode: SortMode)
    ensures
        sorted_entries_spec(t, p, mode).len() == children_of(t, p).len(),
{
    lemma_bundles_of_elems(t, children_of(t, p));
    lemma_sort_len(mode, bundles_of(t, children_of(t, p)));
}

pub proof fn lemma_sorted_entries_elem(t: Seq<TreeNode>, p: int, mode: SortMode, k: int)
    requires
        0 <= p < t.len(),
        t.len() <= usize::MAX,
        0 <= k < sorted_entries_spec(t, p, mode).len(),
    ensures
        ({
            let b = sorted_entries_spec(t, p, mode)[k];
            &&& 0 <= b.index < t.len()
            &&& t[b.index as int].parent == Some((p as usize))
            &&& b == bundle_of(t, b.index as int)
        }),
{
    let cs = children_of(t, p);
    let bs = bundles_of(t, cs);
    let b = sorted_entries_spec(t, p, mode)[k];
    lemma_sort_elem(mode, bs, k);
    lemma_bundles_of_elems(t, cs);
    let m = choose|m: int| 0 <= m < bs.len() && bs[m] == b;
    lemma_children_below_bounds(t, p, t.len() as int);
    assert(b == bundle_of(t, cs[m]));
    assert(0 <= cs[m] < t.len());
}

/// Compares two entries under the active sort mode.
fn size_le_exec(mode: SortMode, a: &EntryDataBundle, b: &EntryDataBundle) -> (r: bool)
    ensures
        r == size_le(mode, *a, *b),
{
    match mode {
        SortMode::SizeAscending => a.size <= b.size,
        SortMode::SizeDescending => a.size >= b.size,
    }
}

/// Inserting at the first position whose entry is strictly greater is the
/// same as the specification's insertion.
proof fn lemma_insert_at(mode: SortMode, x: EntryDataBundle, s: Seq<EntryDataBundle>, j: int)
    requires
        0 <= j <= s.len(),
        forall|k: int| 0 <= k < j ==> size_le(mode, #[trigger] s[k], x),
        j < s.len() ==> !size_le(mode, s[j], x),
    ensures
        s.insert(j, x) =~= insert_sorted(mode, x, s),
    decreases j,
{
    if j == 0 {
        if s.len() == 0 {
            assert(s.insert(0, x) =~= seq![x]);
        } else {
            assert(s.insert(0, x) =~= seq![x] + s);
        }
    } else {
        assert(size_le(mode, s[0], x));
        assert(forall|k: int| 0 <= k < j - 1 ==> s.drop_first()[k] == s[k + 1]);
        lemma_insert_at(mode, x, s.drop_first(), j - 1);
        assert(s.insert(j, x) =~= seq![s[0]] + s.drop_first().insert(j - 1, x));
    }
}

/// Lists the children of `node` as entry bundles, ordered by `sorting`.
/// The result is exactly the specification's listing: the bundles of the
/// children in discovery order, stably sorted by size.
pub fn sorted_entries(tree: &Tree, node: usize, sorting: SortMode) -> (res: Vec<EntryDataBundle>)
    requires
        node < tree@.len(),
    ensures
        res@ == sorted_entries_spec(tree@, node as int, sorting),
        sorted_by(sorting, res@),
{
    let mut res: Vec<EntryDataBundle> = Vec::new();
    let n = tree.nodes.len();
    let mut i: usize = 0;
    while i < n
        invariant
            n == tree@.len(),
            node < n,
            i <= n,
            res@ == sort_by_size(sorting, bundles_of(tree@, children_below(tree@, node as int, i as int))),
            sorted_by(sorting, res@),
        decreases n - i,
    {
        let is_child = match tree.nodes[i].parent {
            Some(p) => p == node,
            None => false,
        };
        if is_child {
            let b = EntryDataBundle {
                index: i,
                name: tree.nodes[i].name.clone(),
                size: tree.nodes[i].size,
            };
            proof {
                assert(b == bundle_of(tree@, i as int));
            }
            let mut j: usize = 0;
            while j < res.len() && size_le_exec(sorting, &res[j], &b)
                invariant
                    j <= res.len(),
                    forall|k: int| 0 <= k < j ==> size_le(sorting, #[trigger] res@[k], b),
                decreases res.len() - j,
            {
                j = j + 1;
            }
            let ghost pre = res@;
            proof {
                lemma_insert_at(sorting, b, res@, j as int);
            }
            res.insert(j, b);
            proof {
                let cb0 = children_below(tree@, node as int, i as int);
                let cb1 = children_below(tree@, node as int, i + 1 as int);
                assert(cb1 == cb0.push(i as int));
                assert(cb0.push(i as int).drop_last() =~= cb0);
                assert(bundles_of(tree@, cb1) == bundles_of(tree@, cb0).push(b));
                let bs1 = bundles_of(tree@, cb1);
                assert(bs1.drop_last() =~= bundles_of(tree@, cb0));
                assert(sort_by_size(sorting, bs1) == insert_sorted(sorting, b, pre));
                lemma_insert_sorted_sorted(sorting, b, pre);
            }
        } else {
            proof {
                let cb0 = children_below(tree@, node as int, i as int);
                let cb1 = children_below(tree@, node as int, i + 1 as int);
                assert(cb1 == cb0);
            }
        }
        i = i + 1;
    }
    res
}

} // verus!
