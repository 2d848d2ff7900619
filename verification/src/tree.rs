//! Arena representation of the directory-size tree.
//!
//! Nodes live in a flat table; a node reference is a plain index into it.
//! Each node carries its display name, its accumulated size and the index
//! of its parent. Parents always precede their children in the table, as
//! nodes are appended at discovery time and never removed, so node
//! references stay valid for the whole session.

use vstd::prelude::*;

verus! {

/// One node of the directory tree: a file or directory with its
/// accumulated size and a link to its parent.
#[derive(Clone, Debug)]
pub struct TreeNode {
    pub name: String,
    pub size: u64,
    pub parent: Option<usize>,
}

/// The directory tree: an append-only arena of nodes addressed by index.
#[derive(Clone, Debug)]
pub struct Tree {
    pub nodes: Vec<TreeNode>,
}

impl View for Tree {
    type V = Seq<TreeNode>;

    open spec fn view(&self) -> Seq<TreeNode> {
        self.nodes@
    }
}

/// The parent link of node `i`, if any, points to an earlier node.
pub open spec fn parent_link_ok(t: Seq<TreeNode>, i: int) -> bool {
    match t[i].parent {
        Some(p) => 0 <= p < i,
        None => true,
    }
}

/// Well-formedness of the arena: every parent link points to an earlier
/// node, so parent chains end at a top-level node after finitely many steps.
pub open spec fn tree_wf(t: Seq<TreeNode>) -> bool {
    forall|i: int| 0 <= i < t.len() ==> #[trigger] parent_link_ok(t, i)
}

impl Tree {
    pub open spec fn wf(&self) -> bool {
        tree_wf(self@)
    }

    /// An empty tree, to be grown node by node as the scan discovers entries.
    pub fn new() -> (t: Tree)
        ensures
            t@ =~= Seq::<TreeNode>::empty(),
            t.wf(),
    {
        Tree { nodes: Vec::new() }
    }

    /// Appends a node and returns its index, the reference under which it
    /// is known from now on. The parent, if any, must already be present.
    pub fn add_node(&mut self, parent: Option<usize>, name: String, size: u64) -> (idx: usize)
        requires
            old(self).wf(),
            match parent {
                Some(p) => p < old(self)@.len(),
                None => true,
            },
        ensures
            idx == old(self)@.len(),
            final(self)@ == old(self)@.push(TreeNode { name, size, parent }),
            final(self).wf(),
    {
        let idx = self.nodes.len();
        self.nodes.push(TreeNode { name, size, parent });
        proof {
            let t0 = old(self)@;
            let t1 = self@;
            assert forall|i: int| 0 <= i < t1.len() implies #[trigger] parent_link_ok(t1, i) by {
                if i < t1.len() - 1 {
                    assert(parent_link_ok(t0, i));
                    assert(t1[i] == t0[i]);
                }
            }
        }
        idx
    }

    pub fn len(&self) -> (n: usize)
        ensures
            n == self@.len(),
    {
        self.nodes.len()
    }
}

/// The children of node `p` among the first `n` nodes, in table order.
pub open spec fn children_below(t: Seq<TreeNode>, p: int, n: int) -> Seq<int>
    decreases n,
{
    if n <= 0 {
        Seq::<int>::empty()
    } else {
        let rest = children_below(t, p, n - 1);
        if t[n - 1].parent == Some((p as usize)) {
            rest.push(n - 1)
        } else {
            rest
        }
    }
}

/// The children of node `p`, in table order (which is discovery order).
pub open spec fn children_of(t: Seq<TreeNode>, p: int) -> Seq<int> {
    children_below(t, p, t.len() as int)
}

/// Every child index lies within the table, after its parent, and its
/// parent link points back at `p`.
pub proof fn lemma_children_below_bounds(t: Seq<TreeNode>, p: int, n: int)
    requires
        n <= t.len(),
    ensures
        forall|k: int|
            0 <= k < children_below(t, p, n).len() ==> {
                let c = #[trigger] children_below(t, p, n)[k];
                &&& 0 <= c < n
                &&& t[c].parent == Some((p as usize))
            },
    decreases n,
{
    if n > 0 {
        lemma_children_below_bounds(t, p, n - 1);
    }
}

/// Path of a node: the names on the way from the top-level ancestor down
/// to the node itself. The recursion is guarded so that it is well founded
/// on any table; on a well-formed tree the guards never bite.
pub open spec fn path_segments(t: Seq<TreeNode>, i: int) -> Seq<String>
    decreases i,
{
    if 0 <= i < t.len() {
        match t[i].parent {
            Some(p) => if 0 <= p < i {
                path_segments(t, p as int).push(t[i].name)
            } else {
                seq![t[i].name]
            },
            None => seq![t[i].name],
        }
    } else {
        Seq::<String>::empty()
    }
}

/// Resolves a node to its path, top-level ancestor first. The surrounding
/// application joins the segments into a filesystem path when it hands the
/// selection to an external opener.
pub fn path_of(tree: &Tree, idx: usize) -> (segs: Vec<String>)
    requires
        tree.wf(),
        idx < tree@.len(),
    ensures
        segs@ == path_segments(tree@, idx as int),
{
    let mut segs: Vec<String> = Vec::new();
    let mut j = idx;
    loop
        invariant_except_break
            tree.wf(),
            j < tree@.len(),
            path_segments(tree@, idx as int) == path_segments(tree@, j as int) + segs@,
        ensures
            segs@ == path_segments(tree@, idx as int),
        decreases j,
    {
        let ghost old_segs = segs@;
        segs.insert(0, tree.nodes[j].name.clone());
        proof {
            assert(segs@ =~= seq![tree@[j as int].name] + old_segs);
        }
        match tree.nodes[j].parent {
            Some(p) => {
                proof {
                    assert(parent_link_ok(tree@, j as int));
                    assert(0 <= p < j);
                    assert(path_segments(tree@, j as int) == path_segments(tree@, p as int).push(
                        tree@[j as int].name,
                    ));
                    assert(path_segments(tree@, idx as int) =~= path_segments(tree@, p as int)
                        + segs@);
                }
                j = p;
            },
            None => {
                proof {
                    assert(path_segments(tree@, j as int) =~= seq![tree@[j as int].name]);
                    assert(segs@ =~= path_segments(tree@, idx as int));
                }
                break;
            },
        }
    }
    segs
}

} // verus!
