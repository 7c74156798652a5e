//! The block tree as contracts see it: a list of blocks in which every
//! block but the first stands after its parent.

use crate::consensus::block::ExecutedBlock;
use crate::consensus::common::BlockInfo;
use crate::consensus::vote::QuorumCert;
use crate::hash::HashValue;
use std::sync::Arc;
use vstd::prelude::*;

verus! {

/// A block of the tree with the certificate that it carries, which
/// certifies its parent.
pub struct TreeNode<T> {
    pub executed: Arc<ExecutedBlock<T>>,
    pub qc: QuorumCert,
}

impl<T> TreeNode<T> {
    /// The name of the block.
    pub open spec fn id(self) -> HashValue {
        self.executed.block.id
    }

    /// The round of the block.
    pub open spec fn round(self) -> u64 {
        self.executed.block.round
    }

    /// The name of the block's parent.
    pub open spec fn parent_id(self) -> HashValue {
        self.executed.block.parent_id
    }
}

/// The block at `j` is the parent of the block at `i`: it has the name
/// that the other gives as its parent's, and a lower round.
pub open spec fn is_parent_of<T>(nodes: Seq<TreeNode<T>>, j: int, i: int) -> bool {
    nodes[j].id() == nodes[i].parent_id() && nodes[j].round() < nodes[i].round()
}

/// The parent of the block at `i` stands before it.
pub open spec fn has_parent_before<T>(nodes: Seq<TreeNode<T>>, i: int) -> bool {
    exists|j: int| 0 <= j < i && #[trigger] is_parent_of(nodes, j, i)
}

/// The index of the parent of the block at `i`.
pub open spec fn parent_index<T>(nodes: Seq<TreeNode<T>>, i: int) -> int {
    choose|j: int| 0 <= j < i && #[trigger] is_parent_of(nodes, j, i)
}

/// No name occurs twice.
pub open spec fn ids_distinct<T>(nodes: Seq<TreeNode<T>>) -> bool {
    forall|i: int, j: int|
        0 <= i < j < nodes.len() ==> (#[trigger] nodes[i]).id() != (#[trigger] nodes[j]).id()
}

/// The certificate that the block at `i` carries certifies its parent.
pub open spec fn certifies_parent<T>(nodes: Seq<TreeNode<T>>, i: int) -> bool {
    nodes[i].qc.data.block == (BlockInfo {
        id: nodes[i].parent_id(),
        round: nodes[parent_index(nodes, i)].round(),
    })
}

/// The list is a tree with its root at index 0: it is not empty, no name
/// occurs twice, and every block but the root stands after its parent, has
/// a higher round than its parent, and carries a certificate for it.
pub open spec fn tree_wf<T>(nodes: Seq<TreeNode<T>>) -> bool {
    &&& nodes.len() >= 1
    &&& ids_distinct(nodes)
    &&& forall|i: int| 1 <= i < nodes.len() ==> #[trigger] has_parent_before(nodes, i)
    &&& forall|i: int| 1 <= i < nodes.len() ==> #[trigger] certifies_parent(nodes, i)
}

/// A block of the name `id` is in the list.
pub open spec fn contains_id<T>(nodes: Seq<TreeNode<T>>, id: HashValue) -> bool {
    exists|i: int| 0 <= i < nodes.len() && (#[trigger] nodes[i]).id() == id
}

/// The index of the block of the name `id`.
pub open spec fn index_of_id<T>(nodes: Seq<TreeNode<T>>, id: HashValue) -> int {
    choose|i: int| 0 <= i < nodes.len() && (#[trigger] nodes[i]).id() == id
}

/// The indices of the blocks on the way from the root to the block at `i`,
/// both included.
pub open spec fn path_indices<T>(nodes: Seq<TreeNode<T>>, i: int) -> Seq<int>
    decreases i,
{
    if i <= 0 {
        seq![0int]
    } else {
        let p = parent_index(nodes, i);
        if 0 <= p < i {
            path_indices(nodes, p).push(i)
        } else {
            seq![i]
        }
    }
}

/// The block at `i` is the block at `a` or one of its descendants.
pub open spec fn descends<T>(nodes: Seq<TreeNode<T>>, i: int, a: int) -> bool
    decreases i,
{
    i == a || (i > 0 && {
        let p = parent_index(nodes, i);
        0 <= p < i && descends(nodes, p, a)
    })
}

/// The indices below `n` of the blocks that are the block at `a` or
/// descend from it, in rising order.
pub open spec fn kept_indices<T>(nodes: Seq<TreeNode<T>>, a: int, n: int) -> Seq<int>
    decreases n,
{
    if n <= 0 {
        Seq::empty()
    } else if descends(nodes, n - 1, a) {
        kept_indices(nodes, a, n - 1).push(n - 1)
    } else {
        kept_indices(nodes, a, n - 1)
    }
}

/// The entries of `nodes` at the given indices.
pub open spec fn select<T>(nodes: Seq<TreeNode<T>>, indices: Seq<int>) -> Seq<TreeNode<T>> {
    Seq::new(indices.len(), |m: int| nodes[indices[m]])
}

/// The blocks of `nodes` at the given indices.
pub open spec fn select_blocks<T>(nodes: Seq<TreeNode<T>>, indices: Seq<int>) -> Seq<
    Arc<ExecutedBlock<T>>,
> {
    Seq::new(indices.len(), |m: int| nodes[indices[m]].executed)
}

/// The tree that is left when the block at `a` becomes the root: that
/// block and its descendants, in the order they had.
pub open spec fn subtree<T>(nodes: Seq<TreeNode<T>>, a: int) -> Seq<TreeNode<T>> {
    select(nodes, kept_indices(nodes, a, nodes.len() as int))
}

/// The last `bound` entries of a list, or all where there are fewer.
pub open spec fn bounded<A>(s: Seq<A>, bound: nat) -> Seq<A> {
    if s.len() > bound {
        s.skip(s.len() - bound)
    } else {
        s
    }
}

/// In a tree the block of a name is found at one index only.
pub proof fn lemma_index_of_id<T>(nodes: Seq<TreeNode<T>>, i: int)
    requires
        ids_distinct(nodes),
        0 <= i < nodes.len(),
    ensures
        contains_id(nodes, nodes[i].id()),
        index_of_id(nodes, nodes[i].id()) == i,
{
    let c = index_of_id(nodes, nodes[i].id());
    if c < i {
        assert(nodes[c].id() != nodes[i].id());
    } else if i < c {
        assert(nodes[i].id() != nodes[c].id());
    }
}

/// In a tree a block has one parent: whatever stands before it under the
/// name of its parent is at the parent's index.
pub proof fn lemma_parent_unique<T>(nodes: Seq<TreeNode<T>>, i: int, j: int)
    requires
        ids_distinct(nodes),
        has_parent_before(nodes, i),
        1 <= i < nodes.len(),
        0 <= j < nodes.len(),
        nodes[j].id() == nodes[i].parent_id(),
    ensures
        parent_index(nodes, i) == j,
        0 <= j < i,
        is_parent_of(nodes, j, i),
{
    let p = parent_index(nodes, i);
    assert(is_parent_of(nodes, p, i));
    if p < j {
        assert(nodes[p].id() != nodes[j].id());
    } else if j < p {
        assert(nodes[j].id() != nodes[p].id());
    }
}

/// The way from the root to a block starts at the root, ends at the
/// block, and goes through rising indices.
pub proof fn lemma_path_shape<T>(nodes: Seq<TreeNode<T>>, i: int)
    requires
        tree_wf(nodes),
        0 <= i < nodes.len(),
    ensures
        path_indices(nodes, i).len() >= 1,
        path_indices(nodes, i)[0] == 0,
        path_indices(nodes, i).last() == i,
        forall|k: int|
            0 <= k < path_indices(nodes, i).len() ==> 0 <= #[trigger] path_indices(nodes, i)[k]
                <= i,
        forall|k: int|
            1 <= k < path_indices(nodes, i).len() ==> path_indices(nodes, i)[k - 1]
                == parent_index(nodes, #[trigger] path_indices(nodes, i)[k]) && path_indices(
                nodes,
                i,
            )[k - 1] < path_indices(nodes, i)[k],
    decreases i,
{
    if i > 0 {
        assert(has_parent_before(nodes, i));
        let p = parent_index(nodes, i);
        assert(is_parent_of(nodes, p, i));
        lemma_path_shape(nodes, p);
        let path = path_indices(nodes, i);
        let before = path_indices(nodes, p);
        assert(path == before.push(i));
        assert forall|k: int| 1 <= k < path.len() implies path[k - 1] == parent_index(
            nodes,
            #[trigger] path[k],
        ) && path[k - 1] < path[k] by {
            if k < before.len() {
                assert(path[k] == before[k]);
            }
        }
    }
}

/// A descendant never stands before its ancestor, and has a higher round
/// unless it is the ancestor itself.
pub proof fn lemma_descends_after<T>(nodes: Seq<TreeNode<T>>, i: int, a: int)
    requires
        tree_wf(nodes),
        0 <= i < nodes.len(),
        0 <= a < nodes.len(),
        descends(nodes, i, a),
    ensures
        a <= i,
        i != a ==> nodes[a].round() < nodes[i].round(),
    decreases i,
{
    if i != a {
        let p = parent_index(nodes, i);
        assert(has_parent_before(nodes, i));
        assert(is_parent_of(nodes, p, i));
        lemma_descends_after(nodes, p, a);
    }
}

/// Every block of a tree descends from the root.
pub proof fn lemma_descends_from_root<T>(nodes: Seq<TreeNode<T>>, i: int)
    requires
        tree_wf(nodes),
        0 <= i < nodes.len(),
    ensures
        descends(nodes, i, 0),
    decreases i,
{
    if i > 0 {
        assert(has_parent_before(nodes, i));
        let p = parent_index(nodes, i);
        assert(is_parent_of(nodes, p, i));
        lemma_descends_from_root(nodes, p);
    }
}

/// The kept indices are exactly the indices of the descendants, in rising
/// order.
pub proof fn lemma_kept_indices<T>(nodes: Seq<TreeNode<T>>, a: int, n: int)
    requires
        0 <= n,
    ensures
        forall|m: int|
            0 <= m < kept_indices(nodes, a, n).len() ==> 0 <= #[trigger] kept_indices(
                nodes,
                a,
                n,
            )[m] < n && descends(nodes, kept_indices(nodes, a, n)[m], a),
        forall|m: int, k: int|
            0 <= m < k < kept_indices(nodes, a, n).len() ==> #[trigger] kept_indices(nodes, a, n)[m]
                < #[trigger] kept_indices(nodes, a, n)[k],
        forall|i: int|
            0 <= i < n && descends(nodes, i, a) ==> exists|m: int|
                0 <= m < kept_indices(nodes, a, n).len() && #[trigger] kept_indices(nodes, a, n)[m]
                    == i,
        kept_indices(nodes, a, n).len() <= n,
    decreases n,
{
    if n > 0 {
        lemma_kept_indices(nodes, a, n - 1);
        let before = kept_indices(nodes, a, n - 1);
        let now = kept_indices(nodes, a, n);
        assert forall|i: int| 0 <= i < n && descends(nodes, i, a) implies exists|m: int|
            0 <= m < now.len() && #[trigger] now[m] == i by {
            if i < n - 1 {
                let m = choose|m: int| 0 <= m < before.len() && #[trigger] before[m] == i;
                assert(now[m] == i);
            } else {
                assert(now[now.len() - 1] == i);
            }
        }
    }
}

/// In what is left when a block becomes the root, every block but the
/// first stands after its parent and carries a certificate for it.
proof fn lemma_subtree_parent<T>(nodes: Seq<TreeNode<T>>, a: int, m: int)
    requires
        tree_wf(nodes),
        0 <= a < nodes.len(),
        1 <= m < subtree(nodes, a).len(),
        kept_indices(nodes, a, nodes.len() as int)[0] == a,
        ids_distinct(subtree(nodes, a)),
    ensures
        has_parent_before(subtree(nodes, a), m),
        certifies_parent(subtree(nodes, a), m),
{
    let n = nodes.len() as int;
    let idx = kept_indices(nodes, a, n);
    let f = subtree(nodes, a);
    lemma_kept_indices(nodes, a, n);
    let i = idx[m];
    assert(idx[0] < idx[m]);
    assert(has_parent_before(nodes, i));
    let p = parent_index(nodes, i);
    assert(is_parent_of(nodes, p, i));
    assert(descends(nodes, p, a));
    let mp = choose|mp: int| 0 <= mp < idx.len() && #[trigger] idx[mp] == p;
    if mp > m {
        assert(idx[m] < idx[mp]);
    }
    assert(is_parent_of(f, mp, m));
    lemma_parent_unique(f, m, mp);
    assert(certifies_parent(nodes, i));
}

/// When a block becomes the root, what is left is a tree again, with that
/// block as its root; it holds the blocks that descend from the new root
/// and no others.
pub proof fn lemma_subtree_wf<T>(nodes: Seq<TreeNode<T>>, a: int)
    requires
        tree_wf(nodes),
        0 <= a < nodes.len(),
    ensures
        tree_wf(subtree(nodes, a)),
        subtree(nodes, a)[0] == nodes[a],
        kept_indices(nodes, a, nodes.len() as int)[0] == a,
        forall|i: int|
            0 <= i < nodes.len() ==> (descends(nodes, i, a) <==> contains_id(
                subtree(nodes, a),
                (#[trigger] nodes[i]).id(),
            )),
        forall|id: HashValue|
            contains_id(subtree(nodes, a), id) ==> #[trigger] contains_id(nodes, id),
{
    let n = nodes.len() as int;
    let idx = kept_indices(nodes, a, n);
    let f = subtree(nodes, a);
    lemma_kept_indices(nodes, a, n);
    assert(descends(nodes, a, a));
    let ma = choose|m: int| 0 <= m < idx.len() && #[trigger] idx[m] == a;
    lemma_descends_after(nodes, idx[0], a);
    if ma > 0 {
        assert(idx[0] < idx[ma]);
    }
    assert(idx[0] == a);
    assert forall|m: int, k: int| 0 <= m < k < f.len() implies (#[trigger] f[m]).id() != (
    #[trigger] f[k]).id() by {
        assert(idx[m] < idx[k]);
        assert(nodes[idx[m]].id() != nodes[idx[k]].id());
    }
    assert(f.len() == idx.len());
    assert(ids_distinct(f));
    assert forall|m: int| 1 <= m < f.len() implies #[trigger] has_parent_before(f, m) by {
        lemma_subtree_parent(nodes, a, m);
    }
    assert forall|m: int| 1 <= m < f.len() implies #[trigger] certifies_parent(f, m) by {
        lemma_subtree_parent(nodes, a, m);
    }
    assert forall|i: int| 0 <= i < nodes.len() implies (descends(nodes, i, a) <==> contains_id(
        f,
        (#[trigger] nodes[i]).id(),
    )) by {
        if descends(nodes, i, a) {
            let m = choose|m: int| 0 <= m < idx.len() && #[trigger] idx[m] == i;
            assert(f[m].id() == nodes[i].id());
        }
        if contains_id(f, nodes[i].id()) {
            let m = index_of_id(f, nodes[i].id());
            let k = idx[m];
            assert(nodes[k].id() == nodes[i].id());
            if k < i {
                assert(nodes[k].id() != nodes[i].id());
            } else if i < k {
                assert(nodes[i].id() != nodes[k].id());
            }
        }
    }
    assert forall|id: HashValue| contains_id(f, id) implies #[trigger] contains_id(nodes, id) by {
        let m = index_of_id(f, id);
        assert(nodes[idx[m]].id() == id);
    }
}

/// The kept indices below `i` are the first of the kept indices below `n`.
pub proof fn lemma_kept_prefix<T>(nodes: Seq<TreeNode<T>>, a: int, i: int, n: int)
    requires
        0 <= i <= n,
    ensures
        kept_indices(nodes, a, i).len() <= kept_indices(nodes, a, n).len(),
        kept_indices(nodes, a, i) == kept_indices(nodes, a, n).take(
            kept_indices(nodes, a, i).len() as int,
        ),
    decreases n - i,
{
    if i == n {
        assert(kept_indices(nodes, a, n).take(kept_indices(nodes, a, n).len() as int)
            =~= kept_indices(nodes, a, n));
    } else {
        lemma_kept_prefix(nodes, a, i, n - 1);
        let shorter = kept_indices(nodes, a, n - 1);
        let longer = kept_indices(nodes, a, n);
        let k = kept_indices(nodes, a, i).len() as int;
        assert(shorter.take(k) =~= longer.take(k));
    }
}

/// A tree stays a tree when a block is put at its end that is new to it,
/// has its parent in it, a higher round than the parent, and a certificate
/// for the parent.
pub proof fn lemma_push_wf<T>(nodes: Seq<TreeNode<T>>, node: TreeNode<T>, p: int)
    requires
        tree_wf(nodes),
        !contains_id(nodes, node.id()),
        0 <= p < nodes.len(),
        nodes[p].id() == node.parent_id(),
        nodes[p].round() < node.round(),
        node.qc.data.block == (BlockInfo { id: node.parent_id(), round: nodes[p].round() }),
    ensures
        tree_wf(nodes.push(node)),
        parent_index(nodes.push(node), nodes.len() as int) == p,
        forall|i: int|
            1 <= i < nodes.len() ==> #[trigger] parent_index(nodes.push(node), i) == parent_index(
                nodes,
                i,
            ),
{
    let grown = nodes.push(node);
    let n = nodes.len() as int;
    assert forall|i: int, j: int| 0 <= i < j < grown.len() implies (#[trigger] grown[i]).id() != (
    #[trigger] grown[j]).id() by {
        if j == n {
            assert(nodes[i].id() != node.id());
        } else {
            assert(nodes[i].id() != nodes[j].id());
        }
    }
    assert(is_parent_of(grown, p, n));
    assert(has_parent_before(grown, n));
    lemma_parent_unique(grown, n, p);
    assert forall|i: int| 1 <= i < n implies #[trigger] parent_index(grown, i) == parent_index(
        nodes,
        i,
    ) by {
        assert(has_parent_before(nodes, i));
        let q = parent_index(nodes, i);
        assert(is_parent_of(nodes, q, i));
        assert(is_parent_of(grown, q, i));
        assert(has_parent_before(grown, i));
        lemma_parent_unique(grown, i, q);
    }
    assert forall|i: int| 1 <= i < grown.len() implies #[trigger] has_parent_before(grown, i) by {
        if i < n {
            assert(has_parent_before(nodes, i));
            let q = parent_index(nodes, i);
            assert(is_parent_of(nodes, q, i));
            assert(is_parent_of(grown, q, i));
        }
    }
    assert forall|i: int| 1 <= i < grown.len() implies #[trigger] certifies_parent(grown, i) by {
        if i < n {
            assert(certifies_parent(nodes, i));
            assert(parent_index(grown, i) == parent_index(nodes, i));
            assert(has_parent_before(nodes, i));
            assert(is_parent_of(nodes, parent_index(nodes, i), i));
        }
    }
}

/// The blocks on the way from the root to the block at `i`, both
/// included.
pub open spec fn path_blocks<T>(nodes: Seq<TreeNode<T>>, i: int) -> Seq<Arc<ExecutedBlock<T>>> {
    select_blocks(nodes, path_indices(nodes, i))
}

/// The place that the block at `i` of the old tree has in what is left
/// when the block at `a` becomes the root.
pub open spec fn place_in_subtree<T>(nodes: Seq<TreeNode<T>>, a: int, i: int) -> int {
    let kept = kept_indices(nodes, a, nodes.len() as int);
    choose|m: int| 0 <= m < kept.len() && #[trigger] kept[m] == i
}

/// A block that descends from the new root is in what is left, at its
/// place, and its parent in what is left is what its parent was.
proof fn lemma_place_in_subtree<T>(nodes: Seq<TreeNode<T>>, a: int, i: int)
    requires
        tree_wf(nodes),
        0 <= a < nodes.len(),
        0 <= i < nodes.len(),
        descends(nodes, i, a),
    ensures
        0 <= place_in_subtree(nodes, a, i) < subtree(nodes, a).len(),
        subtree(nodes, a)[place_in_subtree(nodes, a, i)] == nodes[i],
        i == a <==> place_in_subtree(nodes, a, i) == 0,
        i != a ==> parent_index(subtree(nodes, a), place_in_subtree(nodes, a, i))
            == place_in_subtree(nodes, a, parent_index(nodes, i)),
{
    let n = nodes.len() as int;
    let kept = kept_indices(nodes, a, n);
    let f = subtree(nodes, a);
    lemma_kept_indices(nodes, a, n);
    lemma_subtree_wf(nodes, a);
    let m = place_in_subtree(nodes, a, i);
    if m > 0 {
        assert(kept[0] < kept[m]);
    }
    if i != a {
        assert(has_parent_before(nodes, i));
        let p = parent_index(nodes, i);
        assert(is_parent_of(nodes, p, i));
        let mp = place_in_subtree(nodes, a, p);
        assert(f[mp].id() == f[m].parent_id());
        assert(has_parent_before(f, m));
        lemma_parent_unique(f, m, mp);
    }
}

/// When a block becomes the root, the way from the new root to a block
/// that stays is the end of the way that led to it from the old root: the
/// part from the new root on.
pub proof fn lemma_subtree_path<T>(nodes: Seq<TreeNode<T>>, a: int, i: int)
    requires
        tree_wf(nodes),
        0 <= a < nodes.len(),
        0 <= i < nodes.len(),
        descends(nodes, i, a),
    ensures
        path_indices(nodes, a).len() <= path_indices(nodes, i).len(),
        path_blocks(subtree(nodes, a), place_in_subtree(nodes, a, i)) == path_blocks(nodes, i).skip(
            path_indices(nodes, a).len() - 1,
        ),
        path_indices(nodes, i).take(path_indices(nodes, a).len() as int) == path_indices(nodes, a),
    decreases i,
{
    let f = subtree(nodes, a);
    let m = place_in_subtree(nodes, a, i);
    let before = path_indices(nodes, a).len() - 1;
    lemma_place_in_subtree(nodes, a, i);
    lemma_path_shape(nodes, a);
    lemma_path_shape(nodes, i);
    if i == a {
        assert(path_indices(f, 0) == seq![0int]);
        assert(path_blocks(f, m) =~= path_blocks(nodes, i).skip(before));
        assert(path_indices(nodes, i).take(path_indices(nodes, a).len() as int)
            =~= path_indices(nodes, a));
    } else {
        assert(has_parent_before(nodes, i));
        let p = parent_index(nodes, i);
        assert(is_parent_of(nodes, p, i));
        lemma_subtree_path(nodes, a, p);
        lemma_place_in_subtree(nodes, a, p);
        lemma_path_shape(nodes, p);
        let mp = place_in_subtree(nodes, a, p);
        lemma_subtree_wf(nodes, a);
        assert(has_parent_before(f, m));
        assert(is_parent_of(f, parent_index(f, m), m));
        assert(path_indices(f, m) == path_indices(f, mp).push(m));
        assert(path_indices(nodes, i) == path_indices(nodes, p).push(i));
        assert(path_blocks(f, m) =~= path_blocks(f, mp).push(nodes[i].executed));
        assert(path_blocks(nodes, i) =~= path_blocks(nodes, p).push(nodes[i].executed));
        assert(path_blocks(f, m) =~= path_blocks(nodes, i).skip(before));
        assert(path_indices(nodes, i).take(path_indices(nodes, a).len() as int)
            =~= path_indices(nodes, p).take(path_indices(nodes, a).len() as int));
    }
}

/// After a commit the way from the root to a block that stays is what it
/// was before, without the blocks up to the new root: for a block of the
/// name `id` that is left when the block of the name `root_id` becomes the
/// root, the blocks from the new root to it, the root left out, are the
/// blocks that led to it from the old root, those up to the new root left
/// out.
pub proof fn lemma_path_from_new_root<T>(nodes: Seq<TreeNode<T>>, root_id: HashValue, id: HashValue)
    requires
        tree_wf(nodes),
        contains_id(nodes, root_id),
        contains_id(subtree(nodes, index_of_id(nodes, root_id)), id),
    ensures
        contains_id(nodes, id),
        select_blocks(
            subtree(nodes, index_of_id(nodes, root_id)),
            path_indices(
                subtree(nodes, index_of_id(nodes, root_id)),
                index_of_id(subtree(nodes, index_of_id(nodes, root_id)), id),
            ).skip(1),
        ) == select_blocks(
            nodes,
            path_indices(nodes, index_of_id(nodes, id)).skip(
                path_indices(nodes, index_of_id(nodes, root_id)).len() as int,
            ),
        ),
{
    let a = index_of_id(nodes, root_id);
    let f = subtree(nodes, a);
    lemma_commit_is_final(nodes, a, id);
    let i = index_of_id(nodes, id);
    assert(nodes[i].id() == id);
    lemma_place_in_subtree(nodes, a, i);
    lemma_subtree_wf(nodes, a);
    let m = place_in_subtree(nodes, a, i);
    lemma_index_of_id(f, m);
    lemma_subtree_path(nodes, a, i);
    lemma_path_shape(nodes, a);
    lemma_path_shape(nodes, i);
    lemma_path_shape(f, m);
    let gone = path_indices(nodes, a).len() as int;
    assert(select_blocks(f, path_indices(f, m).skip(1)) =~= path_blocks(f, m).skip(1));
    assert(select_blocks(nodes, path_indices(nodes, i).skip(gone)) =~= path_blocks(nodes, i).skip(
        gone,
    ));
    assert(path_blocks(nodes, i).skip(gone - 1).skip(1) =~= path_blocks(nodes, i).skip(gone));
}

/// What is in the tree after a commit extends what was committed: a block
/// that is left when the block at `a` becomes the root is that block or
/// descends from it, and every other block that is left has a higher
/// round. No block of another branch, and none of a round that is not
/// above the committed one, can be committed afterwards.
pub proof fn lemma_commit_is_final<T>(nodes: Seq<TreeNode<T>>, a: int, id: HashValue)
    requires
        tree_wf(nodes),
        0 <= a < nodes.len(),
        contains_id(subtree(nodes, a), id),
    ensures
        contains_id(nodes, id),
        descends(nodes, index_of_id(nodes, id), a),
        id != nodes[a].id() ==> nodes[index_of_id(nodes, id)].round() > nodes[a].round(),
{
    lemma_subtree_wf(nodes, a);
    let i = index_of_id(nodes, id);
    assert(contains_id(nodes, id));
    assert(nodes[i].id() == id);
    lemma_descends_after(nodes, i, a);
}

/// A block on the way to the new root, the new root left out, is gone
/// after the commit, and so is every block that does not descend from the
/// new root.
pub proof fn lemma_commit_prunes<T>(nodes: Seq<TreeNode<T>>, a: int, i: int)
    requires
        tree_wf(nodes),
        0 <= a < nodes.len(),
        0 <= i < nodes.len(),
        !descends(nodes, i, a) || i < a,
    ensures
        !contains_id(subtree(nodes, a), nodes[i].id()),
{
    lemma_subtree_wf(nodes, a);
    if descends(nodes, i, a) {
        lemma_descends_after(nodes, i, a);
    }
}

} // verus!
