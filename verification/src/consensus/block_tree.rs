//! The block tree: the blocks between the last commit and the frontier.

use crate::consensus::block::{Block, ExecutedBlock, StateComputeResult};
use crate::consensus::common::BlockInfo;
use crate::consensus::state_replication::StateComputer;
use crate::consensus::tree_spec::{
    bounded, certifies_parent, contains_id, descends, has_parent_before, ids_distinct,
    index_of_id, is_parent_of, kept_indices, lemma_index_of_id, lemma_kept_indices,
    lemma_kept_prefix, lemma_parent_unique, lemma_path_shape, lemma_push_wf, lemma_subtree_wf,
    parent_index, path_indices, select_blocks, subtree, tree_wf, TreeNode,
};
use crate::consensus::vote::{QuorumCert, QuorumCertView, VoteData};
use crate::hash::HashValue;
use std::sync::Arc;
use vstd::prelude::*;

verus! {

/// Calls `Arc::clone`, which hands out another handle to the same value.
#[verifier::external_body]
pub(crate) fn share<T>(a: &Arc<T>) -> (r: Arc<T>)
    ensures
        r == *a,
{
    Arc::clone(a)
}

/// What is wrong with a proposed block.
#[derive(Clone, Copy, Debug, PartialEq, Eq, Structural)]
pub enum ProposalFault {
    /// The parent of the block is not in the tree: it never was, or it was
    /// pruned.
    MissingParent,
    /// The round of the block is not higher than the round of its parent.
    RoundNotIncreasing,
    /// The certificate that comes with the block does not certify the
    /// block's parent.
    CertificateMismatch,
}

/// Why a block was not inserted.
#[derive(Debug)]
pub enum InsertError<T> {
    /// The block breaks the shape of the tree.
    InvalidProposal(ProposalFault),
    /// A block of this name is in the tree already; here it is.
    DuplicateBlock(Arc<ExecutedBlock<T>>),
}

/// Why nothing was committed.
#[derive(Clone, Copy, Debug, PartialEq, Eq, Structural)]
pub enum CommitError {
    /// The block is not in the tree.
    UnknownBlock,
}

/// What the tree says of a block that asks to be inserted.
#[derive(Clone, Copy, Debug, PartialEq, Eq, Structural)]
pub enum InsertCheck {
    /// A block of this name is in the tree, at this index.
    Duplicate(usize),
    /// The block is refused.
    Invalid(ProposalFault),
    /// The block may come in; its parent is at this index.
    Accept(usize),
}

/// What the tree says of a block that asks to be inserted, with the
/// certificate that comes with it. A block whose name is in the tree is a
/// duplicate. Any other is refused if its parent is not in the tree, if
/// its round is not above its parent's, or if the certificate does not
/// certify the parent; this is looked at in that order.
pub open spec fn insert_check<T>(nodes: Seq<TreeNode<T>>, block: Block<T>, qc: QuorumCertView) -> InsertCheck {
    if contains_id(nodes, block.id) {
        InsertCheck::Duplicate(index_of_id(nodes, block.id) as usize)
    } else if !contains_id(nodes, block.parent_id) {
        InsertCheck::Invalid(ProposalFault::MissingParent)
    } else {
        let p = index_of_id(nodes, block.parent_id);
        if block.round <= nodes[p].round() {
            InsertCheck::Invalid(ProposalFault::RoundNotIncreasing)
        } else if qc.data.block != (BlockInfo { id: block.parent_id, round: nodes[p].round() }) {
            InsertCheck::Invalid(ProposalFault::CertificateMismatch)
        } else {
            InsertCheck::Accept(p as usize)
        }
    }
}

/// Inserting a block twice inserts it once: after a block was accepted and
/// stands at the end of the tree, any block of the same name is found to
/// be a duplicate of it, whatever certificate comes with it. `insert_block`
/// and `insert_executed` then hand back the block that stands in the tree
/// and change nothing.
pub proof fn lemma_insert_idempotent<T>(
    nodes: Seq<TreeNode<T>>,
    inserted: TreeNode<T>,
    again: Block<T>,
    again_qc: QuorumCertView,
)
    requires
        tree_wf(nodes),
        nodes.len() < usize::MAX,
        insert_check(nodes, inserted.executed.block, inserted.qc@) is Accept,
        again.id == inserted.executed.block.id,
    ensures
        tree_wf(nodes.push(inserted)),
        insert_check(nodes.push(inserted), again, again_qc) == InsertCheck::Duplicate(
            nodes.len() as usize,
        ),
        nodes.push(inserted)[nodes.len() as int] == inserted,
{
    let p = index_of_id(nodes, inserted.executed.block.parent_id);
    assert(contains_id(nodes, inserted.executed.block.parent_id));
    lemma_push_wf(nodes, inserted, p);
    lemma_index_of_id(nodes.push(inserted), nodes.len() as int);
}

/// The chain of certificates that ends in `qc`: the certificate that the
/// parent of the certified block carries, the certificate that the
/// certified block carries, and `qc`. The chain is `qc` alone where the
/// tree does not hold the certified block, or holds it as its root or as a
/// child of its root: what such a chain could commit is committed already.
pub open spec fn chain_for<T>(nodes: Seq<TreeNode<T>>, qc: QuorumCertView) -> Seq<QuorumCertView> {
    if contains_id(nodes, qc.data.block.id) && index_of_id(nodes, qc.data.block.id) > 0
        && parent_index(nodes, index_of_id(nodes, qc.data.block.id)) > 0 {
        let b = index_of_id(nodes, qc.data.block.id);
        seq![nodes[parent_index(nodes, b)].qc@, nodes[b].qc@, qc]
    } else {
        seq![qc]
    }
}

/// What a chain of certificates commits is an ancestor of what its last
/// certificate certifies: the first certificate of the chain that ends in
/// `qc` certifies the grandparent of the block that `qc` certifies, and that
/// block stays in the tree when the grandparent becomes the root.
pub proof fn lemma_chain_commits_ancestor<T>(nodes: Seq<TreeNode<T>>, qc: QuorumCertView)
    requires
        tree_wf(nodes),
        chain_for(nodes, qc).len() == 3,
    ensures
        contains_id(nodes, chain_for(nodes, qc)[0].data.block.id),
        descends(
            nodes,
            index_of_id(nodes, qc.data.block.id),
            index_of_id(nodes, chain_for(nodes, qc)[0].data.block.id),
        ),
        contains_id(
            subtree(nodes, index_of_id(nodes, chain_for(nodes, qc)[0].data.block.id)),
            qc.data.block.id,
        ),
        chain_for(nodes, qc)[0].data.block.round < nodes[index_of_id(
            nodes,
            qc.data.block.id,
        )].round(),
{
    let b = index_of_id(nodes, qc.data.block.id);
    assert(nodes[b].id() == qc.data.block.id);
    assert(has_parent_before(nodes, b));
    let p = parent_index(nodes, b);
    assert(is_parent_of(nodes, p, b));
    assert(has_parent_before(nodes, p));
    let g = parent_index(nodes, p);
    assert(is_parent_of(nodes, g, p));
    assert(certifies_parent(nodes, p));
    lemma_index_of_id(nodes, g);
    assert(descends(nodes, g, g));
    assert(descends(nodes, p, g));
    assert(descends(nodes, b, g));
    lemma_subtree_wf(nodes, g);
}

/// The names of those of the first `n` blocks that have the block of the
/// name `id` as their parent, in their order. The root is nobody's child.
pub open spec fn child_ids<T>(nodes: Seq<TreeNode<T>>, id: HashValue, n: int) -> Seq<HashValue>
    decreases n,
{
    if n <= 1 {
        Seq::empty()
    } else if nodes[n - 1].parent_id() == id {
        child_ids(nodes, id, n - 1).push(nodes[n - 1].id())
    } else {
        child_ids(nodes, id, n - 1)
    }
}

/// The higher of two certificates, the first where they are of one round.
pub open spec fn higher_qc(current: QuorumCertView, seen: QuorumCertView) -> QuorumCertView {
    if seen.data.block.round > current.data.block.round {
        seen
    } else {
        current
    }
}

/// The indices of a list as integers.
pub open spec fn as_ints(v: Seq<usize>) -> Seq<int> {
    Seq::new(v.len(), |k: int| v[k] as int)
}

/// The speculative blocks between the last committed block, which is the
/// root, and the frontier, with the certificate that each block carries.
/// Blocks that were committed and left the tree are kept for a while, up to
/// a bound.
pub struct BlockTree<T> {
    nodes: Vec<TreeNode<T>>,
    retired: Vec<Arc<ExecutedBlock<T>>>,
    prune_bound: usize,
    highest_qc: QuorumCert,
}

impl<T> BlockTree<T> {
    /// The blocks of the tree, each after its parent, the root first.
    pub closed spec fn nodes(&self) -> Seq<TreeNode<T>> {
        self.nodes@
    }

    /// The committed blocks that left the tree and are still kept, oldest
    /// first.
    pub closed spec fn retired(&self) -> Seq<Arc<ExecutedBlock<T>>> {
        self.retired@
    }

    /// How many committed blocks are kept at most after they left the tree.
    pub closed spec fn prune_bound(&self) -> nat {
        self.prune_bound as nat
    }

    /// The certificate of the highest round that came in with a block.
    pub closed spec fn highest_qc(&self) -> QuorumCertView {
        self.highest_qc@
    }

    /// The tree is in order: its blocks make a tree and no more committed
    /// blocks are kept than the bound allows. `new` makes it so and every
    /// method keeps it so.
    pub open spec fn wf(&self) -> bool {
        &&& tree_wf(self.nodes())
        &&& self.retired().len() <= self.prune_bound()
    }

    /// The tree that holds the root alone. `root_qc` is the certificate
    /// that the root carries.
    pub fn new(root: ExecutedBlock<T>, root_qc: QuorumCert, prune_bound: usize) -> (tree: Self)
        ensures
            tree.wf(),
            tree.nodes().len() == 1,
            *tree.nodes()[0].executed == root,
            tree.nodes()[0].qc == root_qc,
            tree.retired().len() == 0,
            tree.prune_bound() == prune_bound,
            tree.highest_qc() == root_qc@,
    {
        let highest_qc = root_qc.clone();
        let mut nodes: Vec<TreeNode<T>> = Vec::new();
        nodes.push(TreeNode { executed: Arc::new(root), qc: root_qc });
        BlockTree { nodes, retired: Vec::new(), prune_bound, highest_qc }
    }

    /// The number of blocks in the tree, the root included.
    pub fn len(&self) -> (n: usize)
        ensures
            n == self.nodes().len(),
    {
        self.nodes.len()
    }

    /// The root: the last committed block.
    pub fn root(&self) -> (root: Arc<ExecutedBlock<T>>)
        requires
            self.wf(),
        ensures
            root == self.nodes()[0].executed,
    {
        share(&self.nodes[0].executed)
    }

    /// The committed blocks that left the tree and are still kept, oldest
    /// first.
    pub fn retired_blocks(&self) -> (blocks: Vec<Arc<ExecutedBlock<T>>>)
        ensures
            blocks@ == self.retired(),
    {
        let mut blocks: Vec<Arc<ExecutedBlock<T>>> = Vec::new();
        let mut k: usize = 0;
        while k < self.retired.len()
            invariant
                k <= self.retired.len(),
                blocks@ == self.retired@.take(k as int),
            decreases self.retired.len() - k,
        {
            blocks.push(share(&self.retired[k]));
            k += 1;
            assert(blocks@ =~= self.retired@.take(k as int));
        }
        assert(self.retired@.take(k as int) =~= self.retired@);
        blocks
    }

    /// The index of the block of the name `id`, if it is in the tree.
    pub fn find(&self, id: &HashValue) -> (r: Option<usize>)
        requires
            self.wf(),
        ensures
            r is Some <==> contains_id(self.nodes(), *id),
            r matches Some(i) ==> i < self.nodes().len() && i == index_of_id(self.nodes(), *id)
                && self.nodes()[i as int].id() == *id,
    {
        let mut i: usize = 0;
        while i < self.nodes.len()
            invariant
                i <= self.nodes.len(),
                ids_distinct(self.nodes@),
                forall|j: int| 0 <= j < i ==> (#[trigger] self.nodes@[j]).id() != *id,
            decreases self.nodes.len() - i,
        {
            if self.nodes[i].executed.block.id == *id {
                proof {
                    lemma_index_of_id(self.nodes@, i as int);
                }
                return Some(i);
            }
            i += 1;
        }
        None
    }

    /// Whether a block of the name `id` is in the tree.
    pub fn block_exists(&self, id: &HashValue) -> (r: bool)
        requires
            self.wf(),
        ensures
            r == contains_id(self.nodes(), *id),
    {
        self.find(id).is_some()
    }

    /// The block of the name `id`, if it is in the tree.
    pub fn get_block(&self, id: &HashValue) -> (r: Option<Arc<ExecutedBlock<T>>>)
        requires
            self.wf(),
        ensures
            r is Some <==> contains_id(self.nodes(), *id),
            r matches Some(block) ==> block == self.nodes()[index_of_id(self.nodes(), *id)].executed,
    {
        match self.find(id) {
            Some(i) => Some(share(&self.nodes[i].executed)),
            None => None,
        }
    }

    /// The certificate that the block of the name `id` carries, if the
    /// block is in the tree.
    pub fn get_quorum_cert_for_block(&self, id: &HashValue) -> (r: Option<QuorumCert>)
        requires
            self.wf(),
        ensures
            r is Some <==> contains_id(self.nodes(), *id),
            r matches Some(qc) ==> qc@ == self.nodes()[index_of_id(self.nodes(), *id)].qc@,
    {
        match self.find(id) {
            Some(i) => Some(self.nodes[i].qc.clone()),
            None => None,
        }
    }

    /// What the certificate certifies that the block of the name `id`
    /// carries, if the block is in the tree.
    pub fn certified_by(&self, id: &HashValue) -> (r: Option<VoteData>)
        requires
            self.wf(),
        ensures
            r is Some <==> contains_id(self.nodes(), *id),
            r matches Some(data) ==> data == self.nodes()[index_of_id(self.nodes(), *id)].qc.data,
    {
        match self.find(id) {
            Some(i) => Some(self.nodes[i].qc.data),
            None => None,
        }
    }

    /// The chain of certificates that ends in `qc`: see `chain_for`.
    pub fn chain_to(&self, qc: &QuorumCert) -> (chain: Vec<QuorumCert>)
        requires
            self.wf(),
        ensures
            chain@.len() == chain_for(self.nodes(), qc@).len(),
            forall|k: int|
                0 <= k < chain@.len() ==> (#[trigger] chain@[k])@ == chain_for(self.nodes(), qc@)[k],
    {
        let mut chain: Vec<QuorumCert> = Vec::new();
        match self.find(&qc.data.block.id) {
            Some(b) => {
                if b > 0 {
                    let p = self.parent_of(b);
                    if p > 0 {
                        chain.push(self.nodes[p].qc.clone());
                        chain.push(self.nodes[b].qc.clone());
                    }
                }
            },
            None => {},
        }
        chain.push(qc.clone());
        chain
    }

    /// The certificate of the highest round that came in with a block.
    pub fn highest_quorum_cert(&self) -> (qc: QuorumCert)
        ensures
            qc@ == self.highest_qc(),
    {
        self.highest_qc.clone()
    }

    /// Takes note of a certificate for a block of the tree: the highest
    /// certificate moves up to it if it is of a higher round. A certificate
    /// for a block that is not in the tree changes nothing.
    pub fn observe_qc(&mut self, qc: &QuorumCert)
        requires
            old(self).wf(),
        ensures
            final(self).wf(),
            final(self).nodes() == old(self).nodes(),
            final(self).retired() == old(self).retired(),
            final(self).prune_bound() == old(self).prune_bound(),
            final(self).highest_qc() == (if contains_id(old(self).nodes(), qc.data.block.id) {
                higher_qc(old(self).highest_qc(), qc@)
            } else {
                old(self).highest_qc()
            }),
    {
        if self.find(&qc.data.block.id).is_some() && qc.data.block.round
            > self.highest_qc.data.block.round {
            self.highest_qc = qc.clone();
        }
    }

    /// The names of the blocks of the tree that have the block of the
    /// name `id` as their parent, in the order in which they came in.
    pub fn children(&self, id: &HashValue) -> (list: Vec<HashValue>)
        requires
            self.wf(),
        ensures
            list@ == child_ids(self.nodes(), *id, self.nodes().len() as int),
    {
        let mut list: Vec<HashValue> = Vec::new();
        let mut i: usize = 1;
        while i < self.nodes.len()
            invariant
                1 <= i <= self.nodes.len(),
                list@ == child_ids(self.nodes@, *id, i as int),
            decreases self.nodes.len() - i,
        {
            if self.nodes[i].executed.block.parent_id == *id {
                list.push(self.nodes[i].executed.block.id);
            }
            i += 1;
        }
        list
    }

    /// The index of the parent of the block at `i`, which is not the root.
    fn parent_of(&self, i: usize) -> (p: usize)
        requires
            self.wf(),
            1 <= i < self.nodes().len(),
        ensures
            p == parent_index(self.nodes(), i as int),
            p < i,
            is_parent_of(self.nodes(), p as int, i as int),
    {
        proof {
            assert(has_parent_before(self.nodes@, i as int));
            assert(is_parent_of(self.nodes@, parent_index(self.nodes@, i as int), i as int));
        }
        let parent_id = self.nodes[i].executed.block.parent_id;
        let mut j: usize = 0;
        loop
            invariant
                j < i,
                i < self.nodes@.len(),
                parent_id == self.nodes@[i as int].parent_id(),
                j <= parent_index(self.nodes@, i as int) < i,
                self.nodes@[parent_index(self.nodes@, i as int)].id() == parent_id,
                tree_wf(self.nodes@),
                has_parent_before(self.nodes@, i as int),
            decreases i - j,
        {
            if self.nodes[j].executed.block.id == parent_id {
                proof {
                    lemma_parent_unique(self.nodes@, i as int, j as int);
                }
                return j;
            }
            j += 1;
        }
    }

    /// What the tree says of a block that asks to be inserted.
    pub fn check_insert(&self, block: &Block<T>, qc: &QuorumCert) -> (c: InsertCheck)
        requires
            self.wf(),
        ensures
            c == insert_check(self.nodes(), *block, qc@),
            c matches InsertCheck::Duplicate(i) ==> i < self.nodes().len() && self.nodes()[i as int].id()
                == block.id,
            c matches InsertCheck::Accept(p) ==> p < self.nodes().len() && self.nodes()[p as int].id()
                == block.parent_id && self.nodes()[p as int].round() < block.round
                && !contains_id(self.nodes(), block.id),
    {
        match self.find(&block.id) {
            Some(i) => InsertCheck::Duplicate(i),
            None => {
                match self.find(&block.parent_id) {
                    None => InsertCheck::Invalid(ProposalFault::MissingParent),
                    Some(p) => {
                        let parent_round = self.nodes[p].executed.block.round;
                        if block.round <= parent_round {
                            InsertCheck::Invalid(ProposalFault::RoundNotIncreasing)
                        } else if qc.data.block != (BlockInfo {
                            id: block.parent_id,
                            round: parent_round,
                        }) {
                            InsertCheck::Invalid(ProposalFault::CertificateMismatch)
                        } else {
                            InsertCheck::Accept(p)
                        }
                    },
                }
            },
        }
    }

    /// Inserts a block that was executed already, with the certificate
    /// that comes with it. What `insert_check` says decides: a duplicate
    /// gives back the block that is in the tree and changes nothing; a
    /// refused block changes nothing; an accepted block goes to the end of
    /// the tree and is handed back, and the highest certificate moves up
    /// if the new one is of a higher round.
    pub fn insert_executed(&mut self, executed: ExecutedBlock<T>, qc: QuorumCert) -> (r: Result<
        Arc<ExecutedBlock<T>>,
        InsertError<T>,
    >)
        requires
            old(self).wf(),
        ensures
            final(self).wf(),
            final(self).retired() == old(self).retired(),
            final(self).prune_bound() == old(self).prune_bound(),
            match insert_check(old(self).nodes(), executed.block, qc@) {
                InsertCheck::Duplicate(i) => {
                    &&& r matches Err(InsertError::DuplicateBlock(existing))
                    &&& existing == old(self).nodes()[i as int].executed
                    &&& existing == old(self).nodes()[index_of_id(
                        old(self).nodes(),
                        executed.block.id,
                    )].executed
                    &&& final(self).nodes() == old(self).nodes()
                    &&& final(self).highest_qc() == old(self).highest_qc()
                },
                InsertCheck::Invalid(fault) => {
                    &&& r matches Err(InsertError::InvalidProposal(f))
                    &&& f == fault
                    &&& final(self).nodes() == old(self).nodes()
                    &&& final(self).highest_qc() == old(self).highest_qc()
                },
                InsertCheck::Accept(_) => {
                    &&& r matches Ok(inserted)
                    &&& *inserted == executed
                    &&& final(self).nodes() == old(self).nodes().push(
                        TreeNode { executed: inserted, qc },
                    )
                    &&& final(self).highest_qc() == higher_qc(old(self).highest_qc(), qc@)
                },
            },
    {
        match self.check_insert(&executed.block, &qc) {
            InsertCheck::Duplicate(i) => {
                proof {
                    lemma_index_of_id(self.nodes@, i as int);
                }
                Err(InsertError::DuplicateBlock(share(&self.nodes[i].executed)))
            },
            InsertCheck::Invalid(fault) => Err(InsertError::InvalidProposal(fault)),
            InsertCheck::Accept(p) => {
                if qc.data.block.round > self.highest_qc.data.block.round {
                    self.highest_qc = qc.clone();
                }
                let inserted = Arc::new(executed);
                let handle = share(&inserted);
                let node = TreeNode { executed: inserted, qc };
                proof {
                    lemma_push_wf(self.nodes@, node, p as int);
                }
                self.nodes.push(node);
                Ok(handle)
            },
        }
    }

    /// The state after the block at `p`, on which its children are
    /// executed, unless the execution of the block failed.
    pub fn state_at(&self, p: usize) -> (state: Option<HashValue>)
        requires
            p < self.nodes().len(),
        ensures
            state == (match self.nodes()[p as int].executed.compute_result {
                StateComputeResult::Executed { state_id } => Some(state_id),
                StateComputeResult::Failed => None,
            }),
    {
        self.nodes[p].executed.state_id()
    }

    /// Inserts a proposed block with the certificate that comes with it.
    /// A block that `insert_check` accepts is executed on the state of its
    /// parent, which `state_at` gives; the result is kept with the block,
    /// also where it is a failure, and a block whose parent failed fails
    /// too. For the rest see `insert_executed`.
    pub fn insert_block<C: StateComputer<T>>(
        &mut self,
        computer: &C,
        block: Block<T>,
        qc: QuorumCert,
    ) -> (r: Result<Arc<ExecutedBlock<T>>, InsertError<T>>)
        requires
            old(self).wf(),
        ensures
            final(self).wf(),
            final(self).retired() == old(self).retired(),
            final(self).prune_bound() == old(self).prune_bound(),
            match insert_check(old(self).nodes(), block, qc@) {
                InsertCheck::Duplicate(i) => {
                    &&& r matches Err(InsertError::DuplicateBlock(existing))
                    &&& existing == old(self).nodes()[i as int].executed
                    &&& existing == old(self).nodes()[index_of_id(
                        old(self).nodes(),
                        block.id,
                    )].executed
                    &&& final(self).nodes() == old(self).nodes()
                    &&& final(self).highest_qc() == old(self).highest_qc()
                },
                InsertCheck::Invalid(fault) => {
                    &&& r matches Err(InsertError::InvalidProposal(f))
                    &&& f == fault
                    &&& final(self).nodes() == old(self).nodes()
                    &&& final(self).highest_qc() == old(self).highest_qc()
                },
                InsertCheck::Accept(p) => {
                    &&& r matches Ok(inserted)
                    &&& inserted.block == block
                    &&& old(self).nodes()[p as int].executed.compute_result
                        == StateComputeResult::Failed ==> inserted.compute_result
                        == StateComputeResult::Failed
                    &&& final(self).nodes() == old(self).nodes().push(
                        TreeNode { executed: inserted, qc },
                    )
                    &&& final(self).highest_qc() == higher_qc(old(self).highest_qc(), qc@)
                },
            },
    {
        let compute_result = match self.check_insert(&block, &qc) {
            InsertCheck::Accept(p) => {
                match self.state_at(p) {
                    Some(parent_state_id) => computer.execute(&parent_state_id, &block.payload),
                    None => StateComputeResult::Failed,
                }
            },
            _ => StateComputeResult::Failed,
        };
        self.insert_executed(ExecutedBlock { block, compute_result }, qc)
    }

    /// The indices of the blocks on the way from the root to the block at
    /// `a`, both included.
    #[verifier::rlimit(40)]
    fn path_to(&self, a: usize) -> (path: Vec<usize>)
        requires
            self.wf(),
            a < self.nodes().len(),
        ensures
            as_ints(path@) == path_indices(self.nodes(), a as int),
            forall|k: int| 0 <= k < path@.len() ==> #[trigger] path@[k] <= a,
    {
        let ghost target = path_indices(self.nodes@, a as int);
        proof {
            lemma_path_shape(self.nodes@, a as int);
        }
        let mut rev: Vec<usize> = Vec::new();
        let mut cur: usize = a;
        while cur != 0
            invariant
                self.wf(),
                cur <= a,
                a < self.nodes@.len(),
                target == path_indices(self.nodes@, a as int),
                rev@.len() < target.len(),
                cur == target[target.len() - 1 - rev@.len()],
                forall|m: int| 0 <= m < rev@.len() ==> #[trigger] rev@[m] == target[target.len() - 1 - m],
                target.len() >= 1,
                target[0] == 0,
                forall|k: int|
                    1 <= k < target.len() ==> target[k - 1] == parent_index(
                        self.nodes@,
                        #[trigger] target[k],
                    ) && target[k - 1] < target[k],
                forall|k: int| 0 <= k < target.len() ==> 0 <= #[trigger] target[k] <= a,
            decreases cur,
        {
            let ghost k = target.len() - 1 - rev@.len();
            assert(k >= 1) by {
                if k == 0 {
                    assert(target[0] == 0);
                }
            }
            rev.push(cur);
            let parent = self.parent_of(cur);
            assert(target[k - 1] == parent_index(self.nodes@, target[k]));
            cur = parent;
        }
        rev.push(cur);
        assert(rev@.len() == target.len()) by {
            let k = target.len() - rev@.len();
            if k > 0 {
                assert(target[k - 1] < target[k]);
            }
        }
        let mut path: Vec<usize> = Vec::new();
        while rev.len() > 0
            invariant
                path@.len() + rev@.len() == target.len(),
                forall|m: int| 0 <= m < rev@.len() ==> #[trigger] rev@[m] == target[target.len() - 1 - m],
                forall|k: int| 0 <= k < path@.len() ==> #[trigger] path@[k] == target[k],
                forall|k: int| 0 <= k < target.len() ==> 0 <= #[trigger] target[k] <= a,
            decreases rev.len(),
        {
            let last = rev.len() - 1;
            let x = rev[last];
            rev.pop();
            path.push(x);
        }
        assert(as_ints(path@) =~= target);
        path
    }

    /// The blocks at the given indices.
    fn blocks_at(&self, indices: &Vec<usize>, from: usize, to: usize) -> (blocks: Vec<
        Arc<ExecutedBlock<T>>,
    >)
        requires
            from <= to <= indices@.len(),
            forall|k: int| 0 <= k < indices@.len() ==> #[trigger] indices@[k] < self.nodes().len(),
        ensures
            blocks@ == select_blocks(self.nodes(), as_ints(indices@).subrange(from as int, to as int)),
    {
        let mut blocks: Vec<Arc<ExecutedBlock<T>>> = Vec::new();
        let mut k: usize = from;
        let ghost wanted = as_ints(indices@).subrange(from as int, to as int);
        while k < to
            invariant
                from <= k <= to,
                to <= indices@.len(),
                wanted == as_ints(indices@).subrange(from as int, to as int),
                forall|j: int| 0 <= j < indices@.len() ==> #[trigger] indices@[j] < self.nodes@.len(),
                blocks@.len() == k - from,
                forall|j: int|
                    0 <= j < blocks@.len() ==> #[trigger] blocks@[j] == self.nodes@[wanted[j]].executed,
            decreases to - k,
        {
            let at = indices[k];
            blocks.push(share(&self.nodes[at].executed));
            k += 1;
        }
        assert(blocks@ =~= select_blocks(self.nodes@, wanted));
        blocks
    }

    /// The blocks on the way from the root to the block of the name `id`:
    /// the root left out, the block itself included, each after its parent.
    /// There is no way to a block that is not in the tree.
    pub fn path_from_root(&self, id: &HashValue) -> (r: Option<Vec<Arc<ExecutedBlock<T>>>>)
        requires
            self.wf(),
        ensures
            r is Some <==> contains_id(self.nodes(), *id),
            r matches Some(path) ==> path@ == select_blocks(
                self.nodes(),
                path_indices(self.nodes(), index_of_id(self.nodes(), *id)).skip(1),
            ),
    {
        match self.find(id) {
            None => None,
            Some(a) => {
                let indices = self.path_to(a);
                proof {
                    lemma_path_shape(self.nodes@, a as int);
                    assert(as_ints(indices@).subrange(1, indices@.len() as int) =~= path_indices(
                        self.nodes@,
                        a as int,
                    ).skip(1));
                }
                Some(self.blocks_at(&indices, 1, indices.len()))
            },
        }
    }

    /// For each block of the tree, whether it is the block at `a` or one
    /// of its descendants.
    fn descendants_of(&self, a: usize) -> (keep: Vec<bool>)
        requires
            self.wf(),
            a < self.nodes().len(),
        ensures
            keep@.len() == self.nodes().len(),
            forall|j: int|
                0 <= j < keep@.len() ==> #[trigger] keep@[j] == descends(self.nodes(), j, a as int),
    {
        let n = self.nodes.len();
        let mut keep: Vec<bool> = Vec::new();
        let mut i: usize = 0;
        while i < n
            invariant
                i <= n,
                n == self.nodes@.len(),
                a < n,
                self.wf(),
                keep@.len() == i,
                forall|j: int|
                    0 <= j < i ==> #[trigger] keep@[j] == descends(self.nodes@, j, a as int),
            decreases n - i,
        {
            let flag = if i == a {
                true
            } else if i == 0 {
                false
            } else {
                let p = self.parent_of(i);
                keep[p]
            };
            keep.push(flag);
            i += 1;
        }
        keep
    }

    /// Commits the block of the name `block_id`, which the caller has found
    /// to be the head of a 3-chain. The block becomes the root. It and its
    /// descendants stay, in the order they had; every other block leaves
    /// the tree. The result is the newly committed blocks, oldest first:
    /// the way from the old root to the new one, the old root left out. The
    /// blocks on that way that leave the tree are kept with the committed
    /// blocks that left before, of which the oldest are dropped where there
    /// are more than the bound allows. A block that is not in the tree is
    /// not committed and nothing changes.
    #[verifier::rlimit(40)]
    pub fn commit(&mut self, block_id: &HashValue) -> (r: Result<
        Vec<Arc<ExecutedBlock<T>>>,
        CommitError,
    >)
        requires
            old(self).wf(),
        ensures
            final(self).wf(),
            final(self).prune_bound() == old(self).prune_bound(),
            final(self).highest_qc() == old(self).highest_qc(),
            r is Ok <==> contains_id(old(self).nodes(), *block_id),
            r matches Err(e) ==> e == CommitError::UnknownBlock && final(self).nodes() == old(
                self,
            ).nodes() && final(self).retired() == old(self).retired(),
            r matches Ok(committed) ==> ({
                let a = index_of_id(old(self).nodes(), *block_id);
                let path = path_indices(old(self).nodes(), a);
                &&& committed@ == select_blocks(old(self).nodes(), path.skip(1))
                &&& final(self).nodes() == subtree(old(self).nodes(), a)
                &&& final(self).retired() == bounded(
                    old(self).retired() + select_blocks(old(self).nodes(), path.drop_last()),
                    old(self).prune_bound(),
                )
            }),
    {
        let a = match self.find(block_id) {
            None => {
                return Err(CommitError::UnknownBlock);
            },
            Some(a) => a,
        };
        let ghost s = self.nodes@;
        let ghost way = path_indices(s, a as int);
        let path = self.path_to(a);
        proof {
            lemma_path_shape(s, a as int);
            assert(as_ints(path@).subrange(1, path@.len() as int) =~= way.skip(1));
            assert(as_ints(path@).subrange(0, path@.len() - 1) =~= way.drop_last());
        }
        let committed = self.blocks_at(&path, 1, path.len());
        let mut leaving = self.blocks_at(&path, 0, path.len() - 1);
        let keep = self.descendants_of(a);
        let n = self.nodes.len();

        let ghost all = self.retired@ + leaving@;
        self.retired.append(&mut leaving);
        assert(self.retired@ =~= all.skip(0));
        while self.retired.len() > self.prune_bound
            invariant
                self.retired@.len() <= all.len(),
                all.len() <= self.prune_bound ==> self.retired@.len() == all.len(),
                self.retired@ == all.skip(all.len() - self.retired@.len()),
                all.len() > self.prune_bound ==> self.retired@.len() >= self.prune_bound,
                self.prune_bound == old(self).prune_bound,
                self.nodes@ == s,
                self.highest_qc@ == old(self).highest_qc@,
            decreases self.retired.len(),
        {
            self.retired.remove(0);
            assert(self.retired@ =~= all.skip(all.len() - self.retired@.len()));
        }
        assert(self.retired@ =~= bounded(all, self.prune_bound as nat)) by {
            if all.len() <= self.prune_bound {
                assert(all.skip(0) =~= all);
            }
        }

        let ghost kept = kept_indices(s, a as int, n as int);
        let mut old_nodes: Vec<TreeNode<T>> = Vec::new();
        core::mem::swap(&mut self.nodes, &mut old_nodes);
        let mut rev: Vec<TreeNode<T>> = Vec::new();
        proof {
            assert(s.take(n as int) =~= s);
            lemma_kept_indices(s, a as int, n as int);
        }
        while old_nodes.len() > 0
            invariant
                old_nodes@.len() <= n,
                n == s.len(),
                old_nodes@ == s.take(old_nodes@.len() as int),
                keep@.len() == n,
                forall|j: int| 0 <= j < n ==> #[trigger] keep@[j] == descends(s, j, a as int),
                kept == kept_indices(s, a as int, n as int),
                kept_indices(s, a as int, old_nodes@.len() as int).len() + rev@.len() == kept.len(),
                forall|m: int|
                    0 <= m < rev@.len() ==> #[trigger] rev@[m] == s[kept[kept.len() - 1 - m]],
            decreases old_nodes.len(),
        {
            let last = old_nodes.len() - 1;
            proof {
                lemma_kept_prefix(s, a as int, last + 1, n as int);
                lemma_kept_prefix(s, a as int, last as int, n as int);
                assert(s.take(last + 1).drop_last() =~= s.take(last as int));
            }
            let node = old_nodes.pop();
            match node {
                Some(node) => {
                    if keep[last] {
                        proof {
                            let shorter = kept_indices(s, a as int, last as int);
                            let longer = kept_indices(s, a as int, last + 1);
                            assert(longer == shorter.push(last as int));
                            assert(kept.take(longer.len() as int)[shorter.len() as int] == last);
                        }
                        rev.push(node);
                    }
                },
                None => {},
            }
        }
        while rev.len() > 0
            invariant
                self.nodes@.len() + rev@.len() == kept.len(),
                forall|m: int|
                    0 <= m < rev@.len() ==> #[trigger] rev@[m] == s[kept[kept.len() - 1 - m]],
                forall|m: int| 0 <= m < self.nodes@.len() ==> #[trigger] self.nodes@[m] == s[kept[m]],
                self.retired@ == bounded(all, old(self).prune_bound as nat),
                self.prune_bound == old(self).prune_bound,
                self.highest_qc@ == old(self).highest_qc@,
            decreases rev.len(),
        {
            let node = rev.pop();
            match node {
                Some(node) => {
                    self.nodes.push(node);
                },
                None => {},
            }
        }
        proof {
            lemma_subtree_wf(s, a as int);
            assert(self.nodes@ =~= subtree(s, a as int));
        }
        Ok(committed)
    }
}

} // verus!
