//! The event processor: the state machine that takes proposals, votes,
//! timeouts and sync information, drives the block tree, the
//! quorum-certificate engine and the safety rules, and says what is to be
//! sent and what was committed.

use crate::consensus::agreement::{CastVote, World};
use crate::consensus::block::{
    proposal_message, proposal_signing_message, Block, ExecutedBlock, StateComputeResult,
};
use crate::consensus::block_tree::{
    chain_for, higher_qc, insert_check, lemma_chain_commits_ancestor, share, BlockTree,
    InsertCheck, InsertError, ProposalFault,
};
use crate::consensus::common::{Author, BlockInfo, Round, Signature};
use crate::consensus::quorum_cert_engine::{
    add_vote_step, higher_commit, higher_round, retain_above, QuorumCertEngine, StatusView,
    VoteReceiptStatus,
};
use crate::consensus::safety_rules::{
    commit_decision, potential_commit, state_after_vote, vote_decision, with_timeout_cert,
    LivenessView, PersistentLivenessData, PersistentStorage, RecoveryData, SafetyError,
    SafetyRules, VoteProposal,
};
use crate::consensus::signing::{
    ed25519_signature, ed25519_verifies, verify_signature, ValidatorSigner,
};
use crate::consensus::state_replication::{ExecutionError, ProposerElection, StateComputer};
use crate::consensus::sync_info::{SyncInfo, SyncInfoView};
use crate::consensus::timeout::{
    add_timeout_step, timeout_is_valid, timeout_message, timeout_signing_message, PendingTimeouts,
    Timeout, TimeoutOutcome, TimeoutReceiptStatus, TimeoutStatusView,
};
use crate::consensus::tree_spec::{
    contains_id, index_of_id, path_indices, select_blocks, subtree, TreeNode,
};
use crate::consensus::validator_verifier::{
    check_certificate, is_validator, validator_index, vote_is_valid, ValidatorInfo,
    ValidatorVerifier, VerifyError,
};
use crate::consensus::vote::{
    vote_message, LedgerInfo, QuorumCert, QuorumCertView, Vote, VoteData,
};
use crate::hash::HashValue;
use std::sync::Arc;
use vstd::prelude::*;

verus! {

/// Where the replica stands in its round.
#[derive(Clone, Copy, Debug, PartialEq, Eq, Structural)]
pub enum RoundState {
    /// Nothing is under way.
    Idle,
    /// The replica has voted and waits for the certificate.
    AwaitingQC,
    /// The replica has asked for blocks that it misses.
    Syncing,
}

/// Why an event was not acted upon. None of these stops the replica.
#[derive(Clone, Copy, Debug, PartialEq, Eq, Structural)]
pub enum Rejection {
    /// The replica has stopped after a fatal fault.
    Halted,
    /// The round of the proposal leaves no room for a next round.
    RoundOverflow,
    /// The proposal, vote or timeout is for a round that is over.
    Stale,
    /// A certificate does not verify.
    InvalidCertificate(VerifyError),
    /// The proposer does not lead the round, or the replica is asked to
    /// propose in a round that it does not lead.
    NotLeader,
    /// The signature of the proposal, vote or timeout does not verify.
    InvalidSignature,
    /// The sender is ahead of the replica: it knows blocks that the
    /// replica misses, which were asked for, or it is in a later round.
    SenderAhead,
    /// The block tree refuses the block.
    Tree(ProposalFault),
    /// The certificate that comes with the proposal names another
    /// grandparent than the tree knows.
    InconsistentCertificate,
    /// A block of this name is in the tree with another round or another
    /// parent.
    ConflictingBlock,
    /// The safety rules refuse the vote.
    Safety(SafetyError),
}

/// A fault after which the replica takes no further part: what it
/// computed cannot be trusted to agree with the other replicas.
#[derive(Clone, Copy, Debug, PartialEq, Eq, Structural)]
pub enum FatalFault {
    /// A block that is to be voted for or committed failed to execute.
    ExecutionFailed,
    /// The state that the replica computed for a block is not the state
    /// that was certified.
    StateMismatch,
    /// The state computer could not commit.
    CommitFailed(ExecutionError),
}

/// A block with the certificate that it carries.
#[derive(Debug)]
pub struct BlockWithCert<T> {
    pub block: Block<T>,
    pub qc: QuorumCert,
}

/// A message for the network to deliver.
#[derive(Debug)]
pub enum OutboundMessage<T> {
    /// A vote, for the leader of the next round.
    Vote { to: Author, vote: Vote, sync_info: SyncInfo },
    /// A timeout, for everybody.
    Timeout { timeout: Timeout, sync_info: SyncInfo },
    /// A proposal, for everybody.
    Proposal { block: Arc<ExecutedBlock<T>>, qc: QuorumCert, sync_info: SyncInfo },
    /// A request for the block of the name `block_id` and its ancestors.
    SyncRequest { to: Author, block_id: HashValue, sync_info: SyncInfo },
}

/// Blocks that were committed, oldest first, and what finalizes them.
#[derive(Debug)]
pub struct CommitNotification<T> {
    pub committed_blocks: Vec<Arc<ExecutedBlock<T>>>,
    pub ledger_info: LedgerInfo,
}

/// What came of an event.
#[derive(Debug)]
pub struct ProcessOutcome<T> {
    /// What is to be sent.
    pub messages: Vec<OutboundMessage<T>>,
    /// What was committed, if anything.
    pub commit: Option<CommitNotification<T>>,
    /// Why the event was not acted upon, if it was not.
    pub rejection: Option<Rejection>,
    /// The fault that stopped the replica, if one did.
    pub fatal: Option<FatalFault>,
    /// The round in which the replica is to propose next, if it leads it.
    pub proposal_due: Option<Round>,
}

impl<T> ProcessOutcome<T> {
    /// Nothing is sent, nothing is committed, and no reason is given.
    pub open spec fn is_silent(&self) -> bool {
        &&& self.messages@.len() == 0
        &&& self.commit is None
        &&& self.fatal is None
        &&& self.proposal_due is None
    }

    /// The outcome of an event that was not acted upon.
    pub fn rejected(rejection: Rejection) -> (out: Self)
        ensures
            out.is_silent(),
            out.rejection == Some(rejection),
    {
        ProcessOutcome {
            messages: Vec::new(),
            commit: None,
            rejection: Some(rejection),
            fatal: None,
            proposal_due: None,
        }
    }

    /// The outcome of an event after which nothing is to be done.
    pub fn silent() -> (out: Self)
        ensures
            out.is_silent(),
            out.rejection is None,
    {
        ProcessOutcome {
            messages: Vec::new(),
            commit: None,
            rejection: None,
            fatal: None,
            proposal_due: None,
        }
    }

    /// The outcome of an event that stopped the replica.
    pub fn stopped(fault: FatalFault) -> (out: Self)
        ensures
            out.messages@.len() == 0,
            out.commit is None,
            out.rejection is None,
            out.fatal == Some(fault),
            out.proposal_due is None,
    {
        ProcessOutcome {
            messages: Vec::new(),
            commit: None,
            rejection: None,
            fatal: Some(fault),
            proposal_due: None,
        }
    }
}

/// The proposer of the block is a validator and has signed the block's
/// name.
pub open spec fn proposal_is_signed<T>(v: Seq<ValidatorInfo>, block: Block<T>) -> bool {
    &&& is_validator(v, block.author)
    &&& ed25519_verifies(
        v[validator_index(v, block.author)].public_key@,
        proposal_message(block.id),
        block.signature@,
    )
}

/// Why a proposal is refused before the tree and the safety rules are
/// asked, if it is. Looked at in this order: its round must leave room for
/// a next round and be above the round of the root; the certificate that
/// comes with it and the two certificates of the sender's progress must
/// verify; its author must lead its round; and its author must have signed
/// it.
pub open spec fn proposal_rejection<T>(
    v: Seq<ValidatorInfo>,
    quorum: nat,
    leader: Author,
    root_round: Round,
    block: Block<T>,
    qc: QuorumCertView,
    sync: SyncInfoView,
) -> Option<Rejection> {
    if block.round == u64::MAX {
        Some(Rejection::RoundOverflow)
    } else if block.round <= root_round {
        Some(Rejection::Stale)
    } else if check_certificate(v, quorum, qc) is Err {
        Some(Rejection::InvalidCertificate(check_certificate(v, quorum, qc)->Err_0))
    } else if check_certificate(v, quorum, sync.highest_qc) is Err {
        Some(Rejection::InvalidCertificate(check_certificate(v, quorum, sync.highest_qc)->Err_0))
    } else if check_certificate(v, quorum, sync.highest_commit_cert) is Err {
        Some(
            Rejection::InvalidCertificate(
                check_certificate(v, quorum, sync.highest_commit_cert)->Err_0,
            ),
        )
    } else if leader != block.author {
        Some(Rejection::NotLeader)
    } else if !proposal_is_signed(v, block) {
        Some(Rejection::InvalidSignature)
    } else {
        None
    }
}

/// The block that the replica misses, if the sender of a proposal is
/// ahead: the parent of the proposed block, if the tree does not hold it;
/// else the block that the sender's highest certificate certifies, if that
/// certificate is of a higher round than the replica knows and the tree
/// does not hold the block.
pub open spec fn missing_block<T>(
    nodes: Seq<TreeNode<T>>,
    known_round: Round,
    qc: QuorumCertView,
    sync: SyncInfoView,
) -> Option<HashValue> {
    if !contains_id(nodes, qc.data.block.id) {
        Some(qc.data.block.id)
    } else if sync.highest_qc.data.block.round > known_round && !contains_id(
        nodes,
        sync.highest_qc.data.block.id,
    ) {
        Some(sync.highest_qc.data.block.id)
    } else {
        None
    }
}

/// What a vote for a block of the round `round` says it would commit,
/// where the block comes with the certificate `qc` for its parent, which
/// the tree holds. Where the rounds leave a gap it commits nothing. Else
/// it commits the grandparent, with the state that the certificate for the
/// grandparent gives, which the parent carries. A certificate that names
/// another grandparent than the parent's own certificate does is
/// inconsistent.
pub open spec fn vote_commit_info<T>(nodes: Seq<TreeNode<T>>, round: Round, qc: QuorumCertView) -> Result<
    Option<LedgerInfo>,
    Rejection,
> {
    match potential_commit(round, qc) {
        None => Ok(None),
        Some(grandparent) => {
            let edge = nodes[index_of_id(nodes, qc.data.block.id)].qc@;
            if edge.data.block == grandparent {
                Ok(Some(LedgerInfo { block: grandparent, state_id: edge.data.state_id }))
            } else {
                Err(Rejection::InconsistentCertificate)
            }
        },
    }
}

/// What the tree holds after a proposal came as far as the tree: the
/// block at the end, with the certificate that came with it, if
/// `insert_check` accepts it, and what it held before else.
pub open spec fn tree_took_block<T>(
    before: Seq<TreeNode<T>>,
    after: Seq<TreeNode<T>>,
    block: Block<T>,
    qc: QuorumCert,
) -> bool {
    match insert_check(before, block, qc@) {
        InsertCheck::Accept(_) => {
            &&& after.len() == before.len() + 1
            &&& after.drop_last() == before
            &&& after.last().qc == qc
            &&& after.last().executed.block == block
        },
        _ => after == before,
    }
}

/// The block of the name `id` that the tree holds differs from `block` in
/// its round or in its parent.
pub open spec fn conflicts_with_tree<T>(nodes: Seq<TreeNode<T>>, block: Block<T>) -> bool {
    &&& contains_id(nodes, block.id)
    &&& (nodes[index_of_id(nodes, block.id)].round() != block.round || nodes[index_of_id(
        nodes,
        block.id,
    )].parent_id() != block.parent_id)
}

/// The state of the safety rules after they took note of a certificate.
pub open spec fn with_lock(state: LivenessView, qc: QuorumCertView) -> LivenessView {
    LivenessView { highest_qc: higher_round(state.highest_qc, qc), ..state }
}

/// The processor has sent one message, a vote, and the vote is in order:
/// it goes to the leader of the next round; it is for the block, names
/// the block's parent as the certificate does, says what `vote_commit_info`
/// gives as its commit, and gives the state that the tree holds for the
/// block; it is signed by this replica; and the safety rules allowed it
/// from the state `before` and have recorded it.
pub open spec fn voted_for<T, C: StateComputer<T>, S: PersistentStorage<T>, L: ProposerElection>(
    old_nodes: Seq<TreeNode<T>>,
    before: LivenessView,
    after: EventProcessor<T, C, S, L>,
    out: ProcessOutcome<T>,
    block: Block<T>,
    qc: QuorumCertView,
) -> bool {
    &&& out.messages@.len() == 1
    &&& out.proposal_due is None
    &&& out.messages@[0] matches OutboundMessage::Vote { to, vote, sync_info }
    &&& sync_info@ == after.progress()
    &&& to == after.leader((block.round + 1) as u64)
    &&& vote.author == after.signer().spec_author()
    &&& vote.signature@ == ed25519_signature(after.signer().secret(), vote_message(vote.data))
    &&& vote.data.block == block.spec_info()
    &&& vote.data.parent == qc.data.block
    &&& vote_commit_info(old_nodes, block.round, qc) == Ok::<Option<LedgerInfo>, Rejection>(
        vote.data.commit,
    )
    &&& contains_id(after.tree().nodes(), block.id)
    &&& after.tree().nodes()[index_of_id(after.tree().nodes(), block.id)].executed.compute_result
        == (StateComputeResult::Executed { state_id: vote.data.state_id })
    &&& vote_decision(before, block, qc) is Ok
    &&& after.safety().state() == state_after_vote(before, block.round, qc)
    &&& after.round_state() == RoundState::AwaitingQC
    &&& !after.halted()
}

/// A vote that the processor sends is a step that an honest replica may
/// take: where the replica stands in a world with the state `before` and
/// the world takes the certificate of the proposal for good, the world
/// with the vote cast and the replica in its new state follows from it by
/// `World::votes_honestly`. So what `theorem_safety` says of honest replicas
/// holds of the replicas that run this processor.
pub proof fn lemma_vote_is_an_honest_step<T, C: StateComputer<T>, S: PersistentStorage<T>, L: ProposerElection>(
    w: World,
    i: int,
    old_nodes: Seq<TreeNode<T>>,
    before: LivenessView,
    after: EventProcessor<T, C, S, L>,
    out: ProcessOutcome<T>,
    block: Block<T>,
    qc: QuorumCertView,
)
    requires
        voted_for(old_nodes, before, after, out, block, qc),
        0 <= i < w.validators.len(),
        w.honest[i],
        w.states[i] == before,
        w.accepts(qc),
    ensures
        out.messages@[0] is Vote,
        w.votes_honestly(
            World {
                votes: w.votes.insert(
                    CastVote { voter: i, data: out.messages@[0]->Vote_vote.data },
                ),
                states: w.states.update(i, after.safety().state()),
                ..w
            },
            i,
            block,
            qc,
            out.messages@[0]->Vote_vote.data,
        ),
{
}

/// What the tree holds as the result of executing the block of the name
/// `id`.
pub open spec fn stored_result<T>(nodes: Seq<TreeNode<T>>, id: HashValue) -> StateComputeResult {
    nodes[index_of_id(nodes, id)].executed.compute_result
}

/// A proposal was refused before the tree took its block: nothing is
/// sent, the replica goes on, and the tree and the safety rules stand as
/// they stood.
pub open spec fn refused_before_tree<T, C: StateComputer<T>, S: PersistentStorage<T>, L: ProposerElection>(
    nodes: Seq<TreeNode<T>>,
    before: LivenessView,
    after: EventProcessor<T, C, S, L>,
    out: ProcessOutcome<T>,
) -> bool {
    &&& out.messages@.len() == 0
    &&& out.fatal is None
    &&& after.tree().nodes() == nodes
    &&& after.safety().state() == before
    &&& !after.halted()
}

/// What a proposal does once the replica has acted on the certificate
/// that it carries and stands as `mid` says. The engine takes note of the
/// certificates that came with the proposal and keeps its votes; the
/// safety rules take note of the sender's highest certificate, which
/// gives the state `before`. Then, looked at in this order:
///
/// - a certificate that `vote_commit_info` finds inconsistent gives
///   `InconsistentCertificate`;
/// - a block that `insert_check` refuses gives `Tree` with the fault;
/// - a block whose name the tree holds with another round or another
///   parent gives `ConflictingBlock`;
///
/// and in these three nothing else changes. Any other block is in the tree
/// afterwards, taken as `tree_took_block` says. Then the block or the vote
/// may fail to be made durable, which gives `Safety(StorageFailure)`
/// whatever else holds. Apart from that: a block whose execution failed
/// stops the replica; a block that executed and that `vote_decision`
/// refuses gives `Safety` with the reason; and for a block that executed
/// and that `vote_decision` allows the replica has voted, as `voted_for`
/// says.
pub open spec fn proposal_settled<T, C: StateComputer<T>, S: PersistentStorage<T>, L: ProposerElection>(
    mid: EventProcessor<T, C, S, L>,
    after: EventProcessor<T, C, S, L>,
    out: ProcessOutcome<T>,
    block: Block<T>,
    qc: QuorumCert,
    sync: SyncInfoView,
) -> bool {
    let nodes = mid.tree().nodes();
    let before = with_lock(mid.safety().state(), sync.highest_qc);
    &&& after.tree().retired() == mid.tree().retired()
    &&& after.tree().prune_bound() == mid.tree().prune_bound()
    &&& after.engine().buckets() == mid.engine().buckets()
    &&& after.engine().committed_round() == mid.engine().committed_round()
    &&& after.engine().equivocations() == mid.engine().equivocations()
    &&& after.engine().spec_highest_qc() == higher_round(
        higher_round(higher_round(mid.engine().spec_highest_qc(), qc@), sync.highest_qc),
        sync.highest_commit_cert,
    )
    &&& if vote_commit_info(nodes, block.round, qc@) is Err {
        &&& out.rejection == Some(Rejection::InconsistentCertificate)
        &&& refused_before_tree(nodes, before, after, out)
    } else if insert_check(nodes, block, qc@) is Invalid {
        &&& out.rejection == Some(Rejection::Tree(insert_check(nodes, block, qc@)->Invalid_0))
        &&& refused_before_tree(nodes, before, after, out)
    } else if conflicts_with_tree(nodes, block) {
        &&& out.rejection == Some(Rejection::ConflictingBlock)
        &&& refused_before_tree(nodes, before, after, out)
    } else {
        &&& tree_took_block(nodes, after.tree().nodes(), block, qc)
        &&& contains_id(after.tree().nodes(), block.id)
        &&& match out.rejection {
            Some(rejection) => {
                &&& rejection is Safety
                &&& rejection == Rejection::Safety(SafetyError::StorageFailure) || (stored_result(
                    after.tree().nodes(),
                    block.id,
                ) != StateComputeResult::Failed && vote_decision(before, block, qc@) == Err::<
                    VoteProposal,
                    SafetyError,
                >(rejection->Safety_0))
                &&& out.messages@.len() == 0
                &&& out.fatal is None
                &&& after.safety().state() == before
                &&& !after.halted()
            },
            None => if stored_result(after.tree().nodes(), block.id)
                == StateComputeResult::Failed {
                &&& out.fatal == Some(FatalFault::ExecutionFailed)
                &&& out.messages@.len() == 0
                &&& after.halted()
                &&& after.safety().state() == before
            } else {
                &&& out.fatal is None
                &&& voted_for(nodes, before, after, out, block, qc@)
            },
        }
    }
}

/// What a new certificate commits, given the tree: what `commit_decision`
/// says of the chain that ends in the certificate.
pub open spec fn commit_target<T>(nodes: Seq<TreeNode<T>>, qc: QuorumCertView) -> Option<
    LedgerInfo,
> {
    commit_decision(chain_for(nodes, qc))
}

/// The block that `info` finalizes is in the tree and above the root, so
/// that committing it moves the root.
pub open spec fn moves_root<T>(nodes: Seq<TreeNode<T>>, info: LedgerInfo) -> bool {
    contains_id(nodes, info.block.id) && index_of_id(nodes, info.block.id) > 0
}

/// The blocks that a commit of what `info` finalizes commits: the way from
/// the root to the block, the root left out.
pub open spec fn blocks_to_commit<T>(nodes: Seq<TreeNode<T>>, info: LedgerInfo) -> Seq<
    Arc<ExecutedBlock<T>>,
> {
    select_blocks(nodes, path_indices(nodes, index_of_id(nodes, info.block.id)).skip(1))
}

/// Every block of the list was executed, and the state after the last is
/// `state_id`.
pub open spec fn executed_to<T>(blocks: Seq<Arc<ExecutedBlock<T>>>, state_id: HashValue) -> bool {
    &&& forall|k: int|
        0 <= k < blocks.len() ==> (#[trigger] blocks[k]).compute_result
            != StateComputeResult::Failed
    &&& blocks.len() > 0 ==> blocks.last().compute_result == (StateComputeResult::Executed {
        state_id,
    })
}

/// The round after `round`, or the last round where there is none.
pub open spec fn round_after(round: Round) -> Round {
    if round < u64::MAX {
        (round + 1) as u64
    } else {
        u64::MAX
    }
}

/// The later of two rounds.
pub open spec fn later_round(a: Round, b: Round) -> Round {
    if b > a {
        b
    } else {
        a
    }
}

/// What a new certificate does to the processor, apart from what it
/// commits: the tree, the engine and the safety rules have taken note of
/// it, and unless a fault stopped the replica, the replica stands idle in
/// the round after the certificate, or in a later one in which it stood
/// before, and is due to propose if it leads that round.
pub open spec fn took_certificate<T, C: StateComputer<T>, S: PersistentStorage<T>, L: ProposerElection>(
    before: EventProcessor<T, C, S, L>,
    after: EventProcessor<T, C, S, L>,
    out: ProcessOutcome<T>,
    qc: QuorumCertView,
) -> bool {
    &&& after.safety().state() == with_lock(before.safety().state(), qc)
    &&& after.tree().highest_qc() == (if contains_id(before.tree().nodes(), qc.data.block.id) {
        higher_qc(before.tree().highest_qc(), qc)
    } else {
        before.tree().highest_qc()
    })
    &&& out.messages@.len() == 0
    &&& out.rejection is None
    &&& after.halted() == (out.fatal is Some)
    &&& out.fatal is None ==> {
        &&& after.round() == later_round(before.round(), round_after(qc.data.block.round))
        &&& after.round_state() == RoundState::Idle
        &&& out.proposal_due == (if after.leader(after.round())
            == after.signer().spec_author() {
            Some(after.round())
        } else {
            None
        })
    }
}

/// What a new certificate commits: nothing where `commit_target` finds no
/// 3-chain or what it finds does not move the root; else the blocks from
/// the root to the head of the chain, after which that head is the root
/// and the votes for the committed rounds are dropped. A block on the way
/// that was not executed, or not to the certified state, stops the
/// replica before anything is committed; a state computer that cannot
/// commit stops it afterwards.
pub open spec fn committed_by<T, C: StateComputer<T>, S: PersistentStorage<T>, L: ProposerElection>(
    nodes: Seq<TreeNode<T>>,
    engine: QuorumCertEngine,
    after: EventProcessor<T, C, S, L>,
    out: ProcessOutcome<T>,
    qc: QuorumCertView,
) -> bool {
    match commit_target(nodes, qc) {
        Some(info) if moves_root(nodes, info) => {
            if !executed_to(blocks_to_commit(nodes, info), info.state_id) {
                &&& out.fatal == Some(FatalFault::ExecutionFailed) || out.fatal == Some(
                    FatalFault::StateMismatch,
                )
                &&& out.commit is None
                &&& after.tree().nodes() == nodes
                &&& after.engine() == engine
            } else {
                &&& after.tree().nodes() == subtree(nodes, index_of_id(nodes, info.block.id))
                &&& match out.fatal {
                    Some(fault) => fault is CommitFailed && out.commit is None && after.engine()
                        == engine,
                    None => {
                        &&& out.commit matches Some(notification)
                        &&& notification.committed_blocks@ == blocks_to_commit(nodes, info)
                        &&& notification.ledger_info == info
                        &&& after.engine().committed_round() == later_round(
                            engine.committed_round(),
                            info.block.round,
                        )
                        &&& after.engine().buckets() == retain_above(
                            engine.buckets(),
                            after.engine().committed_round(),
                        )
                    },
                }
            }
        },
        _ => {
            &&& out.fatal is None
            &&& out.commit is None
            &&& after.tree().nodes() == nodes
            &&& after.engine() == engine
        },
    }
}

/// What a timeout does to the rest of the processor once the timeouts
/// that are held have taken it in with the outcome `step`. A timeout that
/// forms a certificate licenses the next round: the safety rules take
/// note of the certificate, and the replica stands idle in the round after
/// it, or in a later one in which it stood before, and is due to propose
/// if it leads that round. Any other changes nothing else.
pub open spec fn took_timeout<T, C: StateComputer<T>, S: PersistentStorage<T>, L: ProposerElection>(
    before: EventProcessor<T, C, S, L>,
    after: EventProcessor<T, C, S, L>,
    out: ProcessOutcome<T>,
    step: TimeoutOutcome,
) -> bool {
    &&& after.timeouts().round() == step.round
    &&& after.timeouts().votes() == step.votes
    &&& after.tree() == before.tree()
    &&& after.engine() == before.engine()
    &&& !after.halted()
    &&& out.commit is None
    &&& out.fatal is None
    &&& match step.status {
        TimeoutStatusView::CertificateFormed(tc) => {
            &&& after.safety().state() == with_timeout_cert(before.safety().state(), tc)
            &&& after.round() == later_round(before.round(), round_after(tc.round))
            &&& after.round_state() == RoundState::Idle
            &&& out.proposal_due == (if after.leader(after.round())
                == after.signer().spec_author() {
                Some(after.round())
            } else {
                None
            })
        },
        _ => {
            &&& after.safety() == before.safety()
            &&& after.round() == before.round()
            &&& after.round_state() == before.round_state()
            &&& out.proposal_due is None
        },
    }
}

/// Why the replica does not propose, if it does not. Looked at in this
/// order: the replica must lead the round it is in; the tree must hold the
/// block that the highest certificate certifies, which the proposal
/// extends; the round must be above that block's; no block of the name
/// `id` may be in the tree; and the certificate must give the round that
/// the tree holds for the block.
pub open spec fn proposing_rejection<T>(
    nodes: Seq<TreeNode<T>>,
    highest: QuorumCertView,
    leader: Author,
    author: Author,
    round: Round,
    id: HashValue,
) -> Option<Rejection> {
    if leader != author {
        Some(Rejection::NotLeader)
    } else if !contains_id(nodes, highest.data.block.id) {
        Some(Rejection::Tree(ProposalFault::MissingParent))
    } else if round <= highest.data.block.round {
        Some(Rejection::Stale)
    } else if contains_id(nodes, id) {
        Some(Rejection::ConflictingBlock)
    } else if round <= nodes[index_of_id(nodes, highest.data.block.id)].round() {
        Some(Rejection::Tree(ProposalFault::RoundNotIncreasing))
    } else if highest.data.block.round != nodes[index_of_id(nodes, highest.data.block.id)].round() {
        Some(Rejection::Tree(ProposalFault::CertificateMismatch))
    } else {
        None
    }
}

/// What the tree holds after it was offered one block that another
/// replica sent: where the certificate that the block carries verifies,
/// what `tree_took_block` says; else what it held before.
pub open spec fn took_sent_block<T>(
    v: Seq<ValidatorInfo>,
    quorum: nat,
    before: Seq<TreeNode<T>>,
    after: Seq<TreeNode<T>>,
    sent: BlockWithCert<T>,
) -> bool {
    if check_certificate(v, quorum, sent.qc@) is Ok {
        tree_took_block(before, after, sent.block, sent.qc)
    } else {
        after == before
    }
}

/// The tree went through `stages` as it was offered the blocks of the
/// list one after the other: from each stage to the next by the block of
/// the same place, as `took_sent_block` says.
pub open spec fn took_sent_blocks<T>(
    v: Seq<ValidatorInfo>,
    quorum: nat,
    sent: Seq<BlockWithCert<T>>,
    stages: Seq<Seq<TreeNode<T>>>,
) -> bool {
    &&& stages.len() == sent.len() + 1
    &&& forall|k: int|
        0 <= k < sent.len() ==> took_sent_block(v, quorum, stages[k], stages[k + 1], #[trigger] sent[k])
}

/// The processor after it took in the blocks `sent` that another replica
/// sent: the tree was offered them one after the other, as
/// `took_sent_blocks` says, and so holds what it held and, after that,
/// those of the blocks that it accepted; the engine has taken note of the
/// two certificates of the sender's progress; nothing else has changed.
pub open spec fn absorbed<T, C: StateComputer<T>, S: PersistentStorage<T>, L: ProposerElection>(
    before: EventProcessor<T, C, S, L>,
    after: EventProcessor<T, C, S, L>,
    sync: SyncInfoView,
    sent: Seq<BlockWithCert<T>>,
) -> bool {
    &&& after.wf()
    &&& exists|stages: Seq<Seq<TreeNode<T>>>|
        {
            &&& #[trigger] took_sent_blocks(
                before.engine().validators(),
                before.engine().quorum(),
                sent,
                stages,
            )
            &&& stages[0] == before.tree().nodes()
            &&& stages.last() == after.tree().nodes()
        }
    &&& before.tree().nodes().len() <= after.tree().nodes().len()
    &&& after.tree().nodes().take(before.tree().nodes().len() as int) == before.tree().nodes()
    &&& after.tree().retired() == before.tree().retired()
    &&& after.tree().prune_bound() == before.tree().prune_bound()
    &&& after.safety() == before.safety()
    &&& after.timeouts() == before.timeouts()
    &&& after.signer() == before.signer()
    &&& after.election() == before.election()
    &&& after.round() == before.round()
    &&& after.round_state() == before.round_state()
    &&& after.halted() == before.halted()
    &&& after.engine().validators() == before.engine().validators()
    &&& after.engine().quorum() == before.engine().quorum()
    &&& after.engine().buckets() == before.engine().buckets()
    &&& after.engine().committed_round() == before.engine().committed_round()
    &&& after.engine().equivocations() == before.engine().equivocations()
    &&& after.engine().spec_highest_qc() == higher_round(
        higher_round(before.engine().spec_highest_qc(), sync.highest_qc),
        sync.highest_commit_cert,
    )
    &&& after.engine().spec_highest_commit_cert() == higher_commit(
        higher_commit(before.engine().spec_highest_commit_cert(), sync.highest_qc),
        sync.highest_commit_cert,
    )
}

/// What the progress `sync` of another replica does to a processor that
/// has not stopped, with the blocks `sent` that came along. Progress whose
/// certificates do not verify is refused and nothing changes. Else the
/// blocks and the certificates are taken in, which gives a processor as
/// `absorbed` says. Where its tree still misses the block that the
/// sender's highest certificate certifies, the replica asks the sender for
/// that block and goes to `Syncing`. Else it acts on that certificate: see
/// `took_certificate` and `committed_by`.
pub open spec fn took_sync_info<T, C: StateComputer<T>, S: PersistentStorage<T>, L: ProposerElection>(
    before: EventProcessor<T, C, S, L>,
    after: EventProcessor<T, C, S, L>,
    out: ProcessOutcome<T>,
    sender: Author,
    sync: SyncInfoView,
    sent: Seq<BlockWithCert<T>>,
) -> bool {
    let v = before.engine().validators();
    let quorum = before.engine().quorum();
    let first = check_certificate(v, quorum, sync.highest_qc);
    let second = check_certificate(v, quorum, sync.highest_commit_cert);
    if first is Err || second is Err {
        &&& out.rejection == Some(
            Rejection::InvalidCertificate(
                if first is Err {
                    first->Err_0
                } else {
                    second->Err_0
                },
            ),
        )
        &&& out.is_silent()
        &&& after.tree() == before.tree()
        &&& after.safety() == before.safety()
        &&& after.engine() == before.engine()
        &&& after.round_state() == before.round_state()
        &&& !after.halted()
    } else {
        exists|mid: EventProcessor<T, C, S, L>|
            {
                &&& #[trigger] absorbed(before, mid, sync, sent)
                &&& if !contains_id(mid.tree().nodes(), sync.highest_qc.data.block.id) {
                    &&& out.rejection == Some(Rejection::SenderAhead)
                    &&& out.commit is None
                    &&& out.fatal is None
                    &&& out.messages@.len() == 1
                    &&& out.messages@[0] matches OutboundMessage::SyncRequest {
                        to,
                        block_id,
                        sync_info: own,
                    }
                    &&& own@ == after.progress()
                    &&& to == sender
                    &&& block_id == sync.highest_qc.data.block.id
                    &&& after.tree() == mid.tree()
                    &&& after.engine() == mid.engine()
                    &&& after.safety() == mid.safety()
                    &&& after.round_state() == RoundState::Syncing
                    &&& !after.halted()
                } else {
                    &&& took_certificate(mid, after, out, sync.highest_qc)
                    &&& committed_by(mid.tree().nodes(), mid.engine(), after, out, sync.highest_qc)
                }
            }
    }
}

/// The blocks that durable storage holds beside the oldest, each with the
/// certificate of the same place.
pub open spec fn stored_rest<T>(data: RecoveryData<T>) -> Seq<BlockWithCert<T>> {
    Seq::new(
        (if data.blocks@.len() <= data.quorum_certs@.len() {
            data.blocks@.len() - 1
        } else {
            data.quorum_certs@.len() - 1
        }) as nat,
        |k: int| BlockWithCert { block: data.blocks@[k + 1].block, qc: data.quorum_certs@[k + 1] },
    )
}

/// The progress that a replica shows to itself when it starts again: the
/// highest certificate that durable storage holds, twice, and the timeout
/// certificate that it holds.
pub open spec fn stored_progress(state: LivenessView) -> SyncInfoView {
    SyncInfoView {
        highest_qc: state.highest_qc,
        highest_commit_cert: state.highest_qc,
        highest_timeout_cert: state.highest_timeout_cert,
    }
}

/// A replica that has stopped refuses the event and stays as it is.
pub open spec fn refused_as_halted<T, C: StateComputer<T>, S: PersistentStorage<T>, L: ProposerElection>(
    before: EventProcessor<T, C, S, L>,
    after: EventProcessor<T, C, S, L>,
    out: ProcessOutcome<T>,
) -> bool {
    &&& out.rejection == Some(Rejection::Halted)
    &&& out.is_silent()
    &&& after.halted()
    &&& after.tree() == before.tree()
    &&& after.engine() == before.engine()
    &&& after.safety() == before.safety()
    &&& after.timeouts() == before.timeouts()
    &&& after.round() == before.round()
    &&& after.round_state() == before.round_state()
}

/// The event processor of one replica.
pub struct EventProcessor<T, C: StateComputer<T>, S: PersistentStorage<T>, L: ProposerElection> {
    tree: BlockTree<T>,
    engine: QuorumCertEngine,
    safety: SafetyRules,
    timeouts: PendingTimeouts,
    signer: ValidatorSigner,
    computer: C,
    storage: S,
    election: L,
    round: Round,
    round_state: RoundState,
    halted: bool,
}

impl<T, C: StateComputer<T>, S: PersistentStorage<T>, L: ProposerElection> EventProcessor<
    T,
    C,
    S,
    L,
> {
    /// The block tree.
    pub closed spec fn tree(&self) -> BlockTree<T> {
        self.tree
    }

    /// The quorum-certificate engine.
    pub closed spec fn engine(&self) -> QuorumCertEngine {
        self.engine
    }

    /// The safety rules.
    pub closed spec fn safety(&self) -> SafetyRules {
        self.safety
    }

    /// The timeouts that have come in.
    pub closed spec fn timeouts(&self) -> PendingTimeouts {
        self.timeouts
    }

    /// The signer of the replica.
    pub closed spec fn signer(&self) -> ValidatorSigner {
        self.signer
    }

    /// The choice of leaders.
    pub closed spec fn election(&self) -> L {
        self.election
    }

    /// The leader of a round.
    pub open spec fn leader(&self, round: Round) -> Author {
        self.election().leader(round)
    }

    /// The round the replica is in.
    pub closed spec fn round(&self) -> Round {
        self.round
    }

    /// Where the replica stands in its round.
    pub closed spec fn round_state(&self) -> RoundState {
        self.round_state
    }

    /// Whether the replica has stopped after a fatal fault.
    pub closed spec fn halted(&self) -> bool {
        self.halted
    }

    /// The progress of this replica: the highest certificates that its
    /// engine has seen and the timeout certificate that its safety rules
    /// keep. It goes with every message that the replica sends.
    pub open spec fn progress(&self) -> SyncInfoView {
        SyncInfoView {
            highest_qc: self.engine().spec_highest_qc(),
            highest_commit_cert: self.engine().spec_highest_commit_cert(),
            highest_timeout_cert: self.safety().state().highest_timeout_cert,
        }
    }

    /// The parts of the processor are in order.
    pub open spec fn wf(&self) -> bool {
        &&& self.tree().wf()
        &&& self.engine().wf()
        &&& self.timeouts().wf(self.engine().validators())
    }

    /// The processor of a replica that starts or starts again: the tree
    /// holds the root alone, the safety rules have the state that was read
    /// from durable storage, no vote and no timeout is held, and the
    /// replica stands idle in the round after the highest certificate it
    /// knew.
    pub fn new(
        root: ExecutedBlock<T>,
        root_qc: QuorumCert,
        highest_commit_cert: QuorumCert,
        consensus_state: PersistentLivenessData,
        validators: ValidatorVerifier,
        signer: ValidatorSigner,
        computer: C,
        storage: S,
        election: L,
        prune_bound: usize,
    ) -> (processor: Self)
        ensures
            processor.wf(),
            processor.engine().signed(),
            !processor.halted(),
            processor.round_state() == RoundState::Idle,
            processor.tree().nodes().len() == 1,
            *processor.tree().nodes()[0].executed == root,
            processor.tree().nodes()[0].qc == root_qc,
            processor.tree().prune_bound() == prune_bound,
            processor.safety().state() == consensus_state@,
            processor.engine().validators() == validators.validators(),
            processor.engine().quorum() == validators.quorum(),
            processor.engine().committed_round() == root.block.round,
            processor.engine().buckets().len() == 0,
            processor.engine().spec_highest_qc() == consensus_state.highest_qc@,
            processor.engine().spec_highest_commit_cert() == highest_commit_cert@,
            processor.signer() == signer,
            processor.election() == election,
            processor.timeouts().round() == processor.round(),
            processor.timeouts().votes() == Seq::new(
                validators.validators().len(),
                |k: int| None::<Signature>,
            ),
            processor.round() == (if consensus_state.highest_qc.data.block.round < u64::MAX {
                (consensus_state.highest_qc.data.block.round + 1) as u64
            } else {
                u64::MAX
            }),
    {
        let highest_round = consensus_state.highest_qc.data.block.round;
        let round = if highest_round < u64::MAX {
            highest_round + 1
        } else {
            u64::MAX
        };
        let root_round = root.block.round;
        let timeouts = PendingTimeouts::new(&validators, round);
        let engine = QuorumCertEngine::new(
            validators,
            consensus_state.highest_qc.clone(),
            highest_commit_cert,
            root_round,
        );
        EventProcessor {
            tree: BlockTree::new(root, root_qc, prune_bound),
            engine,
            safety: SafetyRules::new(consensus_state),
            timeouts,
            signer,
            computer,
            storage,
            election,
            round,
            round_state: RoundState::Idle,
            halted: false,
        }
    }

    /// Starts a replica again from what durable storage holds. The oldest
    /// block that was saved is the root, with the certificate of the same
    /// place; without a block or without a certificate there is nothing to
    /// start from. The state of the safety rules is taken as it was
    /// written and is the state of the replica that comes back. The other
    /// blocks are taken in as if a peer had sent them, with the highest
    /// certificate that storage holds as the peer's progress: see
    /// `took_sync_info`, which here speaks of the processor that holds the
    /// root alone.
    pub fn recover(
        data: RecoveryData<T>,
        validators: ValidatorVerifier,
        signer: ValidatorSigner,
        computer: C,
        storage: S,
        election: L,
        prune_bound: usize,
    ) -> (r: Option<Self>)
        ensures
            r is Some <==> data.blocks@.len() >= 1 && data.quorum_certs@.len() >= 1,
            r matches Some(processor) ==> ({
                &&& processor.wf()
                &&& processor.safety().state() == data.consensus_state@
                &&& processor.engine().validators() == validators.validators()
                &&& processor.engine().quorum() == validators.quorum()
                &&& processor.signer() == signer
                &&& processor.election() == election
                &&& exists|fresh: EventProcessor<T, C, S, L>, out: ProcessOutcome<T>|
                    {
                        &&& #[trigger] took_sync_info(
                            fresh,
                            processor,
                            out,
                            signer.spec_author(),
                            stored_progress(data.consensus_state@),
                            stored_rest(data),
                        )
                        &&& fresh.wf()
                        &&& !fresh.halted()
                        &&& fresh.tree().nodes().len() == 1
                        &&& *fresh.tree().nodes()[0].executed == data.blocks@[0]
                        &&& fresh.tree().nodes()[0].qc == data.quorum_certs@[0]
                        &&& fresh.tree().prune_bound() == prune_bound
                        &&& fresh.safety().state() == data.consensus_state@
                        &&& fresh.engine().validators() == validators.validators()
                        &&& fresh.engine().quorum() == validators.quorum()
                        &&& fresh.engine().buckets().len() == 0
                        &&& fresh.engine().committed_round() == data.blocks@[0].block.round
                    }
            }),
    {
        let mut blocks = data.blocks;
        let mut certificates = data.quorum_certs;
        if blocks.len() == 0 || certificates.len() == 0 {
            return None;
        }
        let root = blocks.remove(0);
        let root_qc = certificates.remove(0);
        let mut rest: Vec<BlockWithCert<T>> = Vec::new();
        assert(rest@ =~= stored_rest(data).take(0));
        while blocks.len() > 0 && certificates.len() > 0
            invariant
                data.blocks@.len() >= 1,
                data.quorum_certs@.len() >= 1,
                rest@.len() + 1 <= data.blocks@.len(),
                rest@.len() + 1 <= data.quorum_certs@.len(),
                blocks@ == data.blocks@.skip(rest@.len() as int + 1),
                certificates@ == data.quorum_certs@.skip(rest@.len() as int + 1),
                rest@ == stored_rest(data).take(rest@.len() as int),
            decreases blocks.len(),
        {
            let ghost taken = rest@.len() as int;
            let executed = blocks.remove(0);
            let qc = certificates.remove(0);
            rest.push(BlockWithCert { block: executed.block, qc });
            assert(blocks@ =~= data.blocks@.skip(taken + 2));
            assert(certificates@ =~= data.quorum_certs@.skip(taken + 2));
            assert(rest@ =~= stored_rest(data).take(taken + 1));
        }
        assert(rest@ =~= stored_rest(data));
        let author = signer.author();
        let progress = SyncInfo {
            highest_qc: data.consensus_state.highest_qc.clone(),
            highest_commit_cert: data.consensus_state.highest_qc.clone(),
            highest_timeout_cert: match &data.consensus_state.highest_timeout_cert {
                Some(tc) => Some(tc.clone()),
                None => None,
            },
        };
        let highest_commit_cert = data.consensus_state.highest_qc.clone();
        let mut processor = EventProcessor::new(
            root,
            root_qc,
            highest_commit_cert,
            data.consensus_state,
            validators,
            signer,
            computer,
            storage,
            election,
            prune_bound,
        );
        let ghost fresh = processor;
        let out = processor.process_sync_info(author, progress, rest);
        proof {
            assert(took_sync_info(
                fresh,
                processor,
                out,
                signer.spec_author(),
                stored_progress(data.consensus_state@),
                stored_rest(data),
            ));
        }
        Some(processor)
    }

    /// The round the replica is in.
    pub fn current_round(&self) -> (round: Round)
        ensures
            round == self.round(),
    {
        self.round
    }

    /// Where the replica stands in its round.
    pub fn state(&self) -> (state: RoundState)
        ensures
            state == self.round_state(),
    {
        self.round_state
    }

    /// Whether the replica has stopped after a fatal fault.
    pub fn is_halted(&self) -> (halted: bool)
        ensures
            halted == self.halted(),
    {
        self.halted
    }

    /// The block tree.
    pub fn block_tree(&self) -> (tree: &BlockTree<T>)
        ensures
            *tree == self.tree(),
    {
        &self.tree
    }

    /// The quorum-certificate engine.
    pub fn quorum_cert_engine(&self) -> (engine: &QuorumCertEngine)
        ensures
            *engine == self.engine(),
    {
        &self.engine
    }

    /// The safety rules.
    pub fn safety_rules(&self) -> (rules: &SafetyRules)
        ensures
            *rules == self.safety(),
    {
        &self.safety
    }

    /// The progress of this replica, to go with what it sends.
    pub fn sync_info(&self) -> (info: SyncInfo)
        ensures
            info@ == self.progress(),
    {
        let state = self.safety.consensus_state();
        SyncInfo {
            highest_qc: self.engine.highest_qc(),
            highest_commit_cert: self.engine.highest_commit_cert(),
            highest_timeout_cert: state.highest_timeout_cert,
        }
    }

    /// Why the proposal is refused before the tree and the safety rules
    /// are asked, if it is.
    fn verify_proposal(&self, block: &Block<T>, qc: &QuorumCert, sync_info: &SyncInfo) -> (r:
        Option<Rejection>)
        requires
            self.wf(),
        ensures
            r == proposal_rejection(
                self.engine().validators(),
                self.engine().quorum(),
                self.leader(block.round),
                self.tree().nodes()[0].round(),
                *block,
                qc@,
                sync_info@,
            ),
    {
        if block.round == u64::MAX {
            return Some(Rejection::RoundOverflow);
        }
        if block.round <= self.tree.root().block.round {
            return Some(Rejection::Stale);
        }
        let validators = self.engine.validator_verifier();
        match validators.verify_quorum_cert(qc) {
            Err(e) => {
                return Some(Rejection::InvalidCertificate(e));
            },
            Ok(_) => {},
        }
        match validators.verify_quorum_cert(&sync_info.highest_qc) {
            Err(e) => {
                return Some(Rejection::InvalidCertificate(e));
            },
            Ok(_) => {},
        }
        match validators.verify_quorum_cert(&sync_info.highest_commit_cert) {
            Err(e) => {
                return Some(Rejection::InvalidCertificate(e));
            },
            Ok(_) => {},
        }
        if self.election.leader_for_round(block.round) != block.author {
            return Some(Rejection::NotLeader);
        }
        let at = match validators.index_of(&block.author) {
            Some(at) => at,
            None => {
                return Some(Rejection::InvalidSignature);
            },
        };
        let message = proposal_signing_message(&block.id);
        if !verify_signature(&validators.get(at).public_key, message.as_slice(), &block.signature) {
            return Some(Rejection::InvalidSignature);
        }
        None
    }

    /// The block that the replica misses, if the sender of a proposal is
    /// ahead.
    fn find_missing(&self, qc: &QuorumCert, sync_info: &SyncInfo) -> (r: Option<HashValue>)
        requires
            self.wf(),
        ensures
            r == missing_block(
                self.tree().nodes(),
                self.engine().spec_highest_qc().data.block.round,
                qc@,
                sync_info@,
            ),
    {
        if !self.tree.block_exists(&qc.data.block.id) {
            return Some(qc.data.block.id);
        }
        let known = self.engine.highest_qc();
        if sync_info.highest_qc.data.block.round > known.data.block.round
            && !self.tree.block_exists(&sync_info.highest_qc.data.block.id) {
            return Some(sync_info.highest_qc.data.block.id);
        }
        None
    }

    /// What a vote for a block of the round `round` would commit: see
    /// `vote_commit_info`.
    fn commit_info(&self, round: Round, qc: &QuorumCert) -> (r: Result<
        Option<LedgerInfo>,
        Rejection,
    >)
        requires
            self.wf(),
            contains_id(self.tree().nodes(), qc.data.block.id),
        ensures
            r == vote_commit_info(self.tree().nodes(), round, qc@),
    {
        let parent_round = qc.data.block.round;
        let grandparent = qc.data.parent;
        if grandparent.round < parent_round && parent_round - grandparent.round == 1
            && parent_round < round && round - parent_round == 1 {
            match self.tree.certified_by(&qc.data.block.id) {
                Some(edge) => {
                    if edge.block == grandparent {
                        Ok(Some(LedgerInfo { block: grandparent, state_id: edge.state_id }))
                    } else {
                        Err(Rejection::InconsistentCertificate)
                    }
                },
                None => Err(Rejection::InconsistentCertificate),
            }
        } else {
            Ok(None)
        }
    }

    /// Hands a block that the tree has taken, and the certificate that it
    /// carries, to durable storage. Says whether that went through.
    fn save_block(&mut self, executed: &Arc<ExecutedBlock<T>>, qc: &QuorumCert) -> (saved: bool)
        ensures
            final(self).tree() == old(self).tree(),
            final(self).engine() == old(self).engine(),
            final(self).safety() == old(self).safety(),
            final(self).timeouts() == old(self).timeouts(),
            final(self).signer() == old(self).signer(),
            final(self).election() == old(self).election(),
            final(self).round() == old(self).round(),
            final(self).round_state() == old(self).round_state(),
            final(self).halted() == old(self).halted(),
    {
        let (blocks, certificates) = Self::record_of(executed, qc);
        self.storage.save_tree(&blocks, &certificates).is_ok()
    }

    /// What is handed to durable storage for a block that the tree has
    /// taken: the block alone, and the certificate that it carries alone.
    fn record_of(executed: &Arc<ExecutedBlock<T>>, qc: &QuorumCert) -> (record: (
        Vec<Arc<ExecutedBlock<T>>>,
        Vec<QuorumCert>,
    ))
        ensures
            record.0@ == seq![*executed],
            record.1@.len() == 1,
            record.1@[0]@ == qc@,
    {
        let mut blocks: Vec<Arc<ExecutedBlock<T>>> = Vec::new();
        blocks.push(share(executed));
        let mut certificates: Vec<QuorumCert> = Vec::new();
        certificates.push(qc.clone());
        assert(blocks@ =~= seq![*executed]);
        (blocks, certificates)
    }

    /// Goes on with a proposal once the replica has acted on the
    /// certificate that it carries: see `proposal_settled`. What the
    /// certificate committed is handed through.
    #[verifier::rlimit(40)]
    fn settle_proposal(
        &mut self,
        block: Block<T>,
        qc: QuorumCert,
        sync_info: SyncInfo,
        commit: Option<CommitNotification<T>>,
    ) -> (out: ProcessOutcome<T>)
        requires
            old(self).wf(),
            !old(self).halted(),
            block.round < u64::MAX,
            contains_id(old(self).tree().nodes(), qc@.data.block.id),
        ensures
            final(self).wf(),
            old(self).engine().signed() ==> final(self).engine().signed(),
            final(self).engine().validators() == old(self).engine().validators(),
            final(self).engine().quorum() == old(self).engine().quorum(),
            final(self).timeouts() == old(self).timeouts(),
            final(self).signer() == old(self).signer(),
            final(self).election() == old(self).election(),
            out.commit == commit,
            proposal_settled(*old(self), *final(self), out, block, qc, sync_info@),
    {
        self.engine.observe_qc(&qc);
        self.engine.observe_qc(&sync_info.highest_qc);
        self.engine.observe_qc(&sync_info.highest_commit_cert);
        self.tree.observe_qc(&sync_info.highest_qc);
        self.safety.observe_qc(&sync_info.highest_qc);
        let ghost settled_nodes = self.tree.nodes();
        let info = match self.commit_info(block.round, &qc) {
            Ok(info) => info,
            Err(rejection) => {
                return ProcessOutcome {
                    messages: Vec::new(),
                    commit,
                    rejection: Some(rejection),
                    fatal: None,
                    proposal_due: None,
                };
            },
        };
        let round = block.round;
        let parent_id = block.parent_id;
        let seen = qc.clone();
        let ghost given = block;
        let executed = match self.tree.insert_block(&self.computer, block, qc) {
            Ok(executed) => {
                assert(self.tree.nodes().drop_last() =~= settled_nodes);
                if !self.save_block(&executed, &seen) {
                    return ProcessOutcome {
                        messages: Vec::new(),
                        commit,
                        rejection: Some(Rejection::Safety(SafetyError::StorageFailure)),
                        fatal: None,
                        proposal_due: None,
                    };
                }
                executed
            },
            Err(InsertError::DuplicateBlock(existing)) => {
                if existing.block.round != round || existing.block.parent_id != parent_id {
                    return ProcessOutcome {
                        messages: Vec::new(),
                        commit,
                        rejection: Some(Rejection::ConflictingBlock),
                        fatal: None,
                        proposal_due: None,
                    };
                }
                existing
            },
            Err(InsertError::InvalidProposal(fault)) => {
                return ProcessOutcome {
                    messages: Vec::new(),
                    commit,
                    rejection: Some(Rejection::Tree(fault)),
                    fatal: None,
                    proposal_due: None,
                };
            },
        };
        proof {
            assert(contains_id(self.tree.nodes(), given.id)) by {
                match insert_check(settled_nodes, given, qc@) {
                    InsertCheck::Accept(_) => {
                        let grown = self.tree.nodes();
                        assert(grown[grown.len() - 1].id() == given.id);
                    },
                    _ => {},
                }
            }
        }
        let state_id = match executed.compute_result {
            StateComputeResult::Executed { state_id } => state_id,
            StateComputeResult::Failed => {
                self.halted = true;
                return ProcessOutcome {
                    messages: Vec::new(),
                    commit,
                    rejection: None,
                    fatal: Some(FatalFault::ExecutionFailed),
                    proposal_due: None,
                };
            },
        };
        let decision = self.safety.should_vote(&mut self.storage, &executed.block, &seen);
        let proposal = match decision {
            Ok(proposal) => proposal,
            Err(e) => {
                return ProcessOutcome {
                    messages: Vec::new(),
                    commit,
                    rejection: Some(Rejection::Safety(e)),
                    fatal: None,
                    proposal_due: None,
                };
            },
        };
        let data = VoteData {
            block: proposal.block,
            state_id,
            parent: proposal.parent,
            commit: info,
        };
        let message = data.signing_message();
        let signature = self.signer.sign(message.as_slice());
        let vote = Vote { data, author: self.signer.author(), signature };
        let to = self.election.leader_for_round(round + 1);
        if round > self.round {
            self.round = round;
        }
        self.round_state = RoundState::AwaitingQC;
        let mut messages: Vec<OutboundMessage<T>> = Vec::new();
        messages.push(OutboundMessage::Vote { to, vote, sync_info: self.sync_info() });
        ProcessOutcome { messages, commit, rejection: None, fatal: None, proposal_due: None }
    }

    /// Takes in a proposal: a block, the certificate that it carries, and
    /// the progress of its sender.
    ///
    /// A replica that has stopped refuses everything. A proposal that
    /// `proposal_rejection` refuses is refused and nothing changes. Where
    /// `missing_block` finds the sender ahead, the replica asks the
    /// proposer for the block it misses, goes to `Syncing` and does not
    /// vote. Else the replica acts on the certificate that the proposal
    /// carries, which may commit blocks: see `took_certificate` and
    /// `committed_by`. Unless that stopped the replica it goes on as
    /// `proposal_settled` says: the proposal is refused if its certificate
    /// is inconsistent, if the tree refuses the block, or if the tree holds
    /// another block of that name; the block is executed and inserted; a
    /// block whose execution failed stops the replica; and then the safety
    /// rules decide. Where they allow it, and the vote was made durable,
    /// the replica signs the vote and sends it to the leader of the next
    /// round.
    #[verifier::rlimit(40)]
    pub fn process_proposal(&mut self, block: Block<T>, qc: QuorumCert, sync_info: SyncInfo) -> (out:
        ProcessOutcome<T>)
        requires
            old(self).wf(),
        ensures
            final(self).wf(),
            old(self).engine().signed() ==> final(self).engine().signed(),
            final(self).engine().validators() == old(self).engine().validators(),
            final(self).engine().quorum() == old(self).engine().quorum(),
            final(self).timeouts() == old(self).timeouts(),
            final(self).signer() == old(self).signer(),
            final(self).election() == old(self).election(),
            old(self).halted() ==> refused_as_halted(*old(self), *final(self), out),
            !old(self).halted() ==> ({
                let v = old(self).engine().validators();
                let nodes = old(self).tree().nodes();
                let refused = proposal_rejection(
                    v,
                    old(self).engine().quorum(),
                    old(self).leader(block.round),
                    nodes[0].round(),
                    block,
                    qc@,
                    sync_info@,
                );
                let missing = missing_block(
                    nodes,
                    old(self).engine().spec_highest_qc().data.block.round,
                    qc@,
                    sync_info@,
                );
                if refused is Some {
                    &&& out.rejection == refused
                    &&& out.is_silent()
                    &&& final(self).tree() == old(self).tree()
                    &&& final(self).safety() == old(self).safety()
                    &&& final(self).engine() == old(self).engine()
                    &&& final(self).round_state() == old(self).round_state()
                    &&& !final(self).halted()
                } else if missing is Some {
                    &&& out.rejection == Some(Rejection::SenderAhead)
                    &&& out.commit is None
                    &&& out.fatal is None
                    &&& out.messages@.len() == 1
                    &&& out.messages@[0] matches OutboundMessage::SyncRequest {
                        to,
                        block_id,
                        sync_info: own,
                    }
                    &&& own@ == final(self).progress()
                    &&& to == block.author
                    &&& Some(block_id) == missing
                    &&& final(self).tree() == old(self).tree()
                    &&& final(self).safety() == old(self).safety()
                    &&& final(self).engine() == old(self).engine()
                    &&& final(self).round_state() == RoundState::Syncing
                    &&& !final(self).halted()
                } else {
                    exists|mid: EventProcessor<T, C, S, L>, step: ProcessOutcome<T>|
                        {
                            &&& #[trigger] took_certificate(*old(self), mid, step, qc@)
                            &&& committed_by(nodes, old(self).engine(), mid, step, qc@)
                            &&& mid.wf()
                            &&& contains_id(mid.tree().nodes(), qc@.data.block.id)
                            &&& if step.fatal is Some {
                                &&& out.fatal == step.fatal
                                &&& out.rejection is None
                                &&& out.commit is None
                                &&& out.messages@.len() == 0
                                &&& final(self).tree() == mid.tree()
                                &&& final(self).safety() == mid.safety()
                                &&& final(self).engine() == mid.engine()
                                &&& final(self).halted()
                            } else {
                                &&& out.commit == step.commit
                                &&& proposal_settled(mid, *final(self), out, block, qc, sync_info@)
                            }
                        }
                }
            }),
    {
        if self.halted {
            return ProcessOutcome::rejected(Rejection::Halted);
        }
        match self.verify_proposal(&block, &qc, &sync_info) {
            Some(rejection) => {
                return ProcessOutcome::rejected(rejection);
            },
            None => {},
        }
        match self.find_missing(&qc, &sync_info) {
            Some(block_id) => {
                self.round_state = RoundState::Syncing;
                let request = OutboundMessage::SyncRequest {
                    to: block.author,
                    block_id,
                    sync_info: self.sync_info(),
                };
                let mut messages: Vec<OutboundMessage<T>> = Vec::new();
                messages.push(request);
                return ProcessOutcome {
                    messages,
                    commit: None,
                    rejection: Some(Rejection::SenderAhead),
                    fatal: None,
                    proposal_due: None,
                };
            },
            None => {},
        }
        let ghost nodes = self.tree.nodes();
        let step = self.on_new_certificate(&qc);
        let ghost mid = *self;
        proof {
            if chain_for(nodes, qc@).len() == 3 {
                lemma_chain_commits_ancestor(nodes, qc@);
            }
            assert(contains_id(mid.tree().nodes(), qc@.data.block.id));
        }
        if step.fatal.is_some() {
            return ProcessOutcome {
                messages: Vec::new(),
                commit: None,
                rejection: None,
                fatal: step.fatal,
                proposal_due: None,
            };
        }
        self.settle_proposal(block, qc, sync_info, step.commit)
    }

    /// Whether every block of the list was executed, with `state_id` as
    /// the state after the last.
    fn check_executed(blocks: &Vec<Arc<ExecutedBlock<T>>>, state_id: &HashValue) -> (r: Option<
        FatalFault,
    >)
        ensures
            r is None <==> executed_to(blocks@, *state_id),
            r matches Some(fault) ==> fault == FatalFault::ExecutionFailed || fault
                == FatalFault::StateMismatch,
    {
        let mut k: usize = 0;
        while k < blocks.len()
            invariant
                k <= blocks.len(),
                forall|j: int|
                    0 <= j < k ==> (#[trigger] blocks@[j]).compute_result
                        != StateComputeResult::Failed,
            decreases blocks.len() - k,
        {
            match blocks[k].compute_result {
                StateComputeResult::Failed => {
                    return Some(FatalFault::ExecutionFailed);
                },
                StateComputeResult::Executed { state_id: _ } => {},
            }
            k += 1;
        }
        if blocks.len() > 0 {
            match blocks[blocks.len() - 1].compute_result {
                StateComputeResult::Executed { state_id: last } => {
                    if last != *state_id {
                        return Some(FatalFault::StateMismatch);
                    }
                },
                StateComputeResult::Failed => {},
            }
        }
        None
    }

    /// Commits what `info` finalizes, if that moves the root.
    ///
    /// Nothing happens where the block is not in the tree or is the root.
    /// Else the blocks from the root to the block must all have been
    /// executed, with the certified state after the last; if not, the
    /// replica stops and the tree stays as it is. Then the tree commits,
    /// the state computer is told, and the votes for the committed rounds
    /// are dropped. A state computer that cannot commit stops the replica.
    fn try_commit(&mut self, info: &LedgerInfo) -> (r: (
        Option<CommitNotification<T>>,
        Option<FatalFault>,
    ))
        requires
            old(self).wf(),
            !old(self).halted(),
        ensures
            final(self).wf(),
            old(self).engine().signed() ==> final(self).engine().signed(),
            final(self).engine().validators() == old(self).engine().validators(),
            final(self).engine().quorum() == old(self).engine().quorum(),
            final(self).engine().equivocations() == old(self).engine().equivocations(),
            final(self).engine().spec_highest_qc() == old(self).engine().spec_highest_qc(),
            final(self).engine().spec_highest_commit_cert() == old(self).engine().spec_highest_commit_cert(),
            final(self).safety() == old(self).safety(),
            final(self).timeouts() == old(self).timeouts(),
            final(self).signer() == old(self).signer(),
            final(self).round() == old(self).round(),
            final(self).round_state() == old(self).round_state(),
            final(self).tree().highest_qc() == old(self).tree().highest_qc(),
            final(self).tree().prune_bound() == old(self).tree().prune_bound(),
            final(self).election() == old(self).election(),
            final(self).halted() == (r.1 is Some),
            r.1 is Some ==> r.0 is None,
            ({
                let nodes = old(self).tree().nodes();
                let blocks = blocks_to_commit(nodes, *info);
                if !moves_root(nodes, *info) {
                    &&& r.0 is None
                    &&& r.1 is None
                    &&& final(self).tree() == old(self).tree()
                    &&& final(self).engine() == old(self).engine()
                } else if !executed_to(blocks, info.state_id) {
                    &&& r.1 == Some(FatalFault::ExecutionFailed) || r.1 == Some(
                        FatalFault::StateMismatch,
                    )
                    &&& final(self).tree() == old(self).tree()
                    &&& final(self).engine() == old(self).engine()
                } else {
                    &&& final(self).tree().nodes() == subtree(
                        nodes,
                        index_of_id(nodes, info.block.id),
                    )
                    &&& match r.1 {
                        Some(fault) => fault is CommitFailed && final(self).engine() == old(self).engine(),
                        None => {
                            &&& r.0 matches Some(notification)
                            &&& notification.committed_blocks@ == blocks
                            &&& notification.ledger_info == *info
                            &&& final(self).engine().committed_round() == later_round(
                                old(self).engine().committed_round(),
                                info.block.round,
                            )
                            &&& final(self).engine().buckets() == retain_above(
                                old(self).engine().buckets(),
                                final(self).engine().committed_round(),
                            )
                        },
                    }
                }
            }),
    {
        let at = match self.tree.find(&info.block.id) {
            Some(at) => at,
            None => {
                return (None, None);
            },
        };
        if at == 0 {
            return (None, None);
        }
        let blocks = match self.tree.path_from_root(&info.block.id) {
            Some(blocks) => blocks,
            None => {
                return (None, None);
            },
        };
        match Self::check_executed(&blocks, &info.state_id) {
            Some(fault) => {
                self.halted = true;
                return (None, Some(fault));
            },
            None => {},
        }
        let committed = match self.tree.commit(&info.block.id) {
            Ok(committed) => committed,
            Err(_) => {
                return (None, None);
            },
        };
        match self.computer.commit(&committed, info) {
            Ok(_) => {},
            Err(e) => {
                self.halted = true;
                return (None, Some(FatalFault::CommitFailed(e)));
            },
        }
        self.engine.prune(info.block.round);
        (Some(CommitNotification { committed_blocks: committed, ledger_info: *info }), None)
    }

    /// Acts on a certificate that was formed or verified: the tree and the
    /// safety rules take note of it; what it commits is committed; and the
    /// replica moves to the round after it.
    fn on_new_certificate(&mut self, qc: &QuorumCert) -> (out: ProcessOutcome<T>)
        requires
            old(self).wf(),
            !old(self).halted(),
        ensures
            final(self).wf(),
            old(self).engine().signed() ==> final(self).engine().signed(),
            final(self).engine().validators() == old(self).engine().validators(),
            final(self).engine().quorum() == old(self).engine().quorum(),
            final(self).engine().equivocations() == old(self).engine().equivocations(),
            final(self).engine().spec_highest_qc() == old(self).engine().spec_highest_qc(),
            final(self).engine().spec_highest_commit_cert() == old(self).engine().spec_highest_commit_cert(),
            final(self).timeouts() == old(self).timeouts(),
            final(self).signer() == old(self).signer(),
            final(self).tree().prune_bound() == old(self).tree().prune_bound(),
            final(self).election() == old(self).election(),
            took_certificate(*old(self), *final(self), out, qc@),
            committed_by(old(self).tree().nodes(), old(self).engine(), *final(self), out, qc@),
    {
        self.tree.observe_qc(qc);
        self.safety.observe_qc(qc);
        let chain = self.tree.chain_to(qc);
        assert(crate::consensus::safety_rules::chain_view(chain@) =~= chain_for(
            self.tree.nodes(),
            qc@,
        ));
        let (commit, fatal) = match self.safety.should_commit(&chain) {
            Some(info) => self.try_commit(&info),
            None => (None, None),
        };
        match fatal {
            Some(fault) => {
                return ProcessOutcome::stopped(fault);
            },
            None => {},
        }
        let next = if qc.data.block.round < u64::MAX {
            qc.data.block.round + 1
        } else {
            u64::MAX
        };
        if next > self.round {
            self.round = next;
        }
        self.round_state = RoundState::Idle;
        let due = if self.election.leader_for_round(self.round) == self.signer.author() {
            Some(self.round)
        } else {
            None
        };
        ProcessOutcome {
            messages: Vec::new(),
            commit,
            rejection: None,
            fatal: None,
            proposal_due: due,
        }
    }

    /// Takes in a vote.
    ///
    /// A replica that has stopped refuses everything. Else the engine
    /// takes the vote in: see `add_vote_step`. A vote that is not valid or
    /// stale is refused and nothing changes. A vote that is pending
    /// changes the engine only. A vote that forms a certificate makes the
    /// replica act on the certificate: see `took_certificate` and
    /// `committed_by`, which speak of the engine as it is after the vote.
    /// Such a certificate verifies, as long as every signature that the
    /// engine holds does.
    pub fn process_vote(&mut self, vote: &Vote) -> (out: ProcessOutcome<T>)
        requires
            old(self).wf(),
        ensures
            final(self).wf(),
            old(self).engine().signed() ==> final(self).engine().signed(),
            final(self).engine().validators() == old(self).engine().validators(),
            final(self).engine().quorum() == old(self).engine().quorum(),
            final(self).timeouts() == old(self).timeouts(),
            final(self).signer() == old(self).signer(),
            final(self).election() == old(self).election(),
            old(self).halted() ==> refused_as_halted(*old(self), *final(self), out),
            !old(self).halted() ==> ({
                let step = add_vote_step(
                    old(self).engine().validators(),
                    old(self).engine().quorum(),
                    old(self).engine().committed_round(),
                    old(self).engine().buckets(),
                    *vote,
                    vote_is_valid(old(self).engine().validators(), *vote),
                );
                match step.status {
                    StatusView::InvalidSignature => {
                        &&& out.rejection == Some(Rejection::InvalidSignature)
                        &&& out.is_silent()
                        &&& final(self).tree() == old(self).tree()
                        &&& final(self).safety() == old(self).safety()
                        &&& final(self).engine().buckets() == old(self).engine().buckets()
                        &&& final(self).round() == old(self).round()
                        &&& final(self).round_state() == old(self).round_state()
                        &&& !final(self).halted()
                    },
                    StatusView::Stale => {
                        &&& out.rejection == Some(Rejection::Stale)
                        &&& out.is_silent()
                        &&& final(self).tree() == old(self).tree()
                        &&& final(self).safety() == old(self).safety()
                        &&& final(self).engine().buckets() == old(self).engine().buckets()
                        &&& final(self).round() == old(self).round()
                        &&& final(self).round_state() == old(self).round_state()
                        &&& !final(self).halted()
                    },
                    StatusView::Pending => {
                        &&& out.rejection is None
                        &&& out.is_silent()
                        &&& final(self).tree() == old(self).tree()
                        &&& final(self).safety() == old(self).safety()
                        &&& final(self).engine().buckets() == step.buckets
                        &&& final(self).round() == old(self).round()
                        &&& final(self).round_state() == old(self).round_state()
                        &&& !final(self).halted()
                    },
                    StatusView::QCFormed(qc) => {
                        &&& old(self).engine().signed() ==> check_certificate(
                            old(self).engine().validators(),
                            old(self).engine().quorum(),
                            qc,
                        ) == Ok::<(), VerifyError>(())
                        &&& final(self).engine().spec_highest_qc() == higher_round(
                            old(self).engine().spec_highest_qc(),
                            qc,
                        )
                        &&& final(self).engine().spec_highest_commit_cert() == higher_commit(
                            old(self).engine().spec_highest_commit_cert(),
                            qc,
                        )
                        &&& took_certificate(*old(self), *final(self), out, qc)
                        &&& exists|engine: QuorumCertEngine|
                            {
                                &&& engine.buckets() == step.buckets
                                &&& engine.committed_round() == old(self).engine().committed_round()
                                &&& #[trigger] committed_by(
                                    old(self).tree().nodes(),
                                    engine,
                                    *final(self),
                                    out,
                                    qc,
                                )
                            }
                    },
                }
            }),
    {
        if self.halted {
            return ProcessOutcome::rejected(Rejection::Halted);
        }
        match self.engine.add_vote(vote) {
            VoteReceiptStatus::InvalidSignature => ProcessOutcome::rejected(
                Rejection::InvalidSignature,
            ),
            VoteReceiptStatus::Stale => ProcessOutcome::rejected(Rejection::Stale),
            VoteReceiptStatus::Pending => ProcessOutcome::silent(),
            VoteReceiptStatus::QCFormed(qc) => {
                let ghost engine = self.engine;
                let out = self.on_new_certificate(&qc);
                proof {
                    assert(committed_by(old(self).tree().nodes(), engine, *self, out, qc@));
                }
                out
            },
        }
    }

    /// Acts on what became of a timeout: a certificate licenses the next
    /// round.
    fn on_timeout_status(&mut self, status: &TimeoutReceiptStatus) -> (due: Option<Round>)
        requires
            old(self).wf(),
        ensures
            final(self).wf(),
            final(self).tree() == old(self).tree(),
            final(self).engine() == old(self).engine(),
            final(self).timeouts() == old(self).timeouts(),
            final(self).signer() == old(self).signer(),
            final(self).election() == old(self).election(),
            final(self).halted() == old(self).halted(),
            match status@ {
                TimeoutStatusView::CertificateFormed(tc) => {
                    &&& final(self).safety().state() == with_timeout_cert(
                        old(self).safety().state(),
                        tc,
                    )
                    &&& final(self).round() == later_round(
                        old(self).round(),
                        round_after(tc.round),
                    )
                    &&& final(self).round_state() == RoundState::Idle
                    &&& due == (if final(self).leader(final(self).round())
                        == final(self).signer().spec_author() {
                        Some(final(self).round())
                    } else {
                        None
                    })
                },
                _ => {
                    &&& final(self).safety() == old(self).safety()
                    &&& final(self).round() == old(self).round()
                    &&& final(self).round_state() == old(self).round_state()
                    &&& due is None
                },
            },
    {
        match status {
            TimeoutReceiptStatus::CertificateFormed(tc) => {
                self.safety.observe_timeout_cert(tc);
                let next = if tc.round < u64::MAX {
                    tc.round + 1
                } else {
                    u64::MAX
                };
                if next > self.round {
                    self.round = next;
                }
                self.round_state = RoundState::Idle;
                if self.election.leader_for_round(self.round) == self.signer.author() {
                    Some(self.round)
                } else {
                    None
                }
            },
            _ => None,
        }
    }

    /// Takes in the word of the pacemaker that the round `round` has run
    /// out.
    ///
    /// A replica that has stopped refuses everything, and a round that is
    /// not the one the replica is in is stale. Else the replica signs a
    /// timeout of the round, takes it in with the timeouts it holds, and
    /// sends it to everybody together with its progress: see
    /// `add_timeout_step` and `took_timeout`.
    pub fn process_timeout(&mut self, round: Round) -> (out: ProcessOutcome<T>)
        requires
            old(self).wf(),
        ensures
            final(self).wf(),
            final(self).signer() == old(self).signer(),
            final(self).election() == old(self).election(),
            old(self).halted() || round != old(self).round() ==> {
                &&& out.rejection == Some(
                    if old(self).halted() {
                        Rejection::Halted
                    } else {
                        Rejection::Stale
                    },
                )
                &&& out.is_silent()
                &&& final(self).tree() == old(self).tree()
                &&& final(self).engine() == old(self).engine()
                &&& final(self).safety() == old(self).safety()
                &&& final(self).timeouts() == old(self).timeouts()
                &&& final(self).round() == old(self).round()
                &&& final(self).round_state() == old(self).round_state()
                &&& final(self).halted() == old(self).halted()
            },
            !old(self).halted() && round == old(self).round() ==> {
                &&& out.rejection is None
                &&& out.messages@.len() == 1
                &&& out.messages@[0] matches OutboundMessage::Timeout { timeout, sync_info }
                &&& sync_info@ == final(self).progress()
                &&& timeout.round == round
                &&& timeout.author == old(self).signer().spec_author()
                &&& timeout.signature@ == ed25519_signature(
                    old(self).signer().secret(),
                    timeout_message(round),
                )
                &&& took_timeout(
                    *old(self),
                    *final(self),
                    out,
                    add_timeout_step(
                        old(self).engine().validators(),
                        old(self).engine().quorum(),
                        old(self).timeouts().round(),
                        old(self).timeouts().votes(),
                        timeout,
                        timeout_is_valid(old(self).engine().validators(), timeout),
                    ),
                )
            },
    {
        if self.halted {
            return ProcessOutcome::rejected(Rejection::Halted);
        }
        if round != self.round {
            return ProcessOutcome::rejected(Rejection::Stale);
        }
        let message = timeout_signing_message(round);
        let signature = self.signer.sign(message.as_slice());
        let timeout = Timeout { round, author: self.signer.author(), signature };
        let status = self.timeouts.add_timeout(self.engine.validator_verifier(), &timeout);
        let due = self.on_timeout_status(&status);
        let mut messages: Vec<OutboundMessage<T>> = Vec::new();
        messages.push(OutboundMessage::Timeout { timeout, sync_info: self.sync_info() });
        ProcessOutcome { messages, commit: None, rejection: None, fatal: None, proposal_due: due }
    }

    /// Takes in the timeout of another replica.
    ///
    /// A replica that has stopped refuses everything. A timeout of a round
    /// before the one the replica is in is stale, and one of a later round
    /// shows that its sender is ahead; neither is counted, so that nobody
    /// can make the replica drop the timeouts of its round by naming a
    /// round far away. A timeout of the round the replica is in is taken
    /// in with the timeouts that are held: see `add_timeout_step` and
    /// `took_timeout`. Nothing is sent.
    pub fn process_remote_timeout(&mut self, timeout: &Timeout) -> (out: ProcessOutcome<T>)
        requires
            old(self).wf(),
        ensures
            final(self).wf(),
            final(self).signer() == old(self).signer(),
            final(self).election() == old(self).election(),
            out.messages@.len() == 0,
            old(self).halted() || timeout.round != old(self).round() ==> {
                &&& out.rejection == Some(
                    if old(self).halted() {
                        Rejection::Halted
                    } else if timeout.round < old(self).round() {
                        Rejection::Stale
                    } else {
                        Rejection::SenderAhead
                    },
                )
                &&& out.is_silent()
                &&& final(self).tree() == old(self).tree()
                &&& final(self).engine() == old(self).engine()
                &&& final(self).safety() == old(self).safety()
                &&& final(self).timeouts() == old(self).timeouts()
                &&& final(self).round() == old(self).round()
                &&& final(self).round_state() == old(self).round_state()
                &&& final(self).halted() == old(self).halted()
            },
            !old(self).halted() && timeout.round == old(self).round() ==> ({
                let step = add_timeout_step(
                    old(self).engine().validators(),
                    old(self).engine().quorum(),
                    old(self).timeouts().round(),
                    old(self).timeouts().votes(),
                    *timeout,
                    timeout_is_valid(old(self).engine().validators(), *timeout),
                );
                &&& took_timeout(*old(self), *final(self), out, step)
                &&& out.rejection == (match step.status {
                    TimeoutStatusView::InvalidSignature => Some(Rejection::InvalidSignature),
                    TimeoutStatusView::Stale => Some(Rejection::Stale),
                    _ => None,
                })
            }),
    {
        if self.halted {
            return ProcessOutcome::rejected(Rejection::Halted);
        }
        if timeout.round < self.round {
            return ProcessOutcome::rejected(Rejection::Stale);
        }
        if timeout.round > self.round {
            return ProcessOutcome::rejected(Rejection::SenderAhead);
        }
        let status = self.timeouts.add_timeout(self.engine.validator_verifier(), timeout);
        let due = self.on_timeout_status(&status);
        let rejection = match status {
            TimeoutReceiptStatus::InvalidSignature => Some(Rejection::InvalidSignature),
            TimeoutReceiptStatus::Stale => Some(Rejection::Stale),
            _ => None,
        };
        ProcessOutcome {
            messages: Vec::new(),
            commit: None,
            rejection,
            fatal: None,
            proposal_due: due,
        }
    }

    /// Builds the proposal of the round the replica is in: the block of
    /// the name `id` with the given transactions, which extends the block
    /// that the highest certificate certifies and carries that
    /// certificate.
    ///
    /// A replica that has stopped refuses everything, and
    /// `proposing_rejection` says when else nothing is proposed. The block
    /// is signed, executed, put into the replica's own tree and handed to
    /// durable storage. Where storage fails nothing is sent. A block whose
    /// execution failed stops the replica. Else the proposal is sent to
    /// everybody, together with the replica's progress.
    pub fn generate_proposal(&mut self, id: HashValue, payload: T, timestamp_usecs: u64) -> (out:
        ProcessOutcome<T>)
        requires
            old(self).wf(),
        ensures
            final(self).wf(),
            final(self).engine() == old(self).engine(),
            final(self).safety() == old(self).safety(),
            final(self).timeouts() == old(self).timeouts(),
            final(self).signer() == old(self).signer(),
            final(self).election() == old(self).election(),
            final(self).round() == old(self).round(),
            final(self).round_state() == old(self).round_state(),
            final(self).tree().retired() == old(self).tree().retired(),
            final(self).tree().prune_bound() == old(self).tree().prune_bound(),
            old(self).halted() ==> refused_as_halted(*old(self), *final(self), out),
            !old(self).halted() ==> ({
                let nodes = old(self).tree().nodes();
                let highest = old(self).engine().spec_highest_qc();
                let refused = proposing_rejection(
                    nodes,
                    highest,
                    old(self).leader(old(self).round()),
                    old(self).signer().spec_author(),
                    old(self).round(),
                    id,
                );
                if refused is Some {
                    &&& out.rejection == refused
                    &&& out.is_silent()
                    &&& final(self).tree().nodes() == nodes
                    &&& final(self).tree().highest_qc() == old(self).tree().highest_qc()
                    &&& !final(self).halted()
                } else {
                    &&& out.rejection is None || out.rejection == Some(
                        Rejection::Safety(SafetyError::StorageFailure),
                    )
                    &&& out.commit is None
                    &&& out.proposal_due is None
                    &&& final(self).tree().nodes().len() == nodes.len() + 1
                    &&& final(self).tree().nodes().drop_last() == nodes
                    &&& final(self).tree().nodes().last().qc@ == highest
                    &&& ({
                        let block = final(self).tree().nodes().last().executed.block;
                        &&& block.id == id
                        &&& block.round == old(self).round()
                        &&& block.payload == payload
                        &&& block.timestamp_usecs == timestamp_usecs
                        &&& block.parent_id == highest.data.block.id
                        &&& block.author == old(self).signer().spec_author()
                        &&& block.signature@ == ed25519_signature(
                            old(self).signer().secret(),
                            proposal_message(id),
                        )
                    })
                    &&& final(self).halted() == (out.fatal is Some)
                    &&& if out.rejection is Some {
                        &&& out.fatal is None
                        &&& out.messages@.len() == 0
                    } else if final(self).tree().nodes().last().executed.compute_result
                        == StateComputeResult::Failed {
                        &&& out.fatal == Some(FatalFault::ExecutionFailed)
                        &&& out.messages@.len() == 0
                    } else {
                        &&& out.fatal is None
                        &&& out.messages@.len() == 1
                        &&& out.messages@[0] matches OutboundMessage::Proposal {
                            block,
                            qc,
                            sync_info,
                        }
                        &&& block == final(self).tree().nodes().last().executed
                        &&& qc@ == highest
                        &&& sync_info@ == final(self).progress()
                    }
                }
            }),
    {
        if self.halted {
            return ProcessOutcome::rejected(Rejection::Halted);
        }
        let author = self.signer.author();
        if self.election.leader_for_round(self.round) != author {
            return ProcessOutcome::rejected(Rejection::NotLeader);
        }
        let highest = self.engine.highest_qc();
        if !self.tree.block_exists(&highest.data.block.id) {
            return ProcessOutcome::rejected(Rejection::Tree(ProposalFault::MissingParent));
        }
        if self.round <= highest.data.block.round {
            return ProcessOutcome::rejected(Rejection::Stale);
        }
        let message = proposal_signing_message(&id);
        let signature = self.signer.sign(message.as_slice());
        let block = Block {
            id,
            round: self.round,
            payload,
            timestamp_usecs,
            parent_id: highest.data.block.id,
            author,
            signature,
        };
        let carried = highest.clone();
        let ghost nodes = self.tree.nodes();
        let ghost check = insert_check(nodes, block, carried@);
        proof {
            let p = index_of_id(nodes, highest.data.block.id);
            assert(nodes[p].id() == highest.data.block.id);
            assert(carried@.data.block == (BlockInfo {
                id: block.parent_id,
                round: highest.data.block.round,
            }));
        }
        let executed = match self.tree.insert_block(&self.computer, block, carried) {
            Ok(executed) => {
                assert(self.tree.nodes().drop_last() =~= nodes);
                executed
            },
            Err(InsertError::DuplicateBlock(_)) => {
                assert(check is Duplicate);
                return ProcessOutcome::rejected(Rejection::ConflictingBlock);
            },
            Err(InsertError::InvalidProposal(fault)) => {
                assert(check == InsertCheck::Invalid(fault));
                return ProcessOutcome::rejected(Rejection::Tree(fault));
            },
        };
        if !self.save_block(&executed, &highest) {
            return ProcessOutcome::rejected(Rejection::Safety(SafetyError::StorageFailure));
        }
        match executed.compute_result {
            StateComputeResult::Failed => {
                self.halted = true;
                return ProcessOutcome::stopped(FatalFault::ExecutionFailed);
            },
            StateComputeResult::Executed { state_id: _ } => {},
        }
        let mut messages: Vec<OutboundMessage<T>> = Vec::new();
        messages.push(
            OutboundMessage::Proposal { block: executed, qc: highest, sync_info: self.sync_info() },
        );
        ProcessOutcome { messages, commit: None, rejection: None, fatal: None, proposal_due: None }
    }

    /// Takes in blocks that another replica sent, oldest first, each with
    /// the certificate that it carries: see `took_sent_blocks`. A block
    /// whose certificate does not verify, or that the tree refuses, is
    /// passed over, and so the tree holds what it held and, after that, the
    /// blocks that it accepted. What the tree takes is handed to durable
    /// storage. Nothing else changes.
    fn absorb_blocks(&mut self, blocks: Vec<BlockWithCert<T>>)
        requires
            old(self).wf(),
        ensures
            final(self).wf(),
            exists|stages: Seq<Seq<TreeNode<T>>>|
                {
                    &&& #[trigger] took_sent_blocks(
                        old(self).engine().validators(),
                        old(self).engine().quorum(),
                        blocks@,
                        stages,
                    )
                    &&& stages[0] == old(self).tree().nodes()
                    &&& stages.last() == final(self).tree().nodes()
                },
            old(self).tree().nodes().len() <= final(self).tree().nodes().len(),
            final(self).tree().nodes().take(old(self).tree().nodes().len() as int) == old(self).tree().nodes(),
            final(self).tree().retired() == old(self).tree().retired(),
            final(self).tree().prune_bound() == old(self).tree().prune_bound(),
            final(self).engine() == old(self).engine(),
            final(self).safety() == old(self).safety(),
            final(self).timeouts() == old(self).timeouts(),
            final(self).signer() == old(self).signer(),
            final(self).election() == old(self).election(),
            final(self).round() == old(self).round(),
            final(self).round_state() == old(self).round_state(),
            final(self).halted() == old(self).halted(),
    {
        let mut rest = blocks;
        let ghost v = self.engine().validators();
        let ghost quorum = self.engine().quorum();
        let ghost mut stages: Seq<Seq<TreeNode<T>>> = seq![self.tree.nodes()];
        assert(self.tree.nodes().take(self.tree.nodes().len() as int) =~= self.tree.nodes());
        assert(rest@ =~= blocks@.skip(0));
        while rest.len() > 0
            invariant
                self.wf(),
                v == old(self).engine().validators(),
                quorum == old(self).engine().quorum(),
                rest@.len() <= blocks@.len(),
                rest@ == blocks@.skip(blocks@.len() - rest@.len()),
                stages.len() == blocks@.len() - rest@.len() + 1,
                stages[0] == old(self).tree().nodes(),
                stages.last() == self.tree().nodes(),
                forall|k: int|
                    0 <= k < stages.len() - 1 ==> took_sent_block(
                        v,
                        quorum,
                        stages[k],
                        stages[k + 1],
                        #[trigger] blocks@[k],
                    ),
                old(self).tree().nodes().len() <= self.tree().nodes().len(),
                self.tree().nodes().take(old(self).tree().nodes().len() as int) == old(self).tree().nodes(),
                self.tree().retired() == old(self).tree().retired(),
                self.tree().prune_bound() == old(self).tree().prune_bound(),
                self.engine() == old(self).engine(),
                self.safety() == old(self).safety(),
                self.timeouts() == old(self).timeouts(),
                self.signer() == old(self).signer(),
                self.election() == old(self).election(),
                self.round() == old(self).round(),
                self.round_state() == old(self).round_state(),
                self.halted() == old(self).halted(),
            decreases rest.len(),
        {
            let ghost at = blocks@.len() - rest@.len();
            let ghost before = self.tree.nodes();
            let ghost earlier = stages;
            let item = rest.remove(0);
            assert(item == blocks@[at]);
            assert(rest@ =~= blocks@.skip(at + 1));
            let ghost sent = item;
            if self.engine.validator_verifier().verify_quorum_cert(&item.qc).is_ok() {
                let carried = item.qc.clone();
                match self.tree.insert_block(&self.computer, item.block, item.qc) {
                    Ok(executed) => {
                        assert(self.tree.nodes().drop_last() =~= before);
                        let _ = self.save_block(&executed, &carried);
                    },
                    Err(_) => {},
                }
                assert(self.tree.nodes().take(before.len() as int) =~= before);
                assert(self.tree.nodes().take(old(self).tree().nodes().len() as int)
                    =~= before.take(old(self).tree().nodes().len() as int));
            }
            proof {
                assert(took_sent_block(v, quorum, before, self.tree.nodes(), sent));
                stages = earlier.push(self.tree.nodes());
                assert forall|k: int| 0 <= k < stages.len() - 1 implies took_sent_block(
                    v,
                    quorum,
                    stages[k],
                    stages[k + 1],
                    #[trigger] blocks@[k],
                ) by {
                    if k < at {
                        assert(stages[k] == earlier[k]);
                        assert(stages[k + 1] == earlier[k + 1]);
                    } else {
                        assert(stages[k] == before);
                    }
                }
            }
        }
        assert(took_sent_blocks(v, quorum, blocks@, stages));
    }

    /// Takes in the progress of another replica, with the blocks that it
    /// sent along, oldest first.
    ///
    /// A replica that has stopped refuses everything. Progress whose
    /// certificates do not verify is refused and nothing changes. Else the
    /// blocks are put into the tree as far as the tree accepts them, and
    /// the engine takes note of the certificates: see `absorbed`. Where the
    /// tree then still misses the block that the sender's highest
    /// certificate certifies, the replica asks the sender for it and goes
    /// to `Syncing`. Else it acts on that certificate: see
    /// `took_certificate` and `committed_by`, which speak of the processor
    /// as it is after the blocks were taken in.
    #[verifier::rlimit(40)]
    pub fn process_sync_info(
        &mut self,
        sender: Author,
        sync_info: SyncInfo,
        blocks: Vec<BlockWithCert<T>>,
    ) -> (out: ProcessOutcome<T>)
        requires
            old(self).wf(),
        ensures
            final(self).wf(),
            old(self).engine().signed() ==> final(self).engine().signed(),
            final(self).engine().validators() == old(self).engine().validators(),
            final(self).engine().quorum() == old(self).engine().quorum(),
            final(self).timeouts() == old(self).timeouts(),
            final(self).signer() == old(self).signer(),
            final(self).election() == old(self).election(),
            old(self).halted() ==> refused_as_halted(*old(self), *final(self), out),
            !old(self).halted() ==> took_sync_info(
                *old(self),
                *final(self),
                out,
                sender,
                sync_info@,
                blocks@,
            ),
    {
        if self.halted {
            return ProcessOutcome::rejected(Rejection::Halted);
        }
        match self.engine.validator_verifier().verify_quorum_cert(&sync_info.highest_qc) {
            Err(e) => {
                return ProcessOutcome::rejected(Rejection::InvalidCertificate(e));
            },
            Ok(_) => {},
        }
        match self.engine.validator_verifier().verify_quorum_cert(&sync_info.highest_commit_cert) {
            Err(e) => {
                return ProcessOutcome::rejected(Rejection::InvalidCertificate(e));
            },
            Ok(_) => {},
        }
        self.absorb_blocks(blocks);
        let ghost stages = choose|stages: Seq<Seq<TreeNode<T>>>|
            {
                &&& #[trigger] took_sent_blocks(
                    old(self).engine().validators(),
                    old(self).engine().quorum(),
                    blocks@,
                    stages,
                )
                &&& stages[0] == old(self).tree().nodes()
                &&& stages.last() == self.tree().nodes()
            };
        self.engine.observe_qc(&sync_info.highest_qc);
        self.engine.observe_qc(&sync_info.highest_commit_cert);
        let ghost mid = *self;
        proof {
            assert(took_sent_blocks(
                old(self).engine().validators(),
                old(self).engine().quorum(),
                blocks@,
                stages,
            ));
            assert(stages.last() == mid.tree().nodes());
            assert(absorbed(*old(self), mid, sync_info@, blocks@));
        }
        if !self.tree.block_exists(&sync_info.highest_qc.data.block.id) {
            self.round_state = RoundState::Syncing;
            let request = OutboundMessage::SyncRequest {
                to: sender,
                block_id: sync_info.highest_qc.data.block.id,
                sync_info: self.sync_info(),
            };
            let mut messages: Vec<OutboundMessage<T>> = Vec::new();
            messages.push(request);
            return ProcessOutcome {
                messages,
                commit: None,
                rejection: Some(Rejection::SenderAhead),
                fatal: None,
                proposal_due: None,
            };
        }
        self.on_new_certificate(&sync_info.highest_qc)
    }
}

} // verus!
