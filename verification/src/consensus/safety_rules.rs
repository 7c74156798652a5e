//! The safety rules: whether the replica may vote for a block, and whether
//! a chain of certificates commits one.

use crate::consensus::block::{Block, ExecutedBlock};
use crate::consensus::common::{BlockInfo, Round};
use crate::consensus::quorum_cert_engine::higher_round;
use crate::consensus::timeout::{TimeoutCertificate, TimeoutCertificateView};
use crate::consensus::vote::{LedgerInfo, QuorumCert, QuorumCertView};
use std::sync::Arc;
use vstd::prelude::*;

verus! {

/// Durable storage could not write or read.
#[derive(Clone, Copy, Debug, PartialEq, Eq, Structural)]
pub struct StorageError {
    pub code: u64,
}

/// What must outlive a crash for the replica never to vote twice in a
/// round: the last round it voted in, the highest certificate it has seen,
/// and the highest timeout certificate.
#[derive(Debug)]
pub struct PersistentLivenessData {
    pub last_voted_round: Round,
    pub highest_qc: QuorumCert,
    pub highest_timeout_cert: Option<TimeoutCertificate>,
}

/// The durable record as contracts see it.
pub struct LivenessView {
    pub last_voted_round: Round,
    pub highest_qc: QuorumCertView,
    pub highest_timeout_cert: Option<TimeoutCertificateView>,
}

/// A timeout certificate, if there is one, as contracts see it.
pub open spec fn timeout_view(tc: Option<TimeoutCertificate>) -> Option<TimeoutCertificateView> {
    match tc {
        Some(tc) => Some(tc@),
        None => None,
    }
}

impl View for PersistentLivenessData {
    type V = LivenessView;

    open spec fn view(&self) -> LivenessView {
        LivenessView {
            last_voted_round: self.last_voted_round,
            highest_qc: self.highest_qc@,
            highest_timeout_cert: timeout_view(self.highest_timeout_cert),
        }
    }
}

/// What was read from durable storage at startup.
#[derive(Debug)]
pub struct RecoveryData<T> {
    pub blocks: Vec<ExecutedBlock<T>>,
    pub quorum_certs: Vec<QuorumCert>,
    pub consensus_state: PersistentLivenessData,
}

/// Durable storage for what the replica must not forget. Whoever holds the
/// disk implements this.
pub trait PersistentStorage<T> {
    /// Makes blocks and certificates of the tree durable.
    fn save_tree(
        &mut self,
        blocks: &Vec<Arc<ExecutedBlock<T>>>,
        quorum_certs: &Vec<QuorumCert>,
    ) -> Result<(), StorageError>;

    /// Makes the replica's own state durable.
    fn save_consensus_state(
        &mut self,
        last_voted_round: Round,
        highest_qc: &QuorumCert,
        highest_timeout_cert: &Option<TimeoutCertificate>,
    ) -> Result<(), StorageError>;

    /// Reads everything back, at startup.
    fn load(&self) -> Result<RecoveryData<T>, StorageError>;
}

/// Why the replica does not vote.
#[derive(Clone, Copy, Debug, PartialEq, Eq, Structural)]
pub enum SafetyError {
    /// The certificate that comes with the block does not certify the
    /// block's parent, or the block's round is not above its parent's.
    InvalidProposal,
    /// The replica has voted in this round or a later one.
    StaleRound,
    /// The block neither extends the locked block nor comes with a
    /// certificate of a higher round than the lock.
    LockViolation,
    /// The vote could not be made durable, so it is not given.
    StorageFailure,
}

/// What the replica may vote for: the block, its parent, and the block
/// that a certificate for the vote would commit.
#[derive(Clone, Copy, Debug, Eq)]
pub struct VoteProposal {
    pub block: BlockInfo,
    pub parent: BlockInfo,
    pub potential_commit: Option<BlockInfo>,
}

impl PartialEq for VoteProposal {
    fn eq(&self, other: &Self) -> (r: bool) {
        let same_commit = match (self.potential_commit, other.potential_commit) {
            (None, None) => true,
            (Some(a), Some(b)) => a == b,
            _ => false,
        };
        self.block == other.block && self.parent == other.parent && same_commit
    }
}

impl vstd::std_specs::cmp::PartialEqSpecImpl for VoteProposal {
    open spec fn obeys_eq_spec() -> bool {
        true
    }

    open spec fn eq_spec(&self, other: &Self) -> bool {
        *self == *other
    }
}

/// The block extends what the certificate certifies: the certified block
/// is the block's parent and of a lower round.
pub open spec fn extends_certificate<T>(block: Block<T>, qc: QuorumCertView) -> bool {
    qc.data.block.id == block.parent_id && qc.data.block.round < block.round
}

/// A block that comes with the certificate `qc` respects the lock: the
/// certificate certifies the locked block, so that the block extends it,
/// or it is of a higher round than the lock, which shows that the network
/// has moved on.
pub open spec fn respects_lock(locked: QuorumCertView, qc: QuorumCertView) -> bool {
    qc.data.block == locked.data.block || qc.data.block.round > locked.data.block.round
}

/// The block that a certificate for a block of the round `round` would
/// commit, where the block comes with the certificate `qc`: the parent of
/// the certified block, if the rounds of the three follow one another
/// without a gap.
pub open spec fn potential_commit(round: Round, qc: QuorumCertView) -> Option<BlockInfo> {
    if qc.data.parent.round + 1 == qc.data.block.round && qc.data.block.round + 1 == round {
        Some(qc.data.parent)
    } else {
        None
    }
}

/// Whether the replica may vote for the block, which comes with the
/// certificate `qc`. The proposal must extend its certificate; its round
/// must be above every round the replica has voted in; and it must respect
/// the lock. This is looked at in that order.
pub open spec fn vote_decision<T>(state: LivenessView, block: Block<T>, qc: QuorumCertView) -> Result<
    VoteProposal,
    SafetyError,
> {
    if !extends_certificate(block, qc) {
        Err(SafetyError::InvalidProposal)
    } else if block.round <= state.last_voted_round {
        Err(SafetyError::StaleRound)
    } else if !respects_lock(state.highest_qc, qc) {
        Err(SafetyError::LockViolation)
    } else {
        Ok(
            VoteProposal {
                block: block.spec_info(),
                parent: qc.data.block,
                potential_commit: potential_commit(block.round, qc),
            },
        )
    }
}

/// The state after a vote in the round `round` for a block that came with
/// the certificate `qc`: the round is the last voted one, unless a later
/// one was, and the lock moves up to the certificate if that is higher.
pub open spec fn state_after_vote(state: LivenessView, round: Round, qc: QuorumCertView) -> LivenessView {
    LivenessView {
        last_voted_round: if round > state.last_voted_round {
            round
        } else {
            state.last_voted_round
        },
        highest_qc: higher_round(state.highest_qc, qc),
        highest_timeout_cert: state.highest_timeout_cert,
    }
}

/// The replica never votes twice in a round: once it has voted for a
/// block, its rules refuse every block of that round and of every round
/// before it, whatever certificate comes with the block. What
/// `SafetyRules::should_vote` hands to durable storage before it gives a
/// vote is made by `SafetyRules::state_to_write`, which is the state after
/// the vote, and `SafetyRules::new` takes a state back as it was written;
/// so this holds across a crash as well.
pub proof fn lemma_no_double_vote<T>(
    state: LivenessView,
    block: Block<T>,
    qc: QuorumCertView,
    other: Block<T>,
    other_qc: QuorumCertView,
)
    requires
        vote_decision(state, block, qc) is Ok,
        other.round <= block.round,
    ensures
        vote_decision(state_after_vote(state, block.round, qc), other, other_qc) is Err,
        state_after_vote(state, block.round, qc).last_voted_round == block.round,
{
}

/// It makes no difference to a proposal whether the rules take note of
/// the certificate that it carries before they decide or after: the lock
/// that has moved up to the certificate allows the proposal exactly when
/// the lock before did.
pub proof fn lemma_lock_may_move_first<T>(state: LivenessView, block: Block<T>, qc: QuorumCertView)
    ensures
        vote_decision(
            LivenessView { highest_qc: higher_round(state.highest_qc, qc), ..state },
            block,
            qc,
        ) == vote_decision(state, block, qc),
{
}

/// What the rules guard only ever goes up: a vote lowers neither the last
/// voted round nor the round of the lock.
pub proof fn lemma_vote_is_monotonic(state: LivenessView, round: Round, qc: QuorumCertView)
    ensures
        state_after_vote(state, round, qc).last_voted_round >= state.last_voted_round,
        state_after_vote(state, round, qc).highest_qc.data.block.round
            >= state.highest_qc.data.block.round,
{
}

/// The state after a timeout certificate was seen: it is kept if it is of
/// a higher round than the one that is kept.
pub open spec fn with_timeout_cert(state: LivenessView, tc: TimeoutCertificateView) -> LivenessView {
    LivenessView {
        highest_timeout_cert: match state.highest_timeout_cert {
            Some(kept) => if tc.round > kept.round {
                Some(tc)
            } else {
                Some(kept)
            },
            None => Some(tc),
        },
        ..state
    }
}

/// The three certificates make a 3-chain: each certifies the parent of
/// what the next certifies, and the rounds follow one another without a
/// gap.
pub open spec fn is_three_chain(c0: QuorumCertView, c1: QuorumCertView, c2: QuorumCertView) -> bool {
    &&& c1.data.parent == c0.data.block
    &&& c2.data.parent == c1.data.block
    &&& c0.data.block.round + 1 == c1.data.block.round
    &&& c1.data.block.round + 1 == c2.data.block.round
}

/// What a chain of certificates commits, the newest certificate last: the
/// block that the third from the end certifies, with the state after it,
/// if the last three make a 3-chain.
pub open spec fn commit_decision(chain: Seq<QuorumCertView>) -> Option<LedgerInfo> {
    if chain.len() >= 3 && is_three_chain(
        chain[chain.len() - 3],
        chain[chain.len() - 2],
        chain[chain.len() - 1],
    ) {
        Some(
            LedgerInfo {
                block: chain[chain.len() - 3].data.block,
                state_id: chain[chain.len() - 3].data.state_id,
            },
        )
    } else {
        None
    }
}

/// The certificates of a list as contracts see them.
pub open spec fn chain_view(chain: Seq<QuorumCert>) -> Seq<QuorumCertView> {
    Seq::new(chain.len(), |i: int| chain[i]@)
}

/// The safety rules, with the state that they guard: the last round the
/// replica voted in and the lock, which is the highest certificate the
/// replica has seen. Nothing but the safety rules changes that state.
#[derive(Debug)]
pub struct SafetyRules {
    state: PersistentLivenessData,
}

impl SafetyRules {
    /// The state that the rules guard.
    pub closed spec fn state(&self) -> LivenessView {
        self.state@
    }

    /// The rules over the state that was read from durable storage.
    pub fn new(state: PersistentLivenessData) -> (rules: Self)
        ensures
            rules.state() == state@,
    {
        SafetyRules { state }
    }

    /// The state as it is to be written to durable storage.
    pub fn consensus_state(&self) -> (state: PersistentLivenessData)
        ensures
            state@ == self.state(),
    {
        PersistentLivenessData {
            last_voted_round: self.state.last_voted_round,
            highest_qc: self.state.highest_qc.clone(),
            highest_timeout_cert: match &self.state.highest_timeout_cert {
                Some(tc) => Some(tc.clone()),
                None => None,
            },
        }
    }

    /// The last round the replica voted in.
    pub fn last_voted_round(&self) -> (round: Round)
        ensures
            round == self.state().last_voted_round,
    {
        self.state.last_voted_round
    }

    /// The lock: the highest certificate the replica has seen.
    pub fn locked_qc(&self) -> (qc: QuorumCert)
        ensures
            qc@ == self.state().highest_qc,
    {
        self.state.highest_qc.clone()
    }

    /// Takes note of a certificate: the lock moves up to it if it is of a
    /// higher round.
    pub fn observe_qc(&mut self, qc: &QuorumCert)
        ensures
            final(self).state() == (LivenessView {
                highest_qc: higher_round(old(self).state().highest_qc, qc@),
                ..old(self).state()
            }),
    {
        if qc.data.block.round > self.state.highest_qc.data.block.round {
            self.state.highest_qc = qc.clone();
        }
    }

    /// Takes note of a timeout certificate: it is kept if it is of a
    /// higher round than the one that is kept.
    pub fn observe_timeout_cert(&mut self, tc: &TimeoutCertificate)
        ensures
            final(self).state() == with_timeout_cert(old(self).state(), tc@),
    {
        let higher = match &self.state.highest_timeout_cert {
            Some(kept) => tc.round > kept.round,
            None => true,
        };
        if higher {
            self.state.highest_timeout_cert = Some(tc.clone());
        }
    }

    /// Whether the replica may vote for the block: see `vote_decision`.
    /// Nothing changes.
    pub fn consider<T>(&self, block: &Block<T>, qc: &QuorumCert) -> (r: Result<
        VoteProposal,
        SafetyError,
    >)
        ensures
            r == vote_decision(self.state(), *block, qc@),
    {
        if !(qc.data.block.id == block.parent_id && qc.data.block.round < block.round) {
            return Err(SafetyError::InvalidProposal);
        }
        if block.round <= self.state.last_voted_round {
            return Err(SafetyError::StaleRound);
        }
        let locked = &self.state.highest_qc.data.block;
        if !(qc.data.block == *locked || qc.data.block.round > locked.round) {
            return Err(SafetyError::LockViolation);
        }
        let commit = if qc.data.parent.round < qc.data.block.round && qc.data.block.round
            - qc.data.parent.round == 1 && block.round - qc.data.block.round == 1 {
            Some(qc.data.parent)
        } else {
            None
        };
        Ok(VoteProposal { block: block.info(), parent: qc.data.block, potential_commit: commit })
    }

    /// Settles a vote that `consider` allowed, once the new state was
    /// handed to durable storage. Where the write went through, the state
    /// is the one after the vote and the vote is given. Where it failed,
    /// nothing changes and the vote is not given.
    pub fn conclude_vote(
        &mut self,
        proposal: VoteProposal,
        qc: &QuorumCert,
        written: Result<(), StorageError>,
    ) -> (r: Result<VoteProposal, SafetyError>)
        ensures
            written is Ok ==> r == Ok::<VoteProposal, SafetyError>(proposal) && final(self).state()
                == state_after_vote(old(self).state(), proposal.block.round, qc@),
            written is Err ==> r == Err::<VoteProposal, SafetyError>(SafetyError::StorageFailure)
                && final(self).state() == old(self).state(),
    {
        match written {
            Ok(_) => {
                if proposal.block.round > self.state.last_voted_round {
                    self.state.last_voted_round = proposal.block.round;
                }
                self.observe_qc(qc);
                Ok(proposal)
            },
            Err(_) => Err(SafetyError::StorageFailure),
        }
    }

    /// The record that goes to durable storage before the replica votes
    /// for the block, which comes with the certificate `qc`: the state
    /// after the vote.
    pub fn state_to_write<T>(&self, block: &Block<T>, qc: &QuorumCert) -> (record:
        PersistentLivenessData)
        ensures
            record@ == state_after_vote(self.state(), block.round, qc@),
    {
        PersistentLivenessData {
            last_voted_round: if block.round > self.state.last_voted_round {
                block.round
            } else {
                self.state.last_voted_round
            },
            highest_qc: if qc.data.block.round > self.state.highest_qc.data.block.round {
                qc.clone()
            } else {
                self.state.highest_qc.clone()
            },
            highest_timeout_cert: match &self.state.highest_timeout_cert {
                Some(tc) => Some(tc.clone()),
                None => None,
            },
        }
    }

    /// Decides whether the replica votes for the block, which comes with
    /// the certificate `qc`. Where `vote_decision` refuses, that is the
    /// answer and nothing changes. Where it allows the vote, the state
    /// after the vote, as `state_to_write` makes it, is handed to durable
    /// storage before anything else;
    /// the vote is given and the state changed only if that write went
    /// through, and a failed write gives `StorageFailure` and changes
    /// nothing.
    pub fn should_vote<T, S: PersistentStorage<T>>(
        &mut self,
        storage: &mut S,
        block: &Block<T>,
        qc: &QuorumCert,
    ) -> (r: Result<VoteProposal, SafetyError>)
        ensures
            match vote_decision(old(self).state(), *block, qc@) {
                Err(e) => r == Err::<VoteProposal, SafetyError>(e) && final(self).state() == old(
                    self,
                ).state(),
                Ok(proposal) => {
                    ||| r == Ok::<VoteProposal, SafetyError>(proposal) && final(self).state()
                        == state_after_vote(old(self).state(), block.round, qc@)
                    ||| r == Err::<VoteProposal, SafetyError>(SafetyError::StorageFailure)
                        && final(self).state() == old(self).state()
                },
            },
    {
        let proposal = match self.consider(block, qc) {
            Ok(proposal) => proposal,
            Err(e) => {
                return Err(e);
            },
        };
        let record = self.state_to_write(block, qc);
        let written = storage.save_consensus_state(
            record.last_voted_round,
            &record.highest_qc,
            &record.highest_timeout_cert,
        );
        self.conclude_vote(proposal, qc, written)
    }

    /// What a chain of certificates commits, if anything: see
    /// `commit_decision`.
    pub fn should_commit(&self, qc_chain: &Vec<QuorumCert>) -> (r: Option<LedgerInfo>)
        ensures
            r == commit_decision(chain_view(qc_chain@)),
    {
        let n = qc_chain.len();
        if n < 3 {
            return None;
        }
        let c0 = &qc_chain[n - 3];
        let c1 = &qc_chain[n - 2];
        let c2 = &qc_chain[n - 1];
        assert(chain_view(qc_chain@)[n - 3] == c0@);
        assert(chain_view(qc_chain@)[n - 2] == c1@);
        assert(chain_view(qc_chain@)[n - 1] == c2@);
        let r0 = c0.data.block.round;
        let r1 = c1.data.block.round;
        let r2 = c2.data.block.round;
        if c1.data.parent == c0.data.block && c2.data.parent == c1.data.block && r0 < r1 && r1
            - r0 == 1 && r1 < r2 && r2 - r1 == 1 {
            Some(LedgerInfo { block: c0.data.block, state_id: c0.data.state_id })
        } else {
            None
        }
    }
}

} // verus!
