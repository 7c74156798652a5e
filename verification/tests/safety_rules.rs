use chained_bft::account_address::AccountAddress;
use chained_bft::consensus::block::{Block, ExecutedBlock};
use chained_bft::consensus::common::{BlockInfo, Round, Signature};
use chained_bft::consensus::safety_rules::{
    PersistentLivenessData, PersistentStorage, RecoveryData, SafetyError, SafetyRules,
    StorageError, VoteProposal,
};
use chained_bft::consensus::timeout::TimeoutCertificate;
use chained_bft::consensus::vote::{LedgerInfo, QuorumCert, VoteData};
use chained_bft::hash::HashValue;
use std::sync::Arc;

type TestPayload = Vec<usize>;

/// Storage that remembers what was written last, and fails on demand.
struct MockStorage {
    fail: bool,
    writes: Vec<(Round, Round)>,
}

impl MockStorage {
    fn new() -> Self {
        MockStorage { fail: false, writes: vec![] }
    }
}

impl PersistentStorage<TestPayload> for MockStorage {
    fn save_tree(
        &mut self,
        _blocks: &Vec<Arc<ExecutedBlock<TestPayload>>>,
        _quorum_certs: &Vec<QuorumCert>,
    ) -> Result<(), StorageError> {
        Ok(())
    }

    fn save_consensus_state(
        &mut self,
        last_voted_round: Round,
        highest_qc: &QuorumCert,
        _highest_timeout_cert: &Option<TimeoutCertificate>,
    ) -> Result<(), StorageError> {
        if self.fail {
            return Err(StorageError { code: 5 });
        }
        self.writes.push((last_voted_round, highest_qc.round()));
        Ok(())
    }

    fn load(&self) -> Result<RecoveryData<TestPayload>, StorageError> {
        Err(StorageError { code: 1 })
    }
}

fn id_of(tag: u8) -> HashValue {
    HashValue::from_sha3(&[tag])
}

fn info(tag: u8, round: u64) -> BlockInfo {
    BlockInfo::new(id_of(tag), round)
}

fn state_of(tag: u8) -> HashValue {
    HashValue::from_sha3(&[b's', tag])
}

/// A certificate for the block `tag` of the round `round`, whose parent is
/// the block `parent_tag` of the round `parent_round`.
fn qc(tag: u8, round: u64, parent_tag: u8, parent_round: u64) -> QuorumCert {
    QuorumCert::new(
        VoteData {
            block: info(tag, round),
            state_id: state_of(tag),
            parent: info(parent_tag, parent_round),
            commit: None,
        },
        vec![],
    )
}

fn block(tag: u8, round: u64, parent_tag: u8) -> Block<TestPayload> {
    Block {
        id: id_of(tag),
        round,
        payload: vec![],
        timestamp_usecs: round,
        parent_id: id_of(parent_tag),
        author: AccountAddress::new([1; 32]),
        signature: Signature::new([0; 64]),
    }
}

fn fresh_rules() -> SafetyRules {
    SafetyRules::new(PersistentLivenessData {
        last_voted_round: 0,
        highest_qc: QuorumCert::certificate_for_genesis(id_of(0), state_of(0)),
        highest_timeout_cert: None,
    })
}

#[test]
fn first_vote_is_allowed_and_recorded() {
    let mut rules = fresh_rules();
    let mut storage = MockStorage::new();
    let genesis_qc = QuorumCert::certificate_for_genesis(id_of(0), state_of(0));
    let proposal = rules.should_vote(&mut storage, &block(1, 1, 0), &genesis_qc).unwrap();
    assert_eq!(
        proposal,
        VoteProposal { block: info(1, 1), parent: info(0, 0), potential_commit: None }
    );
    assert_eq!(rules.last_voted_round(), 1);
    assert_eq!(rules.locked_qc().round(), 0);
    // The new state was written before the vote was handed out.
    assert_eq!(storage.writes, vec![(1, 0)]);
}

#[test]
fn no_double_vote_in_a_round() {
    let mut rules = fresh_rules();
    let mut storage = MockStorage::new();
    let genesis_qc = QuorumCert::certificate_for_genesis(id_of(0), state_of(0));
    assert!(rules.should_vote(&mut storage, &block(1, 5, 0), &genesis_qc).is_ok());
    // Another block of the same round.
    assert_eq!(
        rules.should_vote(&mut storage, &block(2, 5, 0), &genesis_qc),
        Err(SafetyError::StaleRound)
    );
    // The same block again, and a block of an earlier round.
    assert_eq!(
        rules.should_vote(&mut storage, &block(1, 5, 0), &genesis_qc),
        Err(SafetyError::StaleRound)
    );
    assert_eq!(
        rules.should_vote(&mut storage, &block(3, 4, 0), &genesis_qc),
        Err(SafetyError::StaleRound)
    );
    assert_eq!(storage.writes.len(), 1);

    // After a crash the state comes back from what was written.
    let persisted = rules.consensus_state();
    assert_eq!(persisted.last_voted_round, 5);
    let mut reloaded = SafetyRules::new(persisted);
    assert_eq!(
        reloaded.should_vote(&mut storage, &block(2, 5, 0), &genesis_qc),
        Err(SafetyError::StaleRound)
    );
    assert_eq!(reloaded.consider(&block(2, 5, 0), &genesis_qc), Err(SafetyError::StaleRound));
    assert!(reloaded.should_vote(&mut storage, &block(4, 6, 0), &genesis_qc).is_ok());
}

#[test]
fn a_failed_write_aborts_the_vote() {
    let mut rules = fresh_rules();
    let mut storage = MockStorage::new();
    storage.fail = true;
    let genesis_qc = QuorumCert::certificate_for_genesis(id_of(0), state_of(0));
    assert_eq!(
        rules.should_vote(&mut storage, &block(1, 1, 0), &genesis_qc),
        Err(SafetyError::StorageFailure)
    );
    assert_eq!(rules.last_voted_round(), 0);
    // Once storage works again the vote can be given.
    storage.fail = false;
    assert!(rules.should_vote(&mut storage, &block(1, 1, 0), &genesis_qc).is_ok());
    assert_eq!(rules.last_voted_round(), 1);
}

#[test]
fn conclude_vote_follows_the_write() {
    let mut rules = fresh_rules();
    let proposal = VoteProposal { block: info(7, 7), parent: info(6, 6), potential_commit: None };
    assert_eq!(
        rules.conclude_vote(proposal, &qc(6, 6, 5, 5), Err(StorageError { code: 2 })),
        Err(SafetyError::StorageFailure)
    );
    assert_eq!(rules.last_voted_round(), 0);
    assert_eq!(rules.locked_qc().round(), 0);
    assert_eq!(rules.conclude_vote(proposal, &qc(6, 6, 5, 5), Ok(())), Ok(proposal));
    assert_eq!(rules.last_voted_round(), 7);
    assert_eq!(rules.locked_qc().round(), 6);
}

#[test]
fn proposal_must_extend_its_certificate() {
    let rules = fresh_rules();
    // The certificate is for another block than the parent.
    assert_eq!(rules.consider(&block(2, 2, 1), &qc(9, 1, 0, 0)), Err(SafetyError::InvalidProposal));
    // The round is not above the parent's.
    assert_eq!(rules.consider(&block(2, 1, 1), &qc(1, 1, 0, 0)), Err(SafetyError::InvalidProposal));
}

#[test]
fn lock_rule_and_its_exception() {
    let mut rules = fresh_rules();
    let mut storage = MockStorage::new();
    // Vote for a block of round 6 that carries a certificate of round 5: the lock goes to it.
    assert!(rules.should_vote(&mut storage, &block(6, 6, 5), &qc(5, 5, 4, 4)).is_ok());
    assert_eq!(rules.locked_qc().certified_block(), info(5, 5));
    // A block that extends the locked block is fine.
    assert!(rules.consider(&block(7, 7, 5), &qc(5, 5, 4, 4)).is_ok());
    // A block on another branch with a lower certificate is refused.
    assert_eq!(rules.consider(&block(8, 8, 3), &qc(3, 3, 2, 2)), Err(SafetyError::LockViolation));
    // So is one with a certificate for another block of the lock's round.
    assert_eq!(rules.consider(&block(8, 8, 55), &qc(55, 5, 4, 4)), Err(SafetyError::LockViolation));
    // A higher certificate shows that the network has moved on.
    assert!(rules.consider(&block(9, 9, 77), &qc(77, 7, 3, 3)).is_ok());
    // The round is looked at before the lock.
    assert_eq!(rules.consider(&block(8, 6, 3), &qc(3, 3, 2, 2)), Err(SafetyError::StaleRound));
}

#[test]
fn observing_certificates_moves_the_lock_up_only() {
    let mut rules = fresh_rules();
    rules.observe_qc(&qc(4, 4, 3, 3));
    assert_eq!(rules.locked_qc().round(), 4);
    rules.observe_qc(&qc(2, 2, 1, 1));
    assert_eq!(rules.locked_qc().round(), 4);
    assert_eq!(rules.locked_qc().parent_block(), info(3, 3));
    rules.observe_timeout_cert(&TimeoutCertificate { round: 3, signatures: vec![] });
    rules.observe_timeout_cert(&TimeoutCertificate { round: 2, signatures: vec![] });
    assert_eq!(rules.consensus_state().highest_timeout_cert.unwrap().round, 3);
    assert_eq!(rules.last_voted_round(), 0);
}

#[test]
fn vote_names_the_grandparent_when_rounds_are_contiguous() {
    let rules = fresh_rules();
    let contiguous = rules.consider(&block(7, 7, 6), &qc(6, 6, 5, 5)).unwrap();
    assert_eq!(contiguous.potential_commit, Some(info(5, 5)));
    assert_eq!(contiguous.parent, info(6, 6));
    let gap_below = rules.consider(&block(7, 7, 6), &qc(6, 6, 4, 4)).unwrap();
    assert_eq!(gap_below.potential_commit, None);
    let gap_above = rules.consider(&block(8, 8, 6), &qc(6, 6, 5, 5)).unwrap();
    assert_eq!(gap_above.potential_commit, None);
}

#[test]
fn commit_rule_wants_a_contiguous_three_chain() {
    let rules = fresh_rules();
    // Certificates of the rounds 5, 6, 7: the block of round 5 commits.
    let chain = vec![qc(5, 5, 4, 4), qc(6, 6, 5, 5), qc(7, 7, 6, 6)];
    assert_eq!(
        rules.should_commit(&chain),
        Some(LedgerInfo { block: info(5, 5), state_id: state_of(5) })
    );
    // A gap: the rounds 5, 6, 9.
    let gap = vec![qc(5, 5, 4, 4), qc(6, 6, 5, 5), qc(9, 9, 6, 6)];
    assert_eq!(rules.should_commit(&gap), None);
    let gap_low = vec![qc(4, 4, 3, 3), qc(6, 6, 4, 4), qc(7, 7, 6, 6)];
    assert_eq!(rules.should_commit(&gap_low), None);
    // Contiguous rounds that are not linked.
    let unlinked = vec![qc(5, 5, 4, 4), qc(6, 6, 55, 5), qc(7, 7, 6, 6)];
    assert_eq!(rules.should_commit(&unlinked), None);
    // Too short a chain.
    assert_eq!(rules.should_commit(&vec![qc(6, 6, 5, 5), qc(7, 7, 6, 6)]), None);
    assert_eq!(rules.should_commit(&vec![]), None);
    // Of a longer chain the last three count.
    let longer = vec![qc(3, 3, 2, 2), qc(5, 5, 4, 4), qc(6, 6, 5, 5), qc(7, 7, 6, 6)];
    assert_eq!(rules.should_commit(&longer).unwrap().block, info(5, 5));
    // The last round there is leaves no room above it.
    let top = u64::MAX;
    let at_top = vec![qc(5, top - 2, 4, 4), qc(6, top - 1, 5, top - 2), qc(7, top, 6, top - 1)];
    assert_eq!(rules.should_commit(&at_top).unwrap().block, info(5, top - 2));
}

#[test]
fn a_committed_branch_shuts_the_other_out() {
    // A common root R of round 1; A2 and A3 on one branch, B2 of round 2 on the other.
    let mut rules = fresh_rules();
    let mut storage = MockStorage::new();
    let (r, a2, a3, b2) = (1, 2, 3, 12);
    let qc_r = qc(r, 1, 0, 0);
    let qc_a2 = qc(a2, 2, r, 1);
    let qc_a3 = qc(a3, 3, a2, 2);
    let qc_b2 = qc(b2, 2, r, 1);
    // The replica votes along branch A; the certificate for A3 completes the chain 1, 2, 3.
    assert!(rules.should_vote(&mut storage, &block(a2, 2, r), &qc_r).is_ok());
    assert!(rules.should_vote(&mut storage, &block(a3, 3, a2), &qc_a2).is_ok());
    rules.observe_qc(&qc_a3);
    let committed = rules.should_commit(&vec![qc_r.clone(), qc_a2, qc_a3]).unwrap();
    assert_eq!(committed.block, info(r, 1));
    // No chain through B2 commits anything.
    assert_eq!(rules.should_commit(&vec![qc_r.clone(), qc_b2.clone()]), None);
    let qc_b4 = qc(14, 4, b2, 2);
    assert_eq!(rules.should_commit(&vec![qc_r, qc_b2.clone(), qc_b4]), None);
    // And the replica votes for nothing on branch B: not for B2 itself, not for a block on it.
    assert_eq!(rules.consider(&block(b2, 2, r), &qc(r, 1, 0, 0)), Err(SafetyError::StaleRound));
    assert_eq!(rules.consider(&block(14, 4, b2), &qc_b2), Err(SafetyError::LockViolation));
    assert_eq!(
        rules.should_vote(&mut storage, &block(14, 4, b2), &qc_b2),
        Err(SafetyError::LockViolation)
    );
    assert_eq!(rules.last_voted_round(), 3);
}

#[test]
fn what_is_written_is_the_state_after_the_vote() {
    let mut rules = fresh_rules();
    rules.observe_qc(&qc(3, 3, 2, 2));
    rules.observe_timeout_cert(&TimeoutCertificate { round: 2, signatures: vec![] });
    // A higher certificate moves the lock in the record.
    let record = rules.state_to_write(&block(6, 6, 5), &qc(5, 5, 4, 4));
    assert_eq!(record.last_voted_round, 6);
    assert_eq!(record.highest_qc.certified_block(), info(5, 5));
    assert_eq!(record.highest_timeout_cert.unwrap().round, 2);
    // A lower one leaves it.
    let record = rules.state_to_write(&block(6, 6, 2), &qc(2, 2, 1, 1));
    assert_eq!(record.last_voted_round, 6);
    assert_eq!(record.highest_qc.certified_block(), info(3, 3));
    // Making the record changes nothing.
    assert_eq!(rules.last_voted_round(), 0);
    // What storage is handed is that record.
    let mut storage = MockStorage::new();
    assert!(rules.should_vote(&mut storage, &block(6, 6, 5), &qc(5, 5, 4, 4)).is_ok());
    assert_eq!(storage.writes, vec![(6, 5)]);
    assert!(rules.should_vote(&mut storage, &block(7, 7, 5), &qc(5, 5, 4, 4)).is_ok());
    assert_eq!(storage.writes, vec![(6, 5), (7, 5)]);
    let reloaded = SafetyRules::new(rules.consensus_state());
    assert_eq!(reloaded.last_voted_round(), 7);
    assert_eq!(reloaded.locked_qc().round(), 5);
}
