use chained_bft::account_address::AccountAddress;
use chained_bft::consensus::block::{
    block_id as name_of_block, proposal_signing_message, Block, ExecutedBlock,
    StateComputeResult,
};
use chained_bft::consensus::block_tree::ProposalFault;
use chained_bft::consensus::common::{BlockInfo, Round};
use chained_bft::consensus::event_processor::{
    BlockWithCert, EventProcessor, FatalFault, OutboundMessage, ProcessOutcome, Rejection,
    RoundState,
};
use chained_bft::consensus::safety_rules::{
    PersistentLivenessData, PersistentStorage, RecoveryData, SafetyError, StorageError,
};
use chained_bft::consensus::signing::ValidatorSigner;
use chained_bft::consensus::state_replication::{
    ExecutionError, ProposerElection, RotatingProposer, StateComputer,
};
use chained_bft::consensus::sync_info::SyncInfo;
use chained_bft::consensus::timeout::{timeout_signing_message, Timeout, TimeoutCertificate};
use chained_bft::consensus::validator_verifier::{ValidatorInfo, ValidatorVerifier, VerifyError};
use chained_bft::consensus::vote::{LedgerInfo, QuorumCert, Vote, VoteData};
use chained_bft::hash::HashValue;
use std::sync::atomic::{AtomicBool, Ordering};
use std::sync::{Arc, Mutex};

type TestPayload = Vec<u64>;

/// A state computer that hashes, fails to execute a payload that holds
/// 666, and keeps a list of what it was told to commit.
struct MockComputer {
    committed: Arc<Mutex<Vec<HashValue>>>,
    refuse_commit: bool,
}

impl StateComputer<TestPayload> for MockComputer {
    fn execute(&self, parent_state_id: &HashValue, payload: &TestPayload) -> StateComputeResult {
        if payload.contains(&666) {
            return StateComputeResult::Failed;
        }
        let mut bytes = parent_state_id.to_vec();
        for item in payload {
            bytes.extend_from_slice(&item.to_le_bytes());
        }
        StateComputeResult::Executed { state_id: HashValue::from_sha3(&bytes) }
    }

    fn commit(
        &mut self,
        blocks: &Vec<Arc<ExecutedBlock<TestPayload>>>,
        _ledger_info: &LedgerInfo,
    ) -> Result<(), ExecutionError> {
        if self.refuse_commit {
            return Err(ExecutionError { code: 9 });
        }
        let mut committed = self.committed.lock().unwrap();
        for block in blocks {
            committed.push(block.id());
        }
        Ok(())
    }
}

/// Storage that keeps the rounds and the blocks that were written and
/// fails on demand.
struct MockStorage {
    fail: Arc<AtomicBool>,
    voted_rounds: Arc<Mutex<Vec<Round>>>,
    saved_blocks: Arc<Mutex<Vec<HashValue>>>,
}

impl PersistentStorage<TestPayload> for MockStorage {
    fn save_tree(
        &mut self,
        blocks: &Vec<Arc<ExecutedBlock<TestPayload>>>,
        quorum_certs: &Vec<QuorumCert>,
    ) -> Result<(), StorageError> {
        if self.fail.load(Ordering::SeqCst) {
            return Err(StorageError { code: 4 });
        }
        assert_eq!(blocks.len(), quorum_certs.len());
        let mut saved = self.saved_blocks.lock().unwrap();
        for (block, qc) in blocks.iter().zip(quorum_certs.iter()) {
            assert_eq!(block.parent_id(), qc.certified_block().id);
            saved.push(block.id());
        }
        Ok(())
    }

    fn save_consensus_state(
        &mut self,
        last_voted_round: Round,
        _highest_qc: &QuorumCert,
        _highest_timeout_cert: &Option<TimeoutCertificate>,
    ) -> Result<(), StorageError> {
        if self.fail.load(Ordering::SeqCst) {
            return Err(StorageError { code: 3 });
        }
        self.voted_rounds.lock().unwrap().push(last_voted_round);
        Ok(())
    }

    fn load(&self) -> Result<RecoveryData<TestPayload>, StorageError> {
        Err(StorageError { code: 1 })
    }
}

type Processor = EventProcessor<TestPayload, MockComputer, MockStorage, RotatingProposer>;

struct Replica {
    processor: Processor,
    committed: Arc<Mutex<Vec<HashValue>>>,
    storage_fails: Arc<AtomicBool>,
    voted_rounds: Arc<Mutex<Vec<Round>>>,
    saved_blocks: Arc<Mutex<Vec<HashValue>>>,
}

const REPLICAS: u8 = 4;

fn author(index: u8) -> AccountAddress {
    AccountAddress::new([index; 32])
}

fn signer(index: u8) -> ValidatorSigner {
    ValidatorSigner::new(author(index), [index + 50; 32])
}

fn validators() -> Vec<ValidatorInfo> {
    (0..REPLICAS)
        .map(|i| ValidatorInfo {
            author: author(i),
            public_key: signer(i).public_key(),
            voting_power: 1,
        })
        .collect()
}

/// Who leads a round: the validators take turns.
fn leader_of(round: Round) -> u8 {
    (round % REPLICAS as u64) as u8
}

fn genesis_id() -> HashValue {
    HashValue::from_sha3(b"genesis")
}

fn genesis_block() -> Block<TestPayload> {
    Block {
        id: genesis_id(),
        round: 0,
        payload: vec![],
        timestamp_usecs: 0,
        parent_id: genesis_id(),
        author: author(0),
        signature: signer(0).sign(&proposal_signing_message(&genesis_id())),
    }
}

fn genesis_qc() -> QuorumCert {
    QuorumCert::certificate_for_genesis(genesis_id(), HashValue::zero())
}

fn new_replica(index: u8, refuse_commit: bool) -> Replica {
    let committed = Arc::new(Mutex::new(vec![]));
    let storage_fails = Arc::new(AtomicBool::new(false));
    let voted_rounds = Arc::new(Mutex::new(vec![]));
    let saved_blocks = Arc::new(Mutex::new(vec![]));
    let processor = EventProcessor::new(
        ExecutedBlock::new(
            genesis_block(),
            StateComputeResult::Executed { state_id: HashValue::zero() },
        ),
        genesis_qc(),
        genesis_qc(),
        PersistentLivenessData {
            last_voted_round: 0,
            highest_qc: genesis_qc(),
            highest_timeout_cert: None,
        },
        ValidatorVerifier::new(validators(), 3).unwrap(),
        signer(index),
        MockComputer { committed: committed.clone(), refuse_commit },
        MockStorage {
            fail: storage_fails.clone(),
            voted_rounds: voted_rounds.clone(),
            saved_blocks: saved_blocks.clone(),
        },
        RotatingProposer::from_validators(&validators()).unwrap(),
        10,
    );
    Replica { processor, committed, storage_fails, voted_rounds, saved_blocks }
}

fn new_network() -> Vec<Replica> {
    (0..REPLICAS).map(|i| new_replica(i, false)).collect()
}

fn block_id(round: Round, payload: &TestPayload, parent: &HashValue) -> HashValue {
    let mut bytes = parent.to_vec();
    bytes.extend_from_slice(&round.to_le_bytes());
    for item in payload {
        bytes.extend_from_slice(&item.to_le_bytes());
    }
    HashValue::from_sha3(&bytes)
}

fn copy_block(block: &Block<TestPayload>) -> Block<TestPayload> {
    Block {
        id: block.id,
        round: block.round,
        payload: block.payload.clone(),
        timestamp_usecs: block.timestamp_usecs,
        parent_id: block.parent_id,
        author: block.author,
        signature: block.signature,
    }
}

/// A proposal as it travels.
struct Proposal {
    block: Block<TestPayload>,
    qc: QuorumCert,
    sync_info: SyncInfo,
}

impl Proposal {
    fn deliver(&self, replica: &mut Replica) -> ProcessOutcome<TestPayload> {
        replica.processor.process_proposal(
            copy_block(&self.block),
            self.qc.clone(),
            self.sync_info.clone(),
        )
    }
}

/// Lets the leader of the round it is in propose.
fn propose(replica: &mut Replica, payload: TestPayload) -> Proposal {
    let round = replica.processor.current_round();
    let parent = replica.processor.quorum_cert_engine().highest_qc().certified_block().id;
    let id = block_id(round, &payload, &parent);
    let mut out = replica.processor.generate_proposal(id, payload, round * 1000);
    assert_eq!(out.rejection, None);
    assert_eq!(out.fatal, None);
    assert_eq!(out.messages.len(), 1);
    match out.messages.pop().unwrap() {
        OutboundMessage::Proposal { block, qc, sync_info } => {
            Proposal { block: copy_block(&block.block), qc, sync_info }
        }
        other => panic!("no proposal: {:?}", other),
    }
}

fn vote_of(mut out: ProcessOutcome<TestPayload>) -> (AccountAddress, Vote) {
    assert_eq!(out.rejection, None);
    assert_eq!(out.fatal, None);
    assert_eq!(out.messages.len(), 1);
    match out.messages.pop().unwrap() {
        OutboundMessage::Vote { to, vote, .. } => (to, vote),
        other => panic!("no vote: {:?}", other),
    }
}

/// Runs the round that the network is in: its leader proposes, everybody
/// votes, and the leader of the next round takes the votes in. Returns the
/// proposal and what the last vote did at the next leader.
fn run_round(
    network: &mut Vec<Replica>,
    round: Round,
    payload: TestPayload,
) -> (Proposal, ProcessOutcome<TestPayload>) {
    let leader = leader_of(round) as usize;
    assert_eq!(network[leader].processor.current_round(), round);
    let proposal = propose(&mut network[leader], payload);
    assert_eq!(proposal.block.round, round);
    assert_eq!(proposal.block.author, author(leader as u8));
    let mut votes = vec![];
    for replica in network.iter_mut() {
        let (to, vote) = vote_of(proposal.deliver(replica));
        assert_eq!(to, author(leader_of(round + 1)));
        assert_eq!(vote.data.block, proposal.block.info());
        assert_eq!(replica.processor.state(), RoundState::AwaitingQC);
        votes.push(vote);
    }
    let next = leader_of(round + 1) as usize;
    let mut last = None;
    for (count, vote) in votes.iter().enumerate() {
        let out = network[next].processor.process_vote(vote);
        assert_eq!(out.rejection, None);
        if count < 2 {
            assert!(out.commit.is_none() && out.proposal_due.is_none());
        }
        if count == 2 {
            assert_eq!(out.proposal_due, Some(round + 1));
            assert_eq!(network[next].processor.state(), RoundState::Idle);
            last = Some(out);
        }
    }
    (proposal, last.unwrap())
}

fn committed_ids(out: &ProcessOutcome<TestPayload>) -> Vec<HashValue> {
    match &out.commit {
        Some(notification) => notification.committed_blocks.iter().map(|b| b.id()).collect(),
        None => vec![],
    }
}

#[test]
fn a_new_replica_stands_idle_in_round_one() {
    let replica = new_replica(2, false);
    assert_eq!(replica.processor.current_round(), 1);
    assert_eq!(replica.processor.state(), RoundState::Idle);
    assert!(!replica.processor.is_halted());
    assert_eq!(replica.processor.block_tree().len(), 1);
    assert_eq!(replica.processor.block_tree().root().id(), genesis_id());
    assert_eq!(replica.processor.safety_rules().last_voted_round(), 0);
    let info = replica.processor.sync_info();
    assert_eq!(info.highest_round(), 0);
    assert_eq!(info.highest_commit_cert.round(), 0);
    assert!(info.highest_timeout_cert.is_none());
    let election = RotatingProposer::from_validators(&validators()).unwrap();
    assert_eq!(election.leader_for_round(0), author(0));
    assert_eq!(election.leader_for_round(6), author(2));
    assert!(RotatingProposer::new(vec![]).is_none());
    assert_eq!(RotatingProposer::new(vec![author(7)]).unwrap().leader_for_round(5), author(7));
}

#[test]
fn three_chain_commits_the_first_block() {
    let mut network = new_network();
    let (first, out1) = run_round(&mut network, 1, vec![1]);
    assert!(out1.commit.is_none());
    let (second, out2) = run_round(&mut network, 2, vec![2]);
    assert!(out2.commit.is_none());
    assert_eq!(second.qc.certified_block(), first.block.info());
    // The certificate for the third block completes the chain of the rounds 1, 2, 3.
    let (third, out3) = run_round(&mut network, 3, vec![3]);
    assert_eq!(committed_ids(&out3), vec![first.block.id]);
    let notification = out3.commit.unwrap();
    assert_eq!(notification.ledger_info.block, first.block.info());
    assert_eq!(
        notification.committed_blocks[0].compute_result,
        StateComputeResult::Executed { state_id: notification.ledger_info.state_id }
    );
    // Only the leader of round 4 has seen that certificate so far.
    let next = leader_of(4) as usize;
    assert_eq!(*network[next].committed.lock().unwrap(), vec![first.block.id]);
    assert_eq!(network[next].processor.block_tree().root().id(), first.block.id);
    assert!(network[1].committed.lock().unwrap().is_empty());
    // The others commit when the proposal of round 4 brings it.
    let leader = leader_of(4) as usize;
    let fourth = propose(&mut network[leader], vec![4]);
    assert_eq!(fourth.qc.certified_block(), third.block.info());
    for (index, replica) in network.iter_mut().enumerate() {
        let out = fourth.deliver(replica);
        if index == leader {
            assert!(out.commit.is_none());
        } else {
            assert_eq!(committed_ids(&out), vec![first.block.id]);
        }
        // The vote for round 4 says that its certificate would commit the block of round 2.
        let (_, vote) = vote_of(out);
        assert_eq!(vote.data.commit.unwrap().block, second.block.info());
        assert_eq!(*replica.committed.lock().unwrap(), vec![first.block.id]);
        assert_eq!(replica.processor.block_tree().root().id(), first.block.id);
        assert!(!replica.processor.block_tree().block_exists(&genesis_id()));
        assert_eq!(*replica.voted_rounds.lock().unwrap(), vec![1, 2, 3, 4]);
    }
}

#[test]
fn commits_follow_one_another() {
    let mut network = new_network();
    let mut proposed = vec![];
    for round in 1..=8 {
        let (proposal, out) = run_round(&mut network, round, vec![round]);
        proposed.push(proposal.block.id);
        if round >= 3 {
            assert_eq!(committed_ids(&out), vec![proposed[round as usize - 3]]);
        } else {
            assert!(out.commit.is_none());
        }
    }
    // Replica 0 led the rounds 4 and 8 and saw every certificate but those for the rounds 4 and
    // 8 only when it voted in 5 and... it has committed all that any other has.
    let longest: Vec<HashValue> = proposed[..6].to_vec();
    for replica in &network {
        let committed = replica.committed.lock().unwrap().clone();
        assert!(committed.len() >= 5);
        assert_eq!(committed[..], longest[..committed.len()]);
        assert_eq!(replica.processor.safety_rules().last_voted_round(), 8);
    }
    assert_eq!(*network[leader_of(9) as usize].committed.lock().unwrap(), longest);
    // The votes of the committed rounds are gone, so a late vote is stale.
    let late = signer(0);
    let data = VoteData {
        block: BlockInfo::new(proposed[0], 1),
        state_id: HashValue::zero(),
        parent: BlockInfo::new(genesis_id(), 0),
        commit: None,
    };
    let vote = Vote { data, author: late.author(), signature: late.sign(&data.signing_message()) };
    let out = network[leader_of(9) as usize].processor.process_vote(&vote);
    assert_eq!(out.rejection, Some(Rejection::Stale));
}

#[test]
fn a_gap_in_the_rounds_commits_nothing() {
    let mut network = new_network();
    run_round(&mut network, 1, vec![1]);
    run_round(&mut network, 2, vec![2]);
    // Round 3 runs out at everybody: no block of round 3.
    let mut timeouts = vec![];
    for replica in network.iter_mut() {
        // Everybody has voted in round 2; only its next leader is in round 3 already.
        let round = replica.processor.current_round();
        if round == 2 {
            let out = replica.processor.process_timeout(2);
            assert_eq!(out.messages.len(), 1);
        }
    }
    for replica in network.iter_mut() {
        if replica.processor.current_round() == 3 {
            let mut out = replica.processor.process_timeout(3);
            match out.messages.pop().unwrap() {
                OutboundMessage::Timeout { timeout, .. } => timeouts.push(timeout),
                other => panic!("no timeout: {:?}", other),
            }
        }
    }
    assert_eq!(timeouts.len(), 1);
    // The others learn of the certificate of round 2 and time out in round 3 as well.
    let sync = network[leader_of(3) as usize].processor.sync_info();
    for index in 0..REPLICAS as usize {
        if index == leader_of(3) as usize {
            continue;
        }
        let out =
            network[index].processor.process_sync_info(author(leader_of(3)), sync.clone(), vec![]);
        assert_eq!(out.rejection, None);
        assert_eq!(network[index].processor.current_round(), 3);
        let mut out = network[index].processor.process_timeout(3);
        match out.messages.pop().unwrap() {
            OutboundMessage::Timeout { timeout, .. } => timeouts.push(timeout),
            other => panic!("no timeout: {:?}", other),
        }
    }
    // The leader of round 4 gathers the timeouts and moves on.
    let leader = leader_of(4) as usize;
    for timeout in &timeouts {
        if timeout.author != author(leader as u8) {
            network[leader].processor.process_remote_timeout(timeout);
        }
    }
    assert_eq!(network[leader].processor.current_round(), 4);
    assert_eq!(network[leader].processor.state(), RoundState::Idle);
    // Its block of round 4 extends the block of round 2. The rounds 1, 2, 4 leave a gap.
    let fourth = propose(&mut network[leader], vec![4]);
    assert_eq!(fourth.qc.round(), 2);
    let mut votes = vec![];
    for replica in network.iter_mut() {
        let out = fourth.deliver(replica);
        assert!(out.commit.is_none());
        let (_, vote) = vote_of(out);
        assert_eq!(vote.data.commit, None);
        votes.push(vote);
    }
    let next = leader_of(5) as usize;
    for vote in &votes {
        let out = network[next].processor.process_vote(vote);
        assert!(out.commit.is_none());
    }
    assert!(network[next].committed.lock().unwrap().is_empty());
    assert_eq!(network[next].processor.block_tree().root().id(), genesis_id());
}

#[test]
fn proposals_are_checked_before_anything_else() {
    let mut network = new_network();
    let good = propose(&mut network[1], vec![1]);
    let tree_len = network[2].processor.block_tree().len();

    // From a validator that does not lead the round.
    let mut wrong_leader = Proposal {
        block: copy_block(&good.block),
        qc: good.qc.clone(),
        sync_info: good.sync_info.clone(),
    };
    wrong_leader.block.author = author(2);
    wrong_leader.block.signature = signer(2).sign(&proposal_signing_message(&good.block.id));
    assert_eq!(wrong_leader.deliver(&mut network[2]).rejection, Some(Rejection::NotLeader));

    // Signed by somebody else than its author.
    let mut forged = Proposal {
        block: copy_block(&good.block),
        qc: good.qc.clone(),
        sync_info: good.sync_info.clone(),
    };
    forged.block.signature = signer(3).sign(&proposal_signing_message(&good.block.id));
    assert_eq!(forged.deliver(&mut network[2]).rejection, Some(Rejection::InvalidSignature));

    // With a certificate that nobody signed.
    let mut unsigned = Proposal {
        block: copy_block(&good.block),
        qc: good.qc.clone(),
        sync_info: good.sync_info.clone(),
    };
    unsigned.qc = QuorumCert::new(
        VoteData {
            block: BlockInfo::new(HashValue::from_sha3(b"x"), 3),
            state_id: HashValue::zero(),
            parent: BlockInfo::new(genesis_id(), 0),
            commit: None,
        },
        vec![],
    );
    assert_eq!(
        unsigned.deliver(&mut network[2]).rejection,
        Some(Rejection::InvalidCertificate(VerifyError::TooLittleVotingPower))
    );

    // Of the round of the root.
    let mut stale = Proposal {
        block: copy_block(&good.block),
        qc: good.qc.clone(),
        sync_info: good.sync_info.clone(),
    };
    stale.block.round = 0;
    assert_eq!(stale.deliver(&mut network[2]).rejection, Some(Rejection::Stale));
    let mut last = Proposal {
        block: copy_block(&good.block),
        qc: good.qc.clone(),
        sync_info: good.sync_info.clone(),
    };
    last.block.round = u64::MAX;
    assert_eq!(last.deliver(&mut network[2]).rejection, Some(Rejection::RoundOverflow));

    // None of this has changed anything.
    assert_eq!(network[2].processor.block_tree().len(), tree_len);
    assert_eq!(network[2].processor.safety_rules().last_voted_round(), 0);
    assert_eq!(network[2].processor.state(), RoundState::Idle);
    assert!(network[2].voted_rounds.lock().unwrap().is_empty());
    // The proposal as it was made is voted for.
    vote_of(good.deliver(&mut network[2]));
}

#[test]
fn a_replica_votes_once_in_a_round() {
    let mut network = new_network();
    let first = propose(&mut network[1], vec![1]);
    vote_of(first.deliver(&mut network[2]));
    // The leader equivocates: another block of the same round.
    let mut second = Proposal {
        block: copy_block(&first.block),
        qc: first.qc.clone(),
        sync_info: first.sync_info.clone(),
    };
    second.block.payload = vec![11];
    second.block.id = block_id(1, &second.block.payload, &genesis_id());
    second.block.signature = signer(1).sign(&proposal_signing_message(&second.block.id));
    let out = second.deliver(&mut network[2]);
    assert_eq!(out.rejection, Some(Rejection::Safety(SafetyError::StaleRound)));
    assert!(out.messages.is_empty());
    // The same block again is refused as well.
    let again = first.deliver(&mut network[2]);
    assert_eq!(again.rejection, Some(Rejection::Safety(SafetyError::StaleRound)));
    assert_eq!(*network[2].voted_rounds.lock().unwrap(), vec![1]);
    // Both blocks are in the tree; the second was executed but not voted for.
    assert_eq!(network[2].processor.block_tree().len(), 3);
    // A replica that has not voted yet votes for the one that it sees first.
    let (_, vote) = vote_of(second.deliver(&mut network[3]));
    assert_eq!(vote.data.block.id, second.block.id);
    // A block under the name of the first with another round conflicts with the tree.
    let mut twisted = Proposal {
        block: copy_block(&first.block),
        qc: first.qc.clone(),
        sync_info: first.sync_info.clone(),
    };
    twisted.block.round = 5;
    let out = twisted.deliver(&mut network[2]);
    assert_eq!(out.rejection, Some(Rejection::ConflictingBlock));
}

#[test]
fn a_vote_that_cannot_be_made_durable_is_not_sent() {
    let mut network = new_network();
    let proposal = propose(&mut network[1], vec![1]);
    network[2].storage_fails.store(true, Ordering::SeqCst);
    let out = proposal.deliver(&mut network[2]);
    assert_eq!(out.rejection, Some(Rejection::Safety(SafetyError::StorageFailure)));
    assert!(out.messages.is_empty());
    assert_eq!(network[2].processor.safety_rules().last_voted_round(), 0);
    assert!(!network[2].processor.is_halted());
    assert!(network[2].saved_blocks.lock().unwrap().is_empty());
    // Once storage works again the replica votes.
    network[2].storage_fails.store(false, Ordering::SeqCst);
    vote_of(proposal.deliver(&mut network[2]));
    assert_eq!(network[2].processor.safety_rules().last_voted_round(), 1);
    // A leader whose storage fails sends no proposal.
    network[2].storage_fails.store(true, Ordering::SeqCst);
    let votes: Vec<Vote> = [0usize, 1, 3]
        .iter()
        .map(|i| vote_of(proposal.deliver(&mut network[*i])).1)
        .collect();
    for vote in &votes {
        network[2].processor.process_vote(vote);
    }
    assert_eq!(network[2].processor.current_round(), 2);
    let id = block_id(2, &vec![2], &proposal.block.id);
    let out = network[2].processor.generate_proposal(id, vec![2], 0);
    assert_eq!(out.rejection, Some(Rejection::Safety(SafetyError::StorageFailure)));
    assert!(out.messages.is_empty());
}

#[test]
fn what_the_tree_takes_is_handed_to_storage() {
    let mut network = new_network();
    let (first, _) = run_round(&mut network, 1, vec![1]);
    let (second, _) = run_round(&mut network, 2, vec![2]);
    for replica in &network {
        assert_eq!(*replica.saved_blocks.lock().unwrap(), vec![first.block.id, second.block.id]);
    }
}

#[test]
fn failed_execution_stops_the_replica() {
    let mut network = new_network();
    let leader = &mut network[1];
    let id = block_id(1, &vec![666], &genesis_id());
    let out = leader.processor.generate_proposal(id, vec![666], 0);
    assert_eq!(out.fatal, Some(FatalFault::ExecutionFailed));
    assert!(out.messages.is_empty());
    assert!(leader.processor.is_halted());
    // From now on it refuses everything.
    assert_eq!(leader.processor.process_timeout(1).rejection, Some(Rejection::Halted));
    assert_eq!(leader.processor.generate_proposal(id, vec![1], 0).rejection, Some(Rejection::Halted));
    let data = VoteData {
        block: BlockInfo::new(id, 1),
        state_id: HashValue::zero(),
        parent: BlockInfo::new(genesis_id(), 0),
        commit: None,
    };
    let vote = Vote { data, author: author(0), signature: signer(0).sign(&data.signing_message()) };
    assert_eq!(leader.processor.process_vote(&vote).rejection, Some(Rejection::Halted));

    // A replica that receives such a block stops when it is about to vote for it.
    let block = Block {
        id,
        round: 1,
        payload: vec![666],
        timestamp_usecs: 0,
        parent_id: genesis_id(),
        author: author(1),
        signature: signer(1).sign(&proposal_signing_message(&id)),
    };
    let sync = network[2].processor.sync_info();
    let out = network[2].processor.process_proposal(block, genesis_qc(), sync);
    assert_eq!(out.fatal, Some(FatalFault::ExecutionFailed));
    assert!(out.messages.is_empty());
    assert!(network[2].processor.is_halted());
    assert_eq!(network[2].processor.safety_rules().last_voted_round(), 0);
}

#[test]
fn a_state_computer_that_cannot_commit_stops_the_replica() {
    let mut network = new_network();
    network[0] = new_replica(0, true);
    run_round(&mut network, 1, vec![1]);
    run_round(&mut network, 2, vec![2]);
    // Replica 0 leads round 4 and takes the votes of round 3 in.
    let proposal = propose(&mut network[3], vec![3]);
    let votes: Vec<Vote> =
        network.iter_mut().map(|replica| vote_of(proposal.deliver(replica)).1).collect();
    assert!(network[0].processor.process_vote(&votes[0]).fatal.is_none());
    assert!(network[0].processor.process_vote(&votes[1]).fatal.is_none());
    let out = network[0].processor.process_vote(&votes[2]);
    assert_eq!(out.fatal, Some(FatalFault::CommitFailed(ExecutionError { code: 9 })));
    assert!(out.commit.is_none());
    assert!(network[0].processor.is_halted());
}

#[test]
fn only_the_leader_proposes() {
    let mut network = new_network();
    let id = block_id(1, &vec![1], &genesis_id());
    let out = network[2].processor.generate_proposal(id, vec![1], 0);
    assert_eq!(out.rejection, Some(Rejection::NotLeader));
    assert_eq!(network[2].processor.block_tree().len(), 1);
    let proposal = propose(&mut network[1], vec![1]);
    // The proposal carries the highest certificate that the leader knows.
    assert_eq!(proposal.qc.certified_block(), BlockInfo::new(genesis_id(), 0));
    assert_eq!(proposal.block.parent_id, genesis_id());
    assert_eq!(proposal.block.timestamp_usecs, 1000);
    // A second block under the same name is refused.
    let out = network[1].processor.generate_proposal(proposal.block.id, vec![1], 0);
    assert_eq!(out.rejection, Some(Rejection::ConflictingBlock));
    assert_eq!(network[1].processor.block_tree().len(), 2);
}

#[test]
fn invalid_votes_change_nothing() {
    let mut network = new_network();
    let proposal = propose(&mut network[1], vec![1]);
    let (_, vote) = vote_of(proposal.deliver(&mut network[0]));
    let forged = Vote { author: author(3), ..vote };
    let out = network[2].processor.process_vote(&forged);
    assert_eq!(out.rejection, Some(Rejection::InvalidSignature));
    assert!(out.messages.is_empty() && out.commit.is_none() && out.proposal_due.is_none());
    assert_eq!(network[2].processor.current_round(), 1);
    assert_eq!(network[2].processor.quorum_cert_engine().highest_qc().round(), 0);
}

#[test]
fn a_lagging_replica_asks_for_what_it_misses_and_catches_up() {
    let mut network = new_network();
    let mut lagging = new_replica(3, false);
    let mut history = vec![];
    for round in 1..=4 {
        let (proposal, _) = run_round(&mut network, round, vec![round]);
        history.push(proposal);
    }
    // The proposal of round 5 reaches a replica that has seen nothing since genesis.
    let fifth = propose(&mut network[leader_of(5) as usize], vec![5]);
    let mut out = fifth.deliver(&mut lagging);
    assert_eq!(out.rejection, Some(Rejection::SenderAhead));
    assert_eq!(lagging.processor.state(), RoundState::Syncing);
    assert!(lagging.voted_rounds.lock().unwrap().is_empty());
    match out.messages.pop().unwrap() {
        OutboundMessage::SyncRequest { to, block_id, .. } => {
            assert_eq!(to, author(leader_of(5)));
            assert_eq!(block_id, history[3].block.id);
        }
        other => panic!("no request: {:?}", other),
    }
    // Progress without the blocks does not help.
    let mut out = lagging.processor.process_sync_info(
        author(leader_of(5)),
        fifth.sync_info.clone(),
        vec![],
    );
    assert_eq!(out.rejection, Some(Rejection::SenderAhead));
    assert!(matches!(out.messages.pop().unwrap(), OutboundMessage::SyncRequest { .. }));
    // The blocks do.
    let blocks = history
        .iter()
        .map(|p| BlockWithCert { block: copy_block(&p.block), qc: p.qc.clone() })
        .collect();
    let out =
        lagging.processor.process_sync_info(author(leader_of(5)), fifth.sync_info.clone(), blocks);
    assert_eq!(out.rejection, None);
    assert_eq!(committed_ids(&out), vec![history[0].block.id, history[1].block.id]);
    assert_eq!(lagging.processor.state(), RoundState::Idle);
    assert_eq!(lagging.processor.current_round(), 5);
    assert_eq!(lagging.processor.block_tree().root().id(), history[1].block.id);
    // Now it votes for the proposal of round 5.
    let (_, vote) = vote_of(fifth.deliver(&mut lagging));
    assert_eq!(vote.data.block, fifth.block.info());
    assert_eq!(vote.author, author(3));
}

#[test]
fn progress_with_bad_certificates_is_refused() {
    let mut network = new_network();
    let bad = QuorumCert::new(
        VoteData {
            block: BlockInfo::new(HashValue::from_sha3(b"x"), 3),
            state_id: HashValue::zero(),
            parent: BlockInfo::new(genesis_id(), 0),
            commit: None,
        },
        vec![],
    );
    let sync = SyncInfo::new(bad.clone(), genesis_qc(), None);
    let out = network[0].processor.process_sync_info(author(1), sync, vec![]);
    assert_eq!(
        out.rejection,
        Some(Rejection::InvalidCertificate(VerifyError::TooLittleVotingPower))
    );
    let sync = SyncInfo::new(genesis_qc(), bad, None);
    let out = network[0].processor.process_sync_info(author(1), sync, vec![]);
    assert_eq!(
        out.rejection,
        Some(Rejection::InvalidCertificate(VerifyError::TooLittleVotingPower))
    );
    assert_eq!(network[0].processor.state(), RoundState::Idle);
}

fn timeout(index: u8, round: Round) -> Timeout {
    Timeout {
        round,
        author: author(index),
        signature: signer(index).sign(&timeout_signing_message(round)),
    }
}

#[test]
fn timeouts_of_a_quorum_license_the_next_round() {
    let mut network = new_network();
    let replica = &mut network[2];
    // The pacemaker speaks of a round that the replica is not in.
    assert_eq!(replica.processor.process_timeout(7).rejection, Some(Rejection::Stale));
    let mut out = replica.processor.process_timeout(1);
    assert_eq!(out.rejection, None);
    match out.messages.pop().unwrap() {
        OutboundMessage::Timeout { timeout: sent, sync_info } => {
            assert_eq!(sent, timeout(2, 1));
            assert_eq!(sync_info.highest_round(), 0);
        }
        other => panic!("no timeout: {:?}", other),
    }
    assert_eq!(replica.processor.current_round(), 1);
    let forged = Timeout { author: author(0), ..timeout(1, 1) };
    assert_eq!(
        replica.processor.process_remote_timeout(&forged).rejection,
        Some(Rejection::InvalidSignature)
    );
    let out = replica.processor.process_remote_timeout(&timeout(0, 1));
    assert!(out.rejection.is_none() && out.proposal_due.is_none());
    assert_eq!(replica.processor.current_round(), 1);
    // The third timeout makes the quorum. Replica 2 leads round 2.
    let out = replica.processor.process_remote_timeout(&timeout(1, 1));
    assert_eq!(out.proposal_due, Some(2));
    assert_eq!(replica.processor.current_round(), 2);
    assert_eq!(replica.processor.state(), RoundState::Idle);
    assert_eq!(replica.processor.sync_info().highest_timeout_cert.unwrap().round, 1);
    // What comes late is stale, and what is of a round far away is not counted.
    assert_eq!(
        replica.processor.process_remote_timeout(&timeout(3, 1)).rejection,
        Some(Rejection::Stale)
    );
    assert_eq!(
        replica.processor.process_remote_timeout(&timeout(3, 900)).rejection,
        Some(Rejection::SenderAhead)
    );
    assert!(replica.processor.process_remote_timeout(&timeout(3, 2)).rejection.is_none());
    // The replica proposes in round 2 on top of genesis.
    let proposal = propose(replica, vec![2]);
    assert_eq!(proposal.block.round, 2);
    assert_eq!(proposal.qc.round(), 0);
    assert_eq!(proposal.sync_info.highest_timeout_cert.as_ref().unwrap().round, 1);
}

#[test]
fn a_block_that_does_not_extend_its_certificate_is_refused() {
    let mut network = new_network();
    run_round(&mut network, 1, vec![1]);
    // The leader of round 2 builds on genesis but sends the certificate of round 1 along.
    let leader = &mut network[2];
    let certificate = leader.processor.quorum_cert_engine().highest_qc();
    assert_eq!(certificate.round(), 1);
    let id = block_id(2, &vec![2], &genesis_id());
    let block = Block {
        id,
        round: 2,
        payload: vec![2],
        timestamp_usecs: 0,
        parent_id: genesis_id(),
        author: author(2),
        signature: signer(2).sign(&proposal_signing_message(&id)),
    };
    let sync = leader.processor.sync_info();
    let out = network[3].processor.process_proposal(block, certificate, sync);
    assert_eq!(out.rejection, Some(Rejection::Tree(ProposalFault::CertificateMismatch)));
    assert!(out.messages.is_empty());
    assert_eq!(network[3].processor.safety_rules().last_voted_round(), 1);
}

#[test]
fn a_block_is_named_by_the_digest_of_what_it_holds() {
    let parent = HashValue::new([7; 32]);
    let mut bytes = vec![7u8; 32];
    bytes.extend_from_slice(&5u64.to_le_bytes());
    bytes.extend_from_slice(&1000u64.to_le_bytes());
    bytes.extend_from_slice(&[2u8; 32]);
    bytes.extend_from_slice(b"payload");
    let id = name_of_block(&parent, 5, 1000, &author(2), b"payload");
    assert_eq!(id, HashValue::from_sha3(&bytes));
    assert_ne!(id, name_of_block(&parent, 6, 1000, &author(2), b"payload"));
    assert_ne!(id, name_of_block(&parent, 5, 1000, &author(2), b"payloae"));
}

fn recover_from(data: RecoveryData<TestPayload>) -> Option<Processor> {
    EventProcessor::recover(
        data,
        ValidatorVerifier::new(validators(), 3).unwrap(),
        signer(3),
        MockComputer { committed: Arc::new(Mutex::new(vec![])), refuse_commit: false },
        MockStorage {
            fail: Arc::new(AtomicBool::new(false)),
            voted_rounds: Arc::new(Mutex::new(vec![])),
            saved_blocks: Arc::new(Mutex::new(vec![])),
        },
        RotatingProposer::from_validators(&validators()).unwrap(),
        10,
    )
}

#[test]
fn a_replica_starts_again_from_what_was_stored() {
    let mut network = new_network();
    let mut history = vec![];
    for round in 1..=4 {
        let (proposal, _) = run_round(&mut network, round, vec![round]);
        history.push(proposal);
    }
    // What replica 3 has stored: genesis, the four blocks, and its own state.
    let state = network[3].processor.safety_rules().consensus_state();
    assert_eq!(state.last_voted_round, 4);
    let stored_round = state.highest_qc.round();
    let mut blocks = vec![ExecutedBlock::new(
        genesis_block(),
        StateComputeResult::Executed { state_id: HashValue::zero() },
    )];
    let mut quorum_certs = vec![genesis_qc()];
    for proposal in &history {
        blocks.push(ExecutedBlock::new(copy_block(&proposal.block), StateComputeResult::Failed));
        quorum_certs.push(proposal.qc.clone());
    }
    let data = RecoveryData { blocks, quorum_certs, consensus_state: state };
    let processor = recover_from(data).unwrap();
    // The state of the safety rules is back as it was written.
    assert_eq!(processor.safety_rules().last_voted_round(), 4);
    assert_eq!(processor.safety_rules().locked_qc().round(), stored_round);
    assert!(!processor.is_halted());
    // The blocks are back, executed anew, and what the certificates commit is committed.
    for proposal in &history[1..] {
        let block = processor.block_tree().get_block(&proposal.block.id).unwrap();
        assert_ne!(block.compute_result, StateComputeResult::Failed);
    }
    assert_eq!(processor.block_tree().root().round(), stored_round - 2);
    assert_eq!(processor.current_round(), stored_round + 1);

    // Without a block, or without a certificate, there is nothing to start from.
    let nothing = RecoveryData {
        blocks: vec![],
        quorum_certs: vec![genesis_qc()],
        consensus_state: network[3].processor.safety_rules().consensus_state(),
    };
    assert!(recover_from(nothing).is_none());
    let no_certificate = RecoveryData {
        blocks: vec![ExecutedBlock::new(genesis_block(), StateComputeResult::Failed)],
        quorum_certs: vec![],
        consensus_state: network[3].processor.safety_rules().consensus_state(),
    };
    assert!(recover_from(no_certificate).is_none());
}

#[test]
fn a_block_that_executed_and_is_refused_stops_nobody() {
    // A replica that has voted in round 1 gets a second block of that round: the block
    // executed, the rules refuse it, and the replica goes on.
    let mut network = new_network();
    let first = propose(&mut network[1], vec![1]);
    vote_of(first.deliver(&mut network[0]));
    let mut second = Proposal {
        block: copy_block(&first.block),
        qc: first.qc.clone(),
        sync_info: first.sync_info.clone(),
    };
    second.block.payload = vec![12];
    second.block.id = block_id(1, &second.block.payload, &genesis_id());
    second.block.signature = signer(1).sign(&proposal_signing_message(&second.block.id));
    let out = second.deliver(&mut network[0]);
    assert_eq!(out.rejection, Some(Rejection::Safety(SafetyError::StaleRound)));
    assert_eq!(out.fatal, None);
    assert!(!network[0].processor.is_halted());
    let stored = network[0].processor.block_tree().get_block(&second.block.id).unwrap();
    assert_ne!(stored.compute_result, StateComputeResult::Failed);
}
