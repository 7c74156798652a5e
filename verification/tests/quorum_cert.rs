use chained_bft::account_address::AccountAddress;
use chained_bft::consensus::common::{BlockInfo, Signature};
use chained_bft::consensus::quorum_cert_engine::{
    Equivocation, QuorumCertEngine, VoteReceiptStatus,
};
use chained_bft::consensus::signing::{verify_signature, ValidatorSigner};
use chained_bft::consensus::timeout::{
    timeout_signing_message, verify_timeout, PendingTimeouts, Timeout, TimeoutReceiptStatus,
};
use chained_bft::consensus::validator_verifier::{
    ValidatorInfo, ValidatorSetError, ValidatorVerifier, VerifyError,
};
use chained_bft::consensus::vote::{
    AuthorSignature, LedgerInfo, QuorumCert, Vote, VoteData, VOTE_TAG,
};
use chained_bft::hash::HashValue;

fn author(index: u8) -> AccountAddress {
    AccountAddress::new([index; 32])
}

fn signer(index: u8) -> ValidatorSigner {
    ValidatorSigner::new(author(index), [index + 100; 32])
}

fn validator(index: u8, voting_power: u64) -> ValidatorInfo {
    ValidatorInfo { author: author(index), public_key: signer(index).public_key(), voting_power }
}

/// Four validators of weight 1 each, of which three make a quorum.
fn four_validators() -> ValidatorVerifier {
    ValidatorVerifier::new((0..4).map(|i| validator(i, 1)).collect(), 3).unwrap()
}

fn id_of(tag: u8) -> HashValue {
    HashValue::from_sha3(&[tag])
}

fn vote_data(tag: u8, round: u64) -> VoteData {
    VoteData {
        block: BlockInfo::new(id_of(tag), round),
        state_id: HashValue::from_sha3(&[b's', tag]),
        parent: BlockInfo::new(id_of(0), 0),
        commit: None,
    }
}

fn vote(index: u8, data: VoteData) -> Vote {
    let signature = signer(index).sign(&data.signing_message());
    Vote { data, author: author(index), signature }
}

fn new_engine(committed_round: u64) -> QuorumCertEngine {
    let genesis = QuorumCert::certificate_for_genesis(id_of(0), HashValue::zero());
    QuorumCertEngine::new(four_validators(), genesis.clone(), genesis, committed_round)
}

fn is_pending(status: &VoteReceiptStatus) -> bool {
    matches!(status, VoteReceiptStatus::Pending)
}

fn formed(status: VoteReceiptStatus) -> QuorumCert {
    match status {
        VoteReceiptStatus::QCFormed(qc) => qc,
        other => panic!("no certificate: {:?}", other),
    }
}

#[test]
fn public_key_and_signature_match_the_known_vector() {
    let secret: [u8; 32] = [
        0x9d, 0x61, 0xb1, 0x9d, 0xef, 0xfd, 0x5a, 0x60, 0xba, 0x84, 0x4a, 0xf4, 0x92, 0xec, 0x2c,
        0xc4, 0x44, 0x49, 0xc5, 0x69, 0x7b, 0x32, 0x69, 0x19, 0x70, 0x3b, 0xac, 0x03, 0x1c, 0xae,
        0x7f, 0x60,
    ];
    let public: [u8; 32] = [
        0xd7, 0x5a, 0x98, 0x01, 0x82, 0xb1, 0x0a, 0xb7, 0xd5, 0x4b, 0xfe, 0xd3, 0xc9, 0x64, 0x07,
        0x3a, 0x0e, 0xe1, 0x72, 0xf3, 0xda, 0xa6, 0x23, 0x25, 0xaf, 0x02, 0x1a, 0x68, 0xf7, 0x07,
        0x51, 0x1a,
    ];
    let signature: [u8; 64] = [
        0xe5, 0x56, 0x43, 0x00, 0xc3, 0x60, 0xac, 0x72, 0x90, 0x86, 0xe2, 0xcc, 0x80, 0x6e, 0x82,
        0x8a, 0x84, 0x87, 0x7f, 0x1e, 0xb8, 0xe5, 0xd9, 0x74, 0xd8, 0x73, 0xe0, 0x65, 0x22, 0x49,
        0x01, 0x55, 0x5f, 0xb8, 0x82, 0x15, 0x90, 0xa3, 0x3b, 0xac, 0xc6, 0x1e, 0x39, 0x70, 0x1c,
        0xf9, 0xb4, 0x6b, 0xd2, 0x5b, 0xf5, 0xf0, 0x59, 0x5b, 0xbe, 0x24, 0x65, 0x51, 0x41, 0x43,
        0x8e, 0x7a, 0x10, 0x0b,
    ];
    let signer = ValidatorSigner::new(author(1), secret);
    assert_eq!(signer.author(), author(1));
    assert_eq!(signer.public_key(), public);
    assert_eq!(signer.sign(b""), Signature::new(signature));
    assert!(verify_signature(&public, b"", &Signature::new(signature)));
    assert!(!verify_signature(&public, b"x", &Signature::new(signature)));
    assert!(!verify_signature(&signer_key(2), b"", &Signature::new(signature)));
    assert!(!verify_signature(&public, b"", &Signature::new([0; 64])));
    assert_ne!(signer.sign(b"a"), signer.sign(b"b"));
}

fn signer_key(index: u8) -> [u8; 32] {
    signer(index).public_key()
}

#[test]
fn vote_message_frames_the_vote() {
    let data = VoteData {
        block: BlockInfo::new(HashValue::new([1; 32]), 7),
        state_id: HashValue::new([2; 32]),
        parent: BlockInfo::new(HashValue::new([3; 32]), 6),
        commit: Some(LedgerInfo {
            block: BlockInfo::new(HashValue::new([4; 32]), 5),
            state_id: HashValue::new([5; 32]),
        }),
    };
    let mut expected = vec![VOTE_TAG];
    expected.extend_from_slice(&[1; 32]);
    expected.extend_from_slice(&7u64.to_le_bytes());
    expected.extend_from_slice(&[2; 32]);
    expected.extend_from_slice(&[3; 32]);
    expected.extend_from_slice(&6u64.to_le_bytes());
    expected.push(1);
    expected.extend_from_slice(&[4; 32]);
    expected.extend_from_slice(&5u64.to_le_bytes());
    expected.extend_from_slice(&[5; 32]);
    assert_eq!(data.signing_message(), expected);
    let without = VoteData { commit: None, ..data };
    assert_eq!(without.signing_message().len(), 1 + 40 + 32 + 40 + 1);
    assert_eq!(*without.signing_message().last().unwrap(), 0);
    assert_eq!(timeout_signing_message(258), vec![2, 2, 1, 0, 0, 0, 0, 0, 0]);
}

#[test]
fn validator_lists_are_checked() {
    let set = four_validators();
    assert_eq!(set.len(), 4);
    assert_eq!(set.quorum_voting_power(), 3);
    assert_eq!(set.total_voting_power(), 4);
    assert_eq!(set.index_of(&author(2)), Some(2));
    assert_eq!(set.index_of(&author(9)), None);
    assert_eq!(set.get(3).author, author(3));

    let twice = vec![validator(0, 1), validator(1, 1), validator(0, 5)];
    assert_eq!(
        ValidatorVerifier::new(twice, 1).unwrap_err(),
        ValidatorSetError::DuplicateAuthor
    );
    let heavy = vec![validator(0, u64::MAX), validator(1, 1)];
    assert_eq!(ValidatorVerifier::new(heavy, 1).unwrap_err(), ValidatorSetError::PowerOverflow);
    let heavy = vec![validator(0, u64::MAX), validator(1, 1)];
    assert_eq!(
        ValidatorVerifier::with_default_quorum(heavy).unwrap_err(),
        ValidatorSetError::PowerOverflow
    );
    let few = vec![validator(0, 1), validator(1, 1)];
    assert_eq!(
        ValidatorVerifier::new(few, 3).unwrap_err(),
        ValidatorSetError::QuorumUnreachable
    );
    // A duplicate is found before anything else.
    let both = vec![validator(0, u64::MAX), validator(0, u64::MAX)];
    assert_eq!(ValidatorVerifier::new(both, 9).unwrap_err(), ValidatorSetError::DuplicateAuthor);
    assert_eq!(ValidatorVerifier::new(vec![], 0).unwrap().len(), 0);
}

#[test]
fn default_quorum_is_more_than_two_thirds() {
    let quorum = |weights: Vec<u64>| {
        let validators =
            weights.iter().enumerate().map(|(i, w)| validator(i as u8, *w)).collect();
        ValidatorVerifier::with_default_quorum(validators).unwrap().quorum_voting_power()
    };
    assert_eq!(quorum(vec![]), 0);
    assert_eq!(quorum(vec![1]), 1);
    assert_eq!(quorum(vec![1, 1]), 2);
    assert_eq!(quorum(vec![1, 1, 1]), 3);
    assert_eq!(quorum(vec![1, 1, 1, 1]), 3);
    assert_eq!(quorum(vec![1, 1, 1, 1, 1, 1, 1]), 5);
    assert_eq!(quorum(vec![10, 20, 70]), 67);
    assert_eq!(quorum(vec![u64::MAX]), u64::MAX / 3 * 2 + 1);
}

#[test]
fn three_of_four_votes_form_a_certificate() {
    let mut engine = new_engine(0);
    let data = vote_data(1, 1);
    assert!(is_pending(&engine.add_vote(&vote(0, data))));
    assert!(is_pending(&engine.add_vote(&vote(1, data))));
    // Two votes stay pending, however often they come.
    assert!(is_pending(&engine.add_vote(&vote(0, data))));
    assert!(is_pending(&engine.add_vote(&vote(1, data))));
    assert_eq!(engine.highest_qc().round(), 0);
    let qc = formed(engine.add_vote(&vote(3, data)));
    assert_eq!(qc.data, data);
    assert_eq!(
        qc.signatures,
        vec![
            AuthorSignature { author: author(0), signature: vote(0, data).signature },
            AuthorSignature { author: author(1), signature: vote(1, data).signature },
            AuthorSignature { author: author(3), signature: vote(3, data).signature },
        ]
    );
    assert_eq!(engine.highest_qc().certified_block(), data.block);
    assert_eq!(engine.validator_verifier().verify_quorum_cert(&qc), Ok(()));
    // A fourth vote gives the certificate of all four.
    let all = formed(engine.add_vote(&vote(2, data)));
    assert_eq!(all.signatures.len(), 4);
    assert_eq!(engine.validator_verifier().verify_quorum_cert(&all), Ok(()));
    assert!(engine.equivocators().is_empty());
}

#[test]
fn votes_for_different_things_do_not_add_up() {
    let mut engine = new_engine(0);
    assert!(is_pending(&engine.add_vote(&vote(0, vote_data(1, 1)))));
    assert!(is_pending(&engine.add_vote(&vote(1, vote_data(1, 1)))));
    assert!(is_pending(&engine.add_vote(&vote(2, vote_data(2, 1)))));
    assert!(is_pending(&engine.add_vote(&vote(3, vote_data(1, 2)))));
    let other_state = VoteData { state_id: HashValue::zero(), ..vote_data(1, 1) };
    assert!(is_pending(&engine.add_vote(&vote(3, other_state))));
    assert!(formed(engine.add_vote(&vote(3, vote_data(1, 1)))).signatures.len() == 3);
}

#[test]
fn invalid_votes_are_refused() {
    let mut engine = new_engine(0);
    let data = vote_data(1, 1);
    // Signed by another validator than the one named.
    let forged = Vote { author: author(1), ..vote(0, data) };
    assert!(matches!(engine.add_vote(&forged), VoteReceiptStatus::InvalidSignature));
    // Signed for something else.
    let moved = Vote { data: vote_data(2, 1), ..vote(0, data) };
    assert!(matches!(engine.add_vote(&moved), VoteReceiptStatus::InvalidSignature));
    // From nobody the engine knows.
    let stranger = Vote {
        data,
        author: author(9),
        signature: ValidatorSigner::new(author(9), [9; 32]).sign(&data.signing_message()),
    };
    assert!(matches!(engine.add_vote(&stranger), VoteReceiptStatus::InvalidSignature));
    assert!(!engine.validator_verifier().verify_vote(&forged));
    assert!(engine.validator_verifier().verify_vote(&vote(0, data)));
    // None of them counts.
    assert!(is_pending(&engine.add_vote(&vote(0, data))));
    assert!(is_pending(&engine.add_vote(&vote(1, data))));
    assert!(matches!(engine.add_vote(&forged), VoteReceiptStatus::InvalidSignature));
    // What the caller found invalid is refused whatever it holds.
    assert!(matches!(
        engine.add_checked_vote(&vote(2, data), false),
        VoteReceiptStatus::InvalidSignature
    ));
    assert!(formed(engine.add_checked_vote(&vote(2, data), true)).signatures.len() == 3);
}

#[test]
fn votes_for_committed_rounds_are_stale() {
    let mut engine = new_engine(5);
    assert!(matches!(engine.add_vote(&vote(0, vote_data(1, 5))), VoteReceiptStatus::Stale));
    assert!(matches!(engine.add_vote(&vote(0, vote_data(1, 3))), VoteReceiptStatus::Stale));
    assert!(is_pending(&engine.add_vote(&vote(0, vote_data(1, 6)))));
    // The signature is looked at first.
    let forged = Vote { author: author(1), ..vote(0, vote_data(1, 3)) };
    assert!(matches!(engine.add_vote(&forged), VoteReceiptStatus::InvalidSignature));
}

#[test]
fn pruning_drops_the_votes_of_committed_rounds() {
    let mut engine = new_engine(0);
    assert!(is_pending(&engine.add_vote(&vote(0, vote_data(1, 1)))));
    assert!(is_pending(&engine.add_vote(&vote(1, vote_data(1, 1)))));
    assert!(is_pending(&engine.add_vote(&vote(0, vote_data(2, 2)))));
    assert!(is_pending(&engine.add_vote(&vote(1, vote_data(2, 2)))));
    engine.prune(1);
    assert!(matches!(engine.add_vote(&vote(2, vote_data(1, 1))), VoteReceiptStatus::Stale));
    // The votes of round 2 are still there.
    assert_eq!(formed(engine.add_vote(&vote(2, vote_data(2, 2)))).signatures.len(), 3);
    // The committed round does not go back.
    engine.prune(0);
    assert!(matches!(engine.add_vote(&vote(3, vote_data(1, 1))), VoteReceiptStatus::Stale));
}

#[test]
fn equivocation_is_noted_and_not_fatal() {
    let mut engine = new_engine(0);
    assert!(is_pending(&engine.add_vote(&vote(0, vote_data(1, 1)))));
    // The same validator votes for another block of the same round.
    assert!(is_pending(&engine.add_vote(&vote(0, vote_data(2, 1)))));
    assert_eq!(engine.equivocators(), vec![Equivocation { author: author(0), round: 1 }]);
    // A repeated vote shows nothing new.
    assert!(is_pending(&engine.add_vote(&vote(0, vote_data(2, 1)))));
    assert_eq!(engine.equivocators().len(), 1);
    // A vote in another round is no equivocation.
    assert!(is_pending(&engine.add_vote(&vote(0, vote_data(3, 2)))));
    assert_eq!(engine.equivocators().len(), 1);
    // The author counts once in each bucket: two more votes are needed for either block.
    assert!(is_pending(&engine.add_vote(&vote(1, vote_data(1, 1)))));
    assert_eq!(formed(engine.add_vote(&vote(2, vote_data(1, 1)))).signatures.len(), 3);
    assert!(is_pending(&engine.add_vote(&vote(3, vote_data(2, 1)))));
}

#[test]
fn highest_certificates_only_go_up() {
    let mut engine = new_engine(0);
    let commit = Some(LedgerInfo {
        block: BlockInfo::new(id_of(4), 4),
        state_id: HashValue::zero(),
    });
    let with_commit = QuorumCert::new(VoteData { commit, ..vote_data(6, 6) }, vec![]);
    engine.observe_qc(&with_commit);
    assert_eq!(engine.highest_qc().round(), 6);
    assert_eq!(engine.highest_commit_cert().round(), 6);
    engine.observe_qc(&QuorumCert::new(vote_data(8, 8), vec![]));
    assert_eq!(engine.highest_qc().round(), 8);
    assert_eq!(engine.highest_commit_cert().round(), 6);
    assert_eq!(engine.highest_commit_cert().ledger_info(), commit);
    engine.observe_qc(&QuorumCert::new(vote_data(7, 7), vec![]));
    assert_eq!(engine.highest_qc().round(), 8);
    let lower_commit = Some(LedgerInfo {
        block: BlockInfo::new(id_of(3), 3),
        state_id: HashValue::zero(),
    });
    engine.observe_qc(&QuorumCert::new(VoteData { commit: lower_commit, ..vote_data(9, 9) }, vec![]));
    assert_eq!(engine.highest_qc().round(), 9);
    assert_eq!(engine.highest_commit_cert().round(), 6);
}

#[test]
fn certificates_are_verified() {
    let set = four_validators();
    let data = vote_data(1, 1);
    let sig = |i: u8| AuthorSignature { author: author(i), signature: vote(i, data).signature };
    assert_eq!(set.verify_quorum_cert(&QuorumCert::new(data, vec![sig(0), sig(1), sig(2)])), Ok(()));
    assert_eq!(set.verify_quorum_cert(&QuorumCert::new(data, vec![sig(3), sig(0), sig(2)])), Ok(()));
    assert_eq!(
        set.verify_quorum_cert(&QuorumCert::new(data, vec![sig(0), sig(1)])),
        Err(VerifyError::TooLittleVotingPower)
    );
    assert_eq!(
        set.verify_quorum_cert(&QuorumCert::new(data, vec![])),
        Err(VerifyError::TooLittleVotingPower)
    );
    assert_eq!(
        set.verify_quorum_cert(&QuorumCert::new(data, vec![sig(0), sig(1), sig(0)])),
        Err(VerifyError::DuplicateSignature)
    );
    let stranger = AuthorSignature { author: author(9), signature: sig(0).signature };
    assert_eq!(
        set.verify_quorum_cert(&QuorumCert::new(data, vec![sig(0), stranger, sig(1), sig(2)])),
        Err(VerifyError::UnknownAuthor)
    );
    let swapped = AuthorSignature { author: author(1), signature: sig(0).signature };
    assert_eq!(
        set.verify_quorum_cert(&QuorumCert::new(data, vec![sig(0), swapped, sig(2)])),
        Err(VerifyError::InvalidSignature)
    );
    // The signatures are for this vote and no other.
    assert_eq!(
        set.verify_quorum_cert(&QuorumCert::new(vote_data(2, 1), vec![sig(0), sig(1), sig(2)])),
        Err(VerifyError::InvalidSignature)
    );
    // The first signature that fails decides.
    assert_eq!(
        set.verify_quorum_cert(&QuorumCert::new(data, vec![swapped, stranger])),
        Err(VerifyError::InvalidSignature)
    );
    // The certificate of genesis needs no signature.
    let genesis = QuorumCert::certificate_for_genesis(id_of(0), HashValue::zero());
    assert_eq!(set.verify_quorum_cert(&genesis), Ok(()));
    let not_genesis = QuorumCert::new(vote_data(0, 0), vec![]);
    assert_eq!(set.verify_quorum_cert(&not_genesis), Ok(()));
    let round_one = QuorumCert::new(
        VoteData { parent: BlockInfo::new(id_of(1), 1), ..vote_data(1, 1) },
        vec![],
    );
    assert_eq!(set.verify_quorum_cert(&round_one), Err(VerifyError::TooLittleVotingPower));
}

#[test]
fn weights_decide_the_quorum() {
    let validators = vec![validator(0, 5), validator(1, 1), validator(2, 1)];
    let set = ValidatorVerifier::new(validators, 6).unwrap();
    let genesis = QuorumCert::certificate_for_genesis(id_of(0), HashValue::zero());
    let mut engine = QuorumCertEngine::new(set, genesis.clone(), genesis, 0);
    let data = vote_data(1, 1);
    assert!(is_pending(&engine.add_vote(&vote(1, data))));
    assert!(is_pending(&engine.add_vote(&vote(2, data))));
    assert_eq!(formed(engine.add_vote(&vote(0, data))).signatures.len(), 3);
    let other = vote_data(2, 2);
    assert!(is_pending(&engine.add_vote(&vote(0, other))));
    assert_eq!(formed(engine.add_vote(&vote(2, other))).signatures.len(), 2);
}

fn timeout(index: u8, round: u64) -> Timeout {
    let signature = signer(index).sign(&timeout_signing_message(round));
    Timeout { round, author: author(index), signature }
}

#[test]
fn timeouts_of_a_quorum_form_a_certificate() {
    let set = four_validators();
    let mut pending = PendingTimeouts::new(&set, 3);
    assert!(verify_timeout(&set, &timeout(0, 3)));
    assert!(!verify_timeout(&set, &Timeout { round: 4, ..timeout(0, 3) }));
    assert!(matches!(pending.add_timeout(&set, &timeout(0, 3)), TimeoutReceiptStatus::Pending));
    assert!(matches!(pending.add_timeout(&set, &timeout(0, 3)), TimeoutReceiptStatus::Pending));
    assert!(matches!(pending.add_timeout(&set, &timeout(2, 3)), TimeoutReceiptStatus::Pending));
    assert!(matches!(pending.add_timeout(&set, &timeout(1, 2)), TimeoutReceiptStatus::Stale));
    let forged = Timeout { author: author(1), ..timeout(3, 3) };
    assert!(matches!(
        pending.add_timeout(&set, &forged),
        TimeoutReceiptStatus::InvalidSignature
    ));
    match pending.add_timeout(&set, &timeout(3, 3)) {
        TimeoutReceiptStatus::CertificateFormed(tc) => {
            assert_eq!(tc.round, 3);
            let authors: Vec<AccountAddress> = tc.signatures.iter().map(|s| s.author).collect();
            assert_eq!(authors, vec![author(0), author(2), author(3)]);
            assert_eq!(tc.signatures[1].signature, timeout(2, 3).signature);
        }
        other => panic!("no certificate: {:?}", other),
    }
    // A timeout of a higher round starts over.
    assert!(matches!(pending.add_timeout(&set, &timeout(1, 5)), TimeoutReceiptStatus::Pending));
    assert!(matches!(pending.add_timeout(&set, &timeout(0, 3)), TimeoutReceiptStatus::Stale));
    assert!(matches!(
        pending.add_checked_timeout(&set, &timeout(0, 5), false),
        TimeoutReceiptStatus::InvalidSignature
    ));
    assert!(matches!(
        pending.add_checked_timeout(&set, &timeout(0, 5), true),
        TimeoutReceiptStatus::Pending
    ));
}

#[test]
fn a_certificate_is_settled_on_what_its_signatures_gave() {
    let set = four_validators();
    let data = vote_data(1, 1);
    // The signatures themselves are not looked at: what counts is what the caller says of them.
    let sig = |i: u8| AuthorSignature { author: author(i), signature: Signature::new([i; 64]) };
    let three = QuorumCert::new(data, vec![sig(0), sig(1), sig(2)]);
    assert_eq!(set.tally_quorum_cert(&three, &vec![true, true, true]), Ok(()));
    assert_eq!(
        set.tally_quorum_cert(&three, &vec![true, false, true]),
        Err(VerifyError::InvalidSignature)
    );
    let two = QuorumCert::new(data, vec![sig(3), sig(1)]);
    assert_eq!(
        set.tally_quorum_cert(&two, &vec![true, true]),
        Err(VerifyError::TooLittleVotingPower)
    );
    let twice = QuorumCert::new(data, vec![sig(3), sig(1), sig(3), sig(2)]);
    assert_eq!(
        set.tally_quorum_cert(&twice, &vec![true, true, true, true]),
        Err(VerifyError::DuplicateSignature)
    );
    // An unknown signer is found before its signature is asked about.
    let stranger = QuorumCert::new(data, vec![sig(0), sig(9), sig(1), sig(2)]);
    assert_eq!(
        set.tally_quorum_cert(&stranger, &vec![true, false, false, true]),
        Err(VerifyError::UnknownAuthor)
    );
    assert_eq!(
        set.tally_quorum_cert(&stranger, &vec![false, true, true, true]),
        Err(VerifyError::InvalidSignature)
    );
    let genesis = QuorumCert::certificate_for_genesis(id_of(0), HashValue::zero());
    assert_eq!(set.tally_quorum_cert(&genesis, &vec![]), Ok(()));
}
