//! Timeouts: what a replica says when a round has run out, and the
//! certificates that a quorum of such messages makes.

use crate::bytes::append_u64;
use crate::consensus::common::{Author, Round, Signature};
use crate::consensus::signing::{ed25519_verifies, verify_signature};
use crate::consensus::validator_verifier::{
    is_validator, lemma_voted_power_bound, lemma_voted_power_mark, lemma_voted_power_none,
    validator_index, voted_power, ValidatorInfo, ValidatorVerifier,
};
use crate::consensus::quorum_cert_engine::{collect_signatures, marks_of};
use crate::consensus::vote::{AuthorSignature, TIMEOUT_TAG};
use vstd::bytes::spec_u64_to_le_bytes;
use vstd::prelude::*;

verus! {

/// The message that a timeout of the round `round` signs: the tag of
/// timeouts, then the round.
pub open spec fn timeout_message(round: Round) -> Seq<u8> {
    seq![TIMEOUT_TAG] + spec_u64_to_le_bytes(round)
}

/// The message that a timeout of the round `round` signs.
pub fn timeout_signing_message(round: Round) -> (message: Vec<u8>)
    ensures
        message@ == timeout_message(round),
{
    let mut out: Vec<u8> = Vec::new();
    out.push(TIMEOUT_TAG);
    append_u64(&mut out, round);
    out
}

/// One validator's signed word that a round has run out.
#[derive(Clone, Copy, Debug, Eq)]
pub struct Timeout {
    pub round: Round,
    pub author: Author,
    pub signature: Signature,
}

impl PartialEq for Timeout {
    fn eq(&self, other: &Self) -> (r: bool) {
        self.round == other.round && self.author == other.author && self.signature
            == other.signature
    }
}

impl vstd::std_specs::cmp::PartialEqSpecImpl for Timeout {
    open spec fn obeys_eq_spec() -> bool {
        true
    }

    open spec fn eq_spec(&self, other: &Self) -> bool {
        *self == *other
    }
}

/// The proof that a quorum has given up a round: the round, and the
/// signatures of the validators that timed out.
#[derive(Debug)]
pub struct TimeoutCertificate {
    pub round: Round,
    pub signatures: Vec<AuthorSignature>,
}

/// A timeout certificate as contracts see it.
pub struct TimeoutCertificateView {
    pub round: Round,
    pub signatures: Seq<AuthorSignature>,
}

impl View for TimeoutCertificate {
    type V = TimeoutCertificateView;

    open spec fn view(&self) -> TimeoutCertificateView {
        TimeoutCertificateView { round: self.round, signatures: self.signatures@ }
    }
}

impl Clone for TimeoutCertificate {
    fn clone(&self) -> (r: Self)
        ensures
            r@ == self@,
    {
        let signatures = self.signatures.clone();
        assert(signatures@ =~= self.signatures@);
        TimeoutCertificate { round: self.round, signatures }
    }
}

/// The timeout is from a validator and its signature verifies under the
/// validator's key.
pub open spec fn timeout_is_valid(v: Seq<ValidatorInfo>, timeout: Timeout) -> bool {
    &&& is_validator(v, timeout.author)
    &&& ed25519_verifies(
        v[validator_index(v, timeout.author)].public_key@,
        timeout_message(timeout.round),
        timeout.signature@,
    )
}

/// Whether the timeout is from a validator and properly signed.
pub fn verify_timeout(validators: &ValidatorVerifier, timeout: &Timeout) -> (ok: bool)
    ensures
        ok == timeout_is_valid(validators.validators(), *timeout),
{
    match validators.index_of(&timeout.author) {
        None => false,
        Some(i) => {
            let message = timeout_signing_message(timeout.round);
            verify_signature(
                &validators.get(i).public_key,
                message.as_slice(),
                &timeout.signature,
            )
        },
    }
}

/// What became of a timeout.
#[derive(Debug)]
pub enum TimeoutReceiptStatus {
    /// The timeout counts, and the timeouts of its round do not make a
    /// quorum yet.
    Pending,
    /// The timeouts of the round make a quorum; here is the certificate.
    CertificateFormed(TimeoutCertificate),
    /// The timeout is for a round that is over.
    Stale,
    /// The timeout is from no validator, or its signature does not verify.
    InvalidSignature,
}

/// What became of a timeout, as contracts see it.
pub enum TimeoutStatusView {
    Pending,
    CertificateFormed(TimeoutCertificateView),
    Stale,
    InvalidSignature,
}

impl View for TimeoutReceiptStatus {
    type V = TimeoutStatusView;

    open spec fn view(&self) -> TimeoutStatusView {
        match self {
            TimeoutReceiptStatus::Pending => TimeoutStatusView::Pending,
            TimeoutReceiptStatus::CertificateFormed(tc) => TimeoutStatusView::CertificateFormed(
                tc@,
            ),
            TimeoutReceiptStatus::Stale => TimeoutStatusView::Stale,
            TimeoutReceiptStatus::InvalidSignature => TimeoutStatusView::InvalidSignature,
        }
    }
}

/// What a timeout does to the timeouts that are held for one round.
pub struct TimeoutOutcome {
    /// The round for which timeouts are held after this one.
    pub round: Round,
    /// For each validator, the signature of its timeout of that round if
    /// it has sent one.
    pub votes: Seq<Option<Signature>>,
    /// What became of the timeout.
    pub status: TimeoutStatusView,
}

/// What a timeout does, given whether it is valid. The timeouts of the
/// highest round seen are held. A timeout that is not valid is refused. A
/// valid one for a lower round than the one held is stale. One for a
/// higher round makes that round the one held, with no timeout yet. The
/// timeout then counts, once for each validator, and a certificate is
/// formed when the validators that timed out have the voting power of a
/// quorum.
pub open spec fn add_timeout_step(
    v: Seq<ValidatorInfo>,
    quorum: nat,
    round: Round,
    votes: Seq<Option<Signature>>,
    timeout: Timeout,
    valid: bool,
) -> TimeoutOutcome {
    if !valid || !is_validator(v, timeout.author) {
        TimeoutOutcome { round, votes, status: TimeoutStatusView::InvalidSignature }
    } else if timeout.round < round {
        TimeoutOutcome { round, votes, status: TimeoutStatusView::Stale }
    } else {
        let i = validator_index(v, timeout.author);
        let before = if timeout.round > round {
            Seq::new(v.len(), |k: int| None::<Signature>)
        } else {
            votes
        };
        let after = if before[i] is Some {
            before
        } else {
            before.update(i, Some(timeout.signature))
        };
        TimeoutOutcome {
            round: timeout.round,
            votes: after,
            status: if voted_power(v, marks_of(after)) >= quorum {
                TimeoutStatusView::CertificateFormed(
                    TimeoutCertificateView {
                        round: timeout.round,
                        signatures: collect_signatures(v, after, v.len() as int),
                    },
                )
            } else {
                TimeoutStatusView::Pending
            },
        }
    }
}

/// The timeouts that have come in for the highest round that any of them
/// names.
#[derive(Debug)]
pub struct PendingTimeouts {
    round: Round,
    votes: Vec<Option<Signature>>,
    power: u64,
}

impl PendingTimeouts {
    /// The round for which timeouts are held.
    pub closed spec fn round(&self) -> Round {
        self.round
    }

    /// For each validator, the signature of its timeout if it has sent
    /// one.
    pub closed spec fn votes(&self) -> Seq<Option<Signature>> {
        self.votes@
    }

    /// The timeouts are in order for the validators `v`: there is a place
    /// for each validator, and the power is the voting power of those that
    /// timed out.
    pub closed spec fn wf(&self, v: Seq<ValidatorInfo>) -> bool {
        &&& self.votes@.len() == v.len()
        &&& self.power == voted_power(v, marks_of(self.votes@))
    }

    /// No timeout yet, for the round `round` and the given validators.
    pub fn new(validators: &ValidatorVerifier, round: Round) -> (pending: Self)
        ensures
            pending.wf(validators.validators()),
            pending.round() == round,
            pending.votes() == Seq::new(validators.validators().len(), |k: int| None::<Signature>),
    {
        let votes = no_votes(validators.len());
        proof {
            lemma_voted_power_none(validators.validators(), marks_of(votes@));
        }
        PendingTimeouts { round, votes, power: 0 }
    }

    /// Takes in a timeout whose validity the caller has established: see
    /// `add_timeout_step`.
    pub fn add_checked_timeout(
        &mut self,
        validators: &ValidatorVerifier,
        timeout: &Timeout,
        valid: bool,
    ) -> (status: TimeoutReceiptStatus)
        requires
            old(self).wf(validators.validators()),
        ensures
            final(self).wf(validators.validators()),
            ({
                let out = add_timeout_step(
                    validators.validators(),
                    validators.quorum(),
                    old(self).round(),
                    old(self).votes(),
                    *timeout,
                    valid,
                );
                &&& final(self).round() == out.round
                &&& final(self).votes() == out.votes
                &&& status@ == out.status
            }),
    {
        let at = match validators.index_of(&timeout.author) {
            Some(at) => at,
            None => {
                return TimeoutReceiptStatus::InvalidSignature;
            },
        };
        if !valid {
            return TimeoutReceiptStatus::InvalidSignature;
        }
        if timeout.round < self.round {
            return TimeoutReceiptStatus::Stale;
        }
        let ghost v = validators.validators();
        let n = validators.len();
        if timeout.round > self.round {
            self.round = timeout.round;
            self.votes = no_votes(n);
            self.power = 0;
            proof {
                lemma_voted_power_none(v, marks_of(self.votes@));
            }
        }
        let ghost before = self.votes@;
        if self.votes[at].is_none() {
            let weight = validators.get(at).voting_power;
            proof {
                validators.lemma_wf();
                assert(marks_of(before.update(at as int, Some(timeout.signature))) =~= marks_of(
                    before,
                ).update(at as int, true));
                lemma_voted_power_mark(v, marks_of(before), at as int);
                lemma_voted_power_bound(v, marks_of(before).update(at as int, true));
            }
            self.votes.set(at, Some(timeout.signature));
            self.power = self.power + weight;
        }
        if self.power >= validators.quorum_voting_power() {
            let mut signatures: Vec<AuthorSignature> = Vec::new();
            let mut i: usize = 0;
            while i < n
                invariant
                    i <= n,
                    n == validators.validators().len(),
                    self.votes@.len() == n,
                    signatures@ == collect_signatures(
                        validators.validators(),
                        self.votes@,
                        i as int,
                    ),
                decreases n - i,
            {
                match self.votes[i] {
                    Some(signature) => {
                        let author = validators.get(i).author;
                        signatures.push(AuthorSignature { author, signature });
                    },
                    None => {},
                }
                i += 1;
            }
            TimeoutReceiptStatus::CertificateFormed(
                TimeoutCertificate { round: self.round, signatures },
            )
        } else {
            TimeoutReceiptStatus::Pending
        }
    }

    /// Takes in a timeout. The signature is checked against the key of the
    /// timeout's author: see `timeout_is_valid`. What the timeout then
    /// does is what `add_timeout_step` says for a timeout of that validity.
    pub fn add_timeout(&mut self, validators: &ValidatorVerifier, timeout: &Timeout) -> (status:
        TimeoutReceiptStatus)
        requires
            old(self).wf(validators.validators()),
        ensures
            final(self).wf(validators.validators()),
            ({
                let out = add_timeout_step(
                    validators.validators(),
                    validators.quorum(),
                    old(self).round(),
                    old(self).votes(),
                    *timeout,
                    timeout_is_valid(validators.validators(), *timeout),
                );
                &&& final(self).round() == out.round
                &&& final(self).votes() == out.votes
                &&& status@ == out.status
            }),
    {
        let valid = verify_timeout(validators, timeout);
        self.add_checked_timeout(validators, timeout, valid)
    }
}

/// A place for each of `n` validators, with no signature in it.
fn no_votes(n: usize) -> (votes: Vec<Option<Signature>>)
    ensures
        votes@ == Seq::new(n as nat, |k: int| None::<Signature>),
{
    let mut votes: Vec<Option<Signature>> = Vec::new();
    let mut k: usize = 0;
    while k < n
        invariant
            k <= n,
            votes@.len() == k,
            forall|j: int| 0 <= j < k ==> votes@[j] is None,
        decreases n - k,
    {
        votes.push(None);
        k += 1;
    }
    assert(votes@ =~= Seq::new(n as nat, |k: int| None::<Signature>));
    votes
}

} // verus!
