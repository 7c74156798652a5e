//! The validators of an epoch, their voting power, and what it takes to
//! make a quorum of them.

use crate::consensus::common::Author;
use crate::consensus::signing::{ed25519_verifies, verify_signature};
use crate::consensus::vote::{vote_message, AuthorSignature, QuorumCert, QuorumCertView, Vote, VoteData};
use vstd::prelude::*;

verus! {

/// One validator: who it is, the key its signatures verify under, and the
/// weight of its vote.
#[derive(Clone, Copy, Debug)]
pub struct ValidatorInfo {
    pub author: Author,
    pub public_key: [u8; 32],
    pub voting_power: u64,
}

/// The voting power of all validators together.
pub open spec fn total_power(v: Seq<ValidatorInfo>) -> nat
    decreases v.len(),
{
    if v.len() == 0 {
        0
    } else {
        total_power(v.drop_last()) + v.last().voting_power as nat
    }
}

/// The voting power of the validators that are marked in `voted`, which
/// has one mark for each validator.
pub open spec fn voted_power(v: Seq<ValidatorInfo>, voted: Seq<bool>) -> nat
    decreases v.len(),
{
    if v.len() == 0 || voted.len() != v.len() {
        0
    } else {
        voted_power(v.drop_last(), voted.drop_last()) + (if voted.last() {
            v.last().voting_power as nat
        } else {
            0
        })
    }
}

/// No validator occurs twice.
pub open spec fn authors_distinct(v: Seq<ValidatorInfo>) -> bool {
    forall|i: int, j: int|
        0 <= i < j < v.len() ==> (#[trigger] v[i]).author != (#[trigger] v[j]).author
}

/// `author` is one of the validators.
pub open spec fn is_validator(v: Seq<ValidatorInfo>, author: Author) -> bool {
    exists|i: int| 0 <= i < v.len() && (#[trigger] v[i]).author == author
}

/// The place of `author` among the validators.
pub open spec fn validator_index(v: Seq<ValidatorInfo>, author: Author) -> int {
    choose|i: int| 0 <= i < v.len() && (#[trigger] v[i]).author == author
}

/// The quorum of the standard configuration: more than two thirds of the
/// voting power, and nothing where there is no voting power.
pub open spec fn default_quorum(total: nat) -> nat {
    if total == 0 {
        0
    } else {
        total * 2 / 3 + 1
    }
}

/// The marked validators never have more power than all together.
pub proof fn lemma_voted_power_bound(v: Seq<ValidatorInfo>, voted: Seq<bool>)
    ensures
        voted_power(v, voted) <= total_power(v),
    decreases v.len(),
{
    if v.len() > 0 && voted.len() == v.len() {
        lemma_voted_power_bound(v.drop_last(), voted.drop_last());
    }
}

/// Marking one more validator adds its power.
pub proof fn lemma_voted_power_mark(v: Seq<ValidatorInfo>, voted: Seq<bool>, i: int)
    requires
        voted.len() == v.len(),
        0 <= i < v.len(),
        !voted[i],
    ensures
        voted_power(v, voted.update(i, true)) == voted_power(v, voted) + v[i].voting_power,
    decreases v.len(),
{
    let marked = voted.update(i, true);
    if i == v.len() - 1 {
        assert(marked.drop_last() =~= voted.drop_last());
    } else {
        assert(marked.drop_last() =~= voted.drop_last().update(i, true));
        lemma_voted_power_mark(v.drop_last(), voted.drop_last(), i);
    }
}

/// Where nobody is marked there is no power.
pub proof fn lemma_voted_power_none(v: Seq<ValidatorInfo>, voted: Seq<bool>)
    requires
        voted.len() == v.len(),
        forall|i: int| 0 <= i < voted.len() ==> !voted[i],
    ensures
        voted_power(v, voted) == 0,
    decreases v.len(),
{
    if v.len() > 0 {
        lemma_voted_power_none(v.drop_last(), voted.drop_last());
    }
}

/// The first validators never have more power than all together.
pub proof fn lemma_total_power_prefix(v: Seq<ValidatorInfo>, n: int)
    requires
        0 <= n <= v.len(),
    ensures
        total_power(v.take(n)) <= total_power(v),
    decreases v.len(),
{
    if n == v.len() {
        assert(v.take(n) =~= v);
    } else {
        assert(v.drop_last().take(n) =~= v.take(n));
        lemma_total_power_prefix(v.drop_last(), n);
    }
}

/// Among distinct validators the one at index `i` is found at `i`.
pub proof fn lemma_validator_index(v: Seq<ValidatorInfo>, i: int)
    requires
        authors_distinct(v),
        0 <= i < v.len(),
    ensures
        is_validator(v, v[i].author),
        validator_index(v, v[i].author) == i,
{
    let c = validator_index(v, v[i].author);
    if c < i {
        assert(v[c].author != v[i].author);
    } else if i < c {
        assert(v[i].author != v[c].author);
    }
}

/// Why a list of validators was refused.
#[derive(Clone, Copy, Debug, PartialEq, Eq, Structural)]
pub enum ValidatorSetError {
    /// A validator occurs twice.
    DuplicateAuthor,
    /// The voting power of all together does not fit in 64 bits.
    PowerOverflow,
    /// The quorum asks for more voting power than there is.
    QuorumUnreachable,
}

/// Why a vote or a certificate was refused.
#[derive(Clone, Copy, Debug, PartialEq, Eq, Structural)]
pub enum VerifyError {
    /// A signer is no validator.
    UnknownAuthor,
    /// A signature does not verify.
    InvalidSignature,
    /// A validator signed twice.
    DuplicateSignature,
    /// The signers do not have the voting power of a quorum.
    TooLittleVotingPower,
}

/// The vote is from a validator and its signature verifies under the
/// validator's key.
pub open spec fn vote_is_valid(v: Seq<ValidatorInfo>, vote: Vote) -> bool {
    &&& is_validator(v, vote.author)
    &&& ed25519_verifies(
        v[validator_index(v, vote.author)].public_key@,
        vote_message(vote.data),
        vote.signature@,
    )
}

/// What checking the first `n` signatures of a certificate gives: a mark
/// for each validator that signed, or why the first signature that fails
/// does so. A signature fails when its signer is no validator, when it
/// does not verify under the signer's key, or when the signer signed
/// before; this is looked at in that order.
pub open spec fn check_signatures(
    v: Seq<ValidatorInfo>,
    data: VoteData,
    signatures: Seq<AuthorSignature>,
    n: int,
) -> Result<Seq<bool>, VerifyError>
    decreases n,
{
    if n <= 0 {
        Ok(Seq::new(v.len(), |i: int| false))
    } else {
        match check_signatures(v, data, signatures, n - 1) {
            Err(e) => Err(e),
            Ok(marks) => {
                let s = signatures[n - 1];
                if !is_validator(v, s.author) {
                    Err(VerifyError::UnknownAuthor)
                } else {
                    let i = validator_index(v, s.author);
                    if !ed25519_verifies(v[i].public_key@, vote_message(data), s.signature@) {
                        Err(VerifyError::InvalidSignature)
                    } else if marks[i] {
                        Err(VerifyError::DuplicateSignature)
                    } else {
                        Ok(marks.update(i, true))
                    }
                }
            },
        }
    }
}

/// What settling the first `n` signatures of a certificate gives, where
/// `verified` says of each signature whether it verifies under the key of
/// its signer: a mark for each validator that signed, or why the first
/// signature that fails does so. A signature fails when its signer is no
/// validator, when it does not verify, or when the signer signed before;
/// this is looked at in that order.
pub open spec fn tally_signatures(
    v: Seq<ValidatorInfo>,
    signatures: Seq<AuthorSignature>,
    verified: Seq<bool>,
    n: int,
) -> Result<Seq<bool>, VerifyError>
    decreases n,
{
    if n <= 0 {
        Ok(Seq::new(v.len(), |i: int| false))
    } else {
        match tally_signatures(v, signatures, verified, n - 1) {
            Err(e) => Err(e),
            Ok(marks) => {
                let s = signatures[n - 1];
                if !is_validator(v, s.author) {
                    Err(VerifyError::UnknownAuthor)
                } else if !verified[n - 1] {
                    Err(VerifyError::InvalidSignature)
                } else if marks[validator_index(v, s.author)] {
                    Err(VerifyError::DuplicateSignature)
                } else {
                    Ok(marks.update(validator_index(v, s.author), true))
                }
            },
        }
    }
}

/// For each signature of a certificate, whether its signer is a validator
/// and it verifies under the signer's key.
pub open spec fn signature_checks(v: Seq<ValidatorInfo>, qc: QuorumCertView) -> Seq<bool> {
    Seq::new(
        qc.signatures.len(),
        |k: int|
            is_validator(v, qc.signatures[k].author) && ed25519_verifies(
                v[validator_index(v, qc.signatures[k].author)].public_key@,
                vote_message(qc.data),
                qc.signatures[k].signature@,
            ),
    )
}

/// The certificate is the one the chain starts with: it is of round 0,
/// its block is its own parent, it commits nothing and nobody signed it.
pub open spec fn is_genesis_certificate(qc: QuorumCertView) -> bool {
    &&& qc.data.block.round == 0
    &&& qc.data.parent == qc.data.block
    &&& qc.data.commit is None
    &&& qc.signatures.len() == 0
}

/// What verifying a certificate gives. The certificate of genesis is
/// accepted as it is. Any other needs signatures that all pass, from
/// validators that together have the voting power of a quorum.
pub open spec fn check_certificate(v: Seq<ValidatorInfo>, quorum: nat, qc: QuorumCertView) -> Result<
    (),
    VerifyError,
> {
    if is_genesis_certificate(qc) {
        Ok(())
    } else {
        match check_signatures(v, qc.data, qc.signatures, qc.signatures.len() as int) {
            Err(e) => Err(e),
            Ok(marks) => if voted_power(v, marks) >= quorum {
                Ok(())
            } else {
                Err(VerifyError::TooLittleVotingPower)
            },
        }
    }
}

/// What settling a certificate gives, where `verified` says of each
/// signature whether it verifies. The certificate of genesis is accepted
/// as it is. Any other needs signatures that all pass, from validators
/// that together have the voting power of a quorum.
pub open spec fn tally_certificate(
    v: Seq<ValidatorInfo>,
    quorum: nat,
    qc: QuorumCertView,
    verified: Seq<bool>,
) -> Result<(), VerifyError> {
    if is_genesis_certificate(qc) {
        Ok(())
    } else {
        match tally_signatures(v, qc.signatures, verified, qc.signatures.len() as int) {
            Err(e) => Err(e),
            Ok(marks) => if voted_power(v, marks) >= quorum {
                Ok(())
            } else {
                Err(VerifyError::TooLittleVotingPower)
            },
        }
    }
}

/// Settling a certificate on what the check of each signature gives is
/// verifying it.
pub proof fn lemma_tally_is_check(v: Seq<ValidatorInfo>, qc: QuorumCertView, n: int)
    requires
        0 <= n <= qc.signatures.len(),
    ensures
        tally_signatures(v, qc.signatures, signature_checks(v, qc), n) == check_signatures(
            v,
            qc.data,
            qc.signatures,
            n,
        ),
        forall|quorum: nat|
            n == qc.signatures.len() ==> #[trigger] tally_certificate(
                v,
                quorum,
                qc,
                signature_checks(v, qc),
            ) == check_certificate(v, quorum, qc),
    decreases n,
{
    if n > 0 {
        lemma_tally_is_check(v, qc, n - 1);
    }
}

/// Once a signature has failed, settling the certificate fails in the same
/// way however many signatures follow.
pub proof fn lemma_tally_fail(
    v: Seq<ValidatorInfo>,
    signatures: Seq<AuthorSignature>,
    verified: Seq<bool>,
    n: int,
    m: int,
)
    requires
        0 <= n <= m,
        tally_signatures(v, signatures, verified, n) is Err,
    ensures
        tally_signatures(v, signatures, verified, m) == tally_signatures(
            v,
            signatures,
            verified,
            n,
        ),
    decreases m - n,
{
    if n < m {
        lemma_tally_fail(v, signatures, verified, n, m - 1);
    }
}

/// The certificate holds a signature of the validator at `i` that
/// verifies under the validator's key.
pub open spec fn signed_by(v: Seq<ValidatorInfo>, qc: QuorumCertView, i: int) -> bool {
    exists|k: int|
        0 <= k < qc.signatures.len() && (#[trigger] qc.signatures[k]).author == v[i].author
            && ed25519_verifies(
            v[i].public_key@,
            vote_message(qc.data),
            qc.signatures[k].signature@,
        )
}

/// The validators that the check of the first `n` signatures marks have
/// each signed the certificate.
proof fn lemma_marked_have_signed(v: Seq<ValidatorInfo>, qc: QuorumCertView, n: int)
    requires
        0 <= n <= qc.signatures.len(),
        check_signatures(v, qc.data, qc.signatures, n) is Ok,
    ensures
        check_signatures(v, qc.data, qc.signatures, n)->Ok_0.len() == v.len(),
        forall|i: int|
            0 <= i < v.len() && check_signatures(v, qc.data, qc.signatures, n)->Ok_0[i]
                ==> #[trigger] signed_by(v, qc, i),
    decreases n,
{
    if n > 0 {
        lemma_marked_have_signed(v, qc, n - 1);
        let before = check_signatures(v, qc.data, qc.signatures, n - 1)->Ok_0;
        let s = qc.signatures[n - 1];
        let at = validator_index(v, s.author);
        assert(signed_by(v, qc, at));
    }
}

/// A certificate that verifies, and is not the one of genesis, names a
/// quorum: validators that have the voting power of a quorum have each
/// signed it.
pub proof fn lemma_verified_certificate_has_quorum(
    v: Seq<ValidatorInfo>,
    quorum: nat,
    qc: QuorumCertView,
) -> (signers: Seq<bool>)
    requires
        check_certificate(v, quorum, qc) is Ok,
        !is_genesis_certificate(qc),
    ensures
        signers.len() == v.len(),
        voted_power(v, signers) >= quorum,
        forall|i: int| 0 <= i < v.len() && signers[i] ==> #[trigger] signed_by(v, qc, i),
{
    lemma_marked_have_signed(v, qc, qc.signatures.len() as int);
    check_signatures(v, qc.data, qc.signatures, qc.signatures.len() as int)->Ok_0
}

/// The validators of an epoch with their voting power, and the voting
/// power that makes a quorum.
#[derive(Debug)]
pub struct ValidatorVerifier {
    validators: Vec<ValidatorInfo>,
    quorum_voting_power: u64,
    total_voting_power: u64,
}

impl ValidatorVerifier {
    /// The validators, in their order.
    pub closed spec fn validators(&self) -> Seq<ValidatorInfo> {
        self.validators@
    }

    /// The voting power that makes a quorum.
    pub closed spec fn quorum(&self) -> nat {
        self.quorum_voting_power as nat
    }

    /// No validator occurs twice, the voting power of all together fits in
    /// 64 bits, and a quorum does not ask for more than that.
    pub closed spec fn wf(&self) -> bool {
        &&& authors_distinct(self.validators@)
        &&& self.total_voting_power == total_power(self.validators@)
        &&& self.quorum_voting_power <= self.total_voting_power
    }

    #[verifier::type_invariant]
    pub open spec fn inv(&self) -> bool {
        self.wf()
    }

    /// What `wf` says, for those who cannot see inside it.
    pub proof fn lemma_wf(&self)
        requires
            self.wf(),
        ensures
            authors_distinct(self.validators()),
            total_power(self.validators()) <= u64::MAX,
            self.quorum() <= total_power(self.validators()),
    {
    }

    /// The verifier for the given validators and quorum. The list is
    /// refused if a validator occurs twice; else if the voting power of all
    /// does not fit in 64 bits; else if the quorum asks for more voting
    /// power than there is.
    pub fn new(validators: Vec<ValidatorInfo>, quorum_voting_power: u64) -> (r: Result<
        ValidatorVerifier,
        ValidatorSetError,
    >)
        ensures
            r matches Ok(verifier) ==> verifier.wf() && verifier.validators() == validators@
                && verifier.quorum() == quorum_voting_power,
            r is Ok <==> authors_distinct(validators@) && total_power(validators@) <= u64::MAX
                && quorum_voting_power <= total_power(validators@),
            r matches Err(e) ==> e == (if !authors_distinct(validators@) {
                ValidatorSetError::DuplicateAuthor
            } else if total_power(validators@) > u64::MAX {
                ValidatorSetError::PowerOverflow
            } else {
                ValidatorSetError::QuorumUnreachable
            }),
    {
        if !all_distinct(&validators) {
            return Err(ValidatorSetError::DuplicateAuthor);
        }
        let total = match sum_power(&validators) {
            Some(total) => total,
            None => {
                return Err(ValidatorSetError::PowerOverflow);
            },
        };
        if quorum_voting_power > total {
            return Err(ValidatorSetError::QuorumUnreachable);
        }
        Ok(ValidatorVerifier { validators, quorum_voting_power, total_voting_power: total })
    }

    /// The verifier for the given validators with the quorum of the
    /// standard configuration: more than two thirds of the voting power.
    pub fn with_default_quorum(validators: Vec<ValidatorInfo>) -> (r: Result<
        ValidatorVerifier,
        ValidatorSetError,
    >)
        ensures
            r matches Ok(verifier) ==> verifier.wf() && verifier.validators() == validators@
                && verifier.quorum() == default_quorum(total_power(validators@)),
            r is Ok <==> authors_distinct(validators@) && total_power(validators@) <= u64::MAX,
            r matches Err(e) ==> e == (if !authors_distinct(validators@) {
                ValidatorSetError::DuplicateAuthor
            } else {
                ValidatorSetError::PowerOverflow
            }),
    {
        if !all_distinct(&validators) {
            return Err(ValidatorSetError::DuplicateAuthor);
        }
        let total = match sum_power(&validators) {
            Some(total) => total,
            None => {
                return Err(ValidatorSetError::PowerOverflow);
            },
        };
        let quorum = if total == 0 {
            0
        } else {
            let thirds: u64 = total / 3;
            let rest: u64 = total % 3;
            assert(total == 3 * thirds + rest);
            assert((total * 2) / 3 == 2 * thirds + (2 * rest) / 3) by {
                assert(total * 2 == 3 * (2 * thirds) + 2 * rest);
                if rest == 0 {
                    assert((3 * (2 * thirds)) / 3 == 2 * thirds);
                } else if rest == 1 {
                    assert((3 * (2 * thirds) + 2) / 3 == 2 * thirds);
                } else {
                    assert((3 * (2 * thirds) + 4) / 3 == 2 * thirds + 1);
                }
            }
            2 * thirds + (2 * rest) / 3 + 1
        };
        Ok(ValidatorVerifier { validators, quorum_voting_power: quorum, total_voting_power: total })
    }

    /// The number of validators.
    pub fn len(&self) -> (n: usize)
        ensures
            n == self.validators().len(),
            self.wf(),
    {
        proof {
            use_type_invariant(self);
        }
        self.validators.len()
    }

    /// The voting power that makes a quorum.
    pub fn quorum_voting_power(&self) -> (q: u64)
        ensures
            q == self.quorum(),
            self.wf(),
    {
        proof {
            use_type_invariant(self);
        }
        self.quorum_voting_power
    }

    /// The voting power of all validators together.
    pub fn total_voting_power(&self) -> (total: u64)
        ensures
            total == total_power(self.validators()),
            self.wf(),
    {
        proof {
            use_type_invariant(self);
        }
        self.total_voting_power
    }

    /// The validator at index `i`.
    pub fn get(&self, i: usize) -> (info: &ValidatorInfo)
        requires
            i < self.validators().len(),
        ensures
            *info == self.validators()[i as int],
            self.wf(),
    {
        proof {
            use_type_invariant(self);
        }
        &self.validators[i]
    }

    /// The place of `author` among the validators, if it is one.
    pub fn index_of(&self, author: &Author) -> (r: Option<usize>)
        ensures
            self.wf(),
            r is Some <==> is_validator(self.validators(), *author),
            r matches Some(i) ==> i < self.validators().len() && i == validator_index(
                self.validators(),
                *author,
            ) && self.validators()[i as int].author == *author,
    {
        proof {
            use_type_invariant(self);
        }
        let mut i: usize = 0;
        while i < self.validators.len()
            invariant
                i <= self.validators.len(),
                self.wf(),
                forall|j: int| 0 <= j < i ==> (#[trigger] self.validators@[j]).author != *author,
            decreases self.validators.len() - i,
        {
            if self.validators[i].author == *author {
                proof {
                    lemma_validator_index(self.validators@, i as int);
                }
                return Some(i);
            }
            i += 1;
        }
        None
    }

    /// Whether the vote is from a validator and properly signed.
    pub fn verify_vote(&self, vote: &Vote) -> (ok: bool)
        ensures
            ok == vote_is_valid(self.validators(), *vote),
    {
        match self.index_of(&vote.author) {
            None => false,
            Some(i) => {
                let message = vote.data.signing_message();
                verify_signature(
                    &self.validators[i].public_key,
                    message.as_slice(),
                    &vote.signature,
                )
            },
        }
    }

    /// Settles a certificate, given for each of its signatures whether it
    /// verifies under the key of its signer: see `tally_certificate`.
    pub fn tally_quorum_cert(&self, qc: &QuorumCert, verified: &Vec<bool>) -> (r: Result<
        (),
        VerifyError,
    >)
        requires
            verified@.len() == qc.signatures@.len(),
        ensures
            r == tally_certificate(self.validators(), self.quorum(), qc@, verified@),
    {
        proof {
            use_type_invariant(self);
        }
        if qc.data.block.round == 0 && qc.data.parent == qc.data.block && qc.data.commit.is_none()
            && qc.signatures.len() == 0 {
            return Ok(());
        }
        let n = self.validators.len();
        let mut marks: Vec<bool> = Vec::new();
        let mut k: usize = 0;
        while k < n
            invariant
                k <= n,
                marks@.len() == k,
                forall|j: int| 0 <= j < k ==> !marks@[j],
            decreases n - k,
        {
            marks.push(false);
            k += 1;
        }
        assert(marks@ =~= Seq::new(self.validators@.len(), |i: int| false));
        let mut power: u64 = 0;
        proof {
            lemma_voted_power_none(self.validators@, marks@);
        }
        let mut i: usize = 0;
        while i < qc.signatures.len()
            invariant
                i <= qc.signatures.len(),
                verified@.len() == qc.signatures@.len(),
                self.wf(),
                n == self.validators@.len(),
                marks@.len() == n,
                tally_signatures(self.validators@, qc.signatures@, verified@, i as int) == Ok::<
                    Seq<bool>,
                    VerifyError,
                >(marks@),
                power == voted_power(self.validators@, marks@),
                !is_genesis_certificate(qc@),
            decreases qc.signatures.len() - i,
        {
            let s = &qc.signatures[i];
            let at = match self.index_of(&s.author) {
                Some(at) => at,
                None => {
                    proof {
                        lemma_tally_fail(
                            self.validators@,
                            qc.signatures@,
                            verified@,
                            i + 1,
                            qc.signatures@.len() as int,
                        );
                    }
                    return Err(VerifyError::UnknownAuthor);
                },
            };
            if !verified[i] {
                proof {
                    lemma_tally_fail(
                        self.validators@,
                        qc.signatures@,
                        verified@,
                        i + 1,
                        qc.signatures@.len() as int,
                    );
                }
                return Err(VerifyError::InvalidSignature);
            }
            if marks[at] {
                proof {
                    lemma_tally_fail(
                        self.validators@,
                        qc.signatures@,
                        verified@,
                        i + 1,
                        qc.signatures@.len() as int,
                    );
                }
                return Err(VerifyError::DuplicateSignature);
            }
            proof {
                lemma_voted_power_mark(self.validators@, marks@, at as int);
                lemma_voted_power_bound(self.validators@, marks@.update(at as int, true));
            }
            marks.set(at, true);
            power = power + self.validators[at].voting_power;
            i += 1;
        }
        if power >= self.quorum_voting_power {
            Ok(())
        } else {
            Err(VerifyError::TooLittleVotingPower)
        }
    }

    /// Verifies a certificate: every signature is checked against the key
    /// of its signer, and the certificate is settled on what that gives.
    /// See `check_certificate`.
    pub fn verify_quorum_cert(&self, qc: &QuorumCert) -> (r: Result<(), VerifyError>)
        ensures
            r == check_certificate(self.validators(), self.quorum(), qc@),
    {
        let message = qc.data.signing_message();
        let mut verified: Vec<bool> = Vec::new();
        let mut k: usize = 0;
        while k < qc.signatures.len()
            invariant
                k <= qc.signatures.len(),
                message@ == vote_message(qc.data),
                verified@ == signature_checks(self.validators(), qc@).take(k as int),
            decreases qc.signatures.len() - k,
        {
            let s = &qc.signatures[k];
            let ok = match self.index_of(&s.author) {
                Some(at) => verify_signature(
                    &self.validators[at].public_key,
                    message.as_slice(),
                    &s.signature,
                ),
                None => false,
            };
            verified.push(ok);
            k += 1;
            assert(verified@ =~= signature_checks(self.validators(), qc@).take(k as int));
        }
        proof {
            assert(signature_checks(self.validators(), qc@).take(k as int) =~= signature_checks(
                self.validators(),
                qc@,
            ));
            lemma_tally_is_check(self.validators(), qc@, qc.signatures@.len() as int);
        }
        self.tally_quorum_cert(qc, &verified)
    }
}

/// Whether no validator occurs twice in the list.
fn all_distinct(validators: &Vec<ValidatorInfo>) -> (r: bool)
    ensures
        r == authors_distinct(validators@),
{
    let mut j: usize = 0;
    while j < validators.len()
        invariant
            j <= validators.len(),
            forall|a: int, b: int|
                0 <= a < b < j ==> (#[trigger] validators@[a]).author != (
                #[trigger] validators@[b]).author,
        decreases validators.len() - j,
    {
        let mut i: usize = 0;
        while i < j
            invariant
                i <= j,
                j < validators.len(),
                forall|a: int| 0 <= a < i ==> (#[trigger] validators@[a]).author != validators@[j as int].author,
            decreases j - i,
        {
            if validators[i].author == validators[j].author {
                return false;
            }
            i += 1;
        }
        j += 1;
    }
    true
}

/// The voting power of all validators of the list together, if it fits in
/// 64 bits.
fn sum_power(validators: &Vec<ValidatorInfo>) -> (r: Option<u64>)
    ensures
        r is Some <==> total_power(validators@) <= u64::MAX,
        r matches Some(total) ==> total == total_power(validators@),
{
    let mut total: u64 = 0;
    let mut i: usize = 0;
    assert(validators@.take(0) =~= Seq::<ValidatorInfo>::empty());
    while i < validators.len()
        invariant
            i <= validators.len(),
            total == total_power(validators@.take(i as int)),
        decreases validators.len() - i,
    {
        proof {
            let next = validators@.take(i + 1);
            assert(next.drop_last() =~= validators@.take(i as int));
            assert(next.last() == validators@[i as int]);
            lemma_total_power_prefix(validators@, i + 1);
        }
        total = match total.checked_add(validators[i].voting_power) {
            Some(sum) => sum,
            None => {
                return None;
            },
        };
        i += 1;
    }
    assert(validators@.take(i as int) =~= validators@);
    Some(total)
}

} // verus!
