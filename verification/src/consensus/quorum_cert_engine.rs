//! The quorum-certificate engine: it turns the votes that come in into
//! quorum certificates, and remembers the highest certificates it has seen.

use crate::consensus::common::{Author, Round, Signature};
use crate::consensus::signing::ed25519_verifies;
use crate::consensus::validator_verifier::{
    authors_distinct, check_certificate, check_signatures, is_validator, lemma_validator_index,
    lemma_voted_power_bound, lemma_voted_power_mark, lemma_voted_power_none, validator_index,
    vote_is_valid, voted_power, ValidatorInfo, ValidatorVerifier, VerifyError,
};
use crate::consensus::vote::{
    vote_message, AuthorSignature, QuorumCert, QuorumCertView, Vote, VoteData,
};
use vstd::prelude::*;

verus! {

/// The votes for one thing: for each validator, by its index, the
/// signature of its vote if it has voted, and the voting power of those
/// that have.
#[derive(Debug)]
pub struct VoteBucket {
    pub data: VoteData,
    pub votes: Vec<Option<Signature>>,
    pub power: u64,
}

/// The votes for one thing as contracts see them.
pub struct BucketView {
    pub data: VoteData,
    pub votes: Seq<Option<Signature>>,
}

impl View for VoteBucket {
    type V = BucketView;

    open spec fn view(&self) -> BucketView {
        BucketView { data: self.data, votes: self.votes@ }
    }
}

/// For each validator, whether it has voted.
pub open spec fn marks_of(votes: Seq<Option<Signature>>) -> Seq<bool> {
    Seq::new(votes.len(), |i: int| votes[i] is Some)
}

/// Two votes of one validator in one round for different things.
#[derive(Clone, Copy, Debug, Eq)]
pub struct Equivocation {
    pub author: Author,
    pub round: Round,
}

impl PartialEq for Equivocation {
    fn eq(&self, other: &Self) -> (r: bool) {
        self.author == other.author && self.round == other.round
    }
}

impl vstd::std_specs::cmp::PartialEqSpecImpl for Equivocation {
    open spec fn obeys_eq_spec() -> bool {
        true
    }

    open spec fn eq_spec(&self, other: &Self) -> bool {
        *self == *other
    }
}

/// What became of a vote.
#[derive(Debug)]
pub enum VoteReceiptStatus {
    /// The vote counts, and the votes for the same thing do not make a
    /// quorum yet.
    Pending,
    /// The votes for the same thing make a quorum; here is the certificate.
    QCFormed(QuorumCert),
    /// The vote is for a round that is committed already.
    Stale,
    /// The vote is from no validator, or its signature does not verify.
    InvalidSignature,
}

/// What became of a vote, as contracts see it.
pub enum StatusView {
    Pending,
    QCFormed(QuorumCertView),
    Stale,
    InvalidSignature,
}

impl View for VoteReceiptStatus {
    type V = StatusView;

    open spec fn view(&self) -> StatusView {
        match self {
            VoteReceiptStatus::Pending => StatusView::Pending,
            VoteReceiptStatus::QCFormed(qc) => StatusView::QCFormed(qc@),
            VoteReceiptStatus::Stale => StatusView::Stale,
            VoteReceiptStatus::InvalidSignature => StatusView::InvalidSignature,
        }
    }
}

/// The views of the buckets of a list.
pub open spec fn buckets_view(buckets: Seq<VoteBucket>) -> Seq<BucketView> {
    Seq::new(buckets.len(), |i: int| buckets[i]@)
}

/// The signatures of those of the first `n` validators that have voted,
/// each with its author, in the order of the validators.
pub open spec fn collect_signatures(
    v: Seq<ValidatorInfo>,
    votes: Seq<Option<Signature>>,
    n: int,
) -> Seq<AuthorSignature>
    decreases n,
{
    if n <= 0 {
        Seq::empty()
    } else {
        match votes[n - 1] {
            Some(signature) => collect_signatures(v, votes, n - 1).push(
                AuthorSignature { author: v[n - 1].author, signature },
            ),
            None => collect_signatures(v, votes, n - 1),
        }
    }
}

/// Some bucket holds the votes for `data`.
pub open spec fn has_bucket(buckets: Seq<BucketView>, data: VoteData) -> bool {
    exists|b: int| 0 <= b < buckets.len() && (#[trigger] buckets[b]).data == data
}

/// The index of the bucket that holds the votes for `data`.
pub open spec fn bucket_index(buckets: Seq<BucketView>, data: VoteData) -> int {
    choose|b: int| 0 <= b < buckets.len() && (#[trigger] buckets[b]).data == data
}

/// The bucket for `data` in which nobody has voted yet.
pub open spec fn empty_bucket(v: Seq<ValidatorInfo>, data: VoteData) -> BucketView {
    BucketView { data, votes: Seq::new(v.len(), |i: int| None::<Signature>) }
}

/// The bucket with the vote of the validator at index `i` in it. A
/// validator that voted before is not counted again and its first
/// signature stays.
pub open spec fn with_vote(bucket: BucketView, i: int, signature: Signature) -> BucketView {
    if bucket.votes[i] is Some {
        bucket
    } else {
        BucketView { data: bucket.data, votes: bucket.votes.update(i, Some(signature)) }
    }
}

/// The validator at index `i` has voted in the round `round` for something
/// else than `data`.
pub open spec fn voted_otherwise(buckets: Seq<BucketView>, i: int, data: VoteData) -> bool {
    exists|b: int|
        0 <= b < buckets.len() && (#[trigger] buckets[b]).data.block.round == data.block.round
            && buckets[b].data != data && buckets[b].votes[i] is Some
}

/// The certificate that the votes of a bucket make.
pub open spec fn bucket_certificate(v: Seq<ValidatorInfo>, bucket: BucketView) -> QuorumCertView {
    QuorumCertView {
        data: bucket.data,
        signatures: collect_signatures(v, bucket.votes, v.len() as int),
    }
}

/// What a vote does to the engine.
pub struct VoteOutcome {
    /// The buckets after the vote.
    pub buckets: Seq<BucketView>,
    /// What became of the vote.
    pub status: StatusView,
    /// Whether the vote shows that its author voted twice in one round.
    pub equivocated: bool,
}

/// What a vote does, given whether it is valid. A vote that is not valid
/// is refused as `InvalidSignature`. A valid vote for a round that is not
/// above the committed round is `Stale`. Neither changes anything. Any
/// other vote goes into the bucket of what it votes for, which is made at
/// the end of the list where there is none yet. The vote forms a
/// certificate when the bucket then has the voting power of a quorum, and
/// is pending else. It shows an equivocation when it is the first of its
/// author in its bucket and the author has voted for something else in the
/// same round.
pub open spec fn add_vote_step(
    v: Seq<ValidatorInfo>,
    quorum: nat,
    committed_round: Round,
    buckets: Seq<BucketView>,
    vote: Vote,
    valid: bool,
) -> VoteOutcome {
    if !valid || !is_validator(v, vote.author) {
        VoteOutcome { buckets, status: StatusView::InvalidSignature, equivocated: false }
    } else if vote.data.block.round <= committed_round {
        VoteOutcome { buckets, status: StatusView::Stale, equivocated: false }
    } else {
        let i = validator_index(v, vote.author);
        let known = has_bucket(buckets, vote.data);
        let before = if known {
            buckets[bucket_index(buckets, vote.data)]
        } else {
            empty_bucket(v, vote.data)
        };
        let after = with_vote(before, i, vote.signature);
        let next = if known {
            buckets.update(bucket_index(buckets, vote.data), after)
        } else {
            buckets.push(after)
        };
        VoteOutcome {
            buckets: next,
            status: if voted_power(v, marks_of(after.votes)) >= quorum {
                StatusView::QCFormed(bucket_certificate(v, after))
            } else {
                StatusView::Pending
            },
            equivocated: before.votes[i] is None && voted_otherwise(buckets, i, vote.data),
        }
    }
}

/// The round of the block that a certificate commits, or 0 where it
/// commits nothing.
pub open spec fn commit_round(qc: QuorumCertView) -> Round {
    match qc.data.commit {
        Some(info) => info.block.round,
        None => 0,
    }
}

/// The certificate with the higher commit, the first where they commit
/// blocks of one round.
pub open spec fn higher_commit(current: QuorumCertView, seen: QuorumCertView) -> QuorumCertView {
    if commit_round(seen) > commit_round(current) {
        seen
    } else {
        current
    }
}

/// The certificate of the higher round, the first where they are of one
/// round.
pub open spec fn higher_round(current: QuorumCertView, seen: QuorumCertView) -> QuorumCertView {
    if seen.data.block.round > current.data.block.round {
        seen
    } else {
        current
    }
}

/// The highest certificates only go up: neither the round of the higher
/// of two certificates nor the commit of the one with the higher commit is
/// below that of the first.
pub proof fn lemma_highest_only_go_up(current: QuorumCertView, seen: QuorumCertView)
    ensures
        higher_round(current, seen).data.block.round >= current.data.block.round,
        higher_round(current, seen).data.block.round >= seen.data.block.round,
        commit_round(higher_commit(current, seen)) >= commit_round(current),
        commit_round(higher_commit(current, seen)) >= commit_round(seen),
{
}

/// The buckets are in order for the validators `v`: each has a place for
/// every validator, its power is the voting power of the validators that
/// have voted, and no two buckets are for the same thing.
pub open spec fn buckets_wf(v: Seq<ValidatorInfo>, buckets: Seq<VoteBucket>) -> bool {
    &&& forall|b: int|
        0 <= b < buckets.len() ==> {
            &&& (#[trigger] buckets[b]).votes@.len() == v.len()
            &&& buckets[b].power == voted_power(v, marks_of(buckets[b].votes@))
        }
    &&& forall|b: int, c: int|
        0 <= b < c < buckets.len() ==> (#[trigger] buckets[b]).data != (#[trigger] buckets[c]).data
}

/// The signature that a bucket holds for the validator at `i`, if any,
/// verifies under that validator's key.
pub open spec fn vote_signed(v: Seq<ValidatorInfo>, bucket: BucketView, i: int) -> bool {
    bucket.votes[i] matches Some(signature) ==> ed25519_verifies(
        v[i].public_key@,
        vote_message(bucket.data),
        signature@,
    )
}

/// Every signature that a bucket holds verifies under the key of the
/// validator it is held for.
pub open spec fn buckets_signed(v: Seq<ValidatorInfo>, buckets: Seq<BucketView>) -> bool {
    forall|b: int, i: int|
        0 <= b < buckets.len() && 0 <= i < v.len() ==> #[trigger] vote_signed(v, buckets[b], i)
}

/// For each validator, whether it is among the first `n` and has voted.
pub open spec fn marks_below(votes: Seq<Option<Signature>>, n: int) -> Seq<bool> {
    Seq::new(votes.len(), |i: int| i < n && votes[i] is Some)
}

/// The check of the first `k` signatures looks at those signatures only.
proof fn lemma_check_signatures_prefix(
    v: Seq<ValidatorInfo>,
    data: VoteData,
    s1: Seq<AuthorSignature>,
    s2: Seq<AuthorSignature>,
    k: int,
)
    requires
        0 <= k <= s1.len(),
        k <= s2.len(),
        forall|j: int| 0 <= j < k ==> s1[j] == s2[j],
    ensures
        check_signatures(v, data, s1, k) == check_signatures(v, data, s2, k),
    decreases k,
{
    if k > 0 {
        lemma_check_signatures_prefix(v, data, s1, s2, k - 1);
    }
}

/// The signatures that are collected from the votes of the first `n`
/// validators pass the check, and the check marks exactly those of the
/// first `n` validators that have voted.
proof fn lemma_collected_pass(v: Seq<ValidatorInfo>, bucket: BucketView, n: int)
    requires
        authors_distinct(v),
        bucket.votes.len() == v.len(),
        0 <= n <= v.len(),
        forall|i: int| 0 <= i < v.len() ==> #[trigger] vote_signed(v, bucket, i),
    ensures
        check_signatures(
            v,
            bucket.data,
            collect_signatures(v, bucket.votes, n),
            collect_signatures(v, bucket.votes, n).len() as int,
        ) == Ok::<Seq<bool>, VerifyError>(marks_below(bucket.votes, n)),
    decreases n,
{
    let now = collect_signatures(v, bucket.votes, n);
    if n == 0 {
        assert(marks_below(bucket.votes, 0) =~= Seq::new(v.len(), |i: int| false));
    } else {
        lemma_collected_pass(v, bucket, n - 1);
        let before = collect_signatures(v, bucket.votes, n - 1);
        match bucket.votes[n - 1] {
            None => {
                assert(marks_below(bucket.votes, n) =~= marks_below(bucket.votes, n - 1));
            },
            Some(signature) => {
                lemma_check_signatures_prefix(v, bucket.data, now, before, before.len() as int);
                lemma_validator_index(v, n - 1);
                assert(vote_signed(v, bucket, n - 1));
                assert(marks_below(bucket.votes, n) =~= marks_below(bucket.votes, n - 1).update(
                    n - 1,
                    true,
                ));
            },
        }
    }
}

/// A certificate that the engine forms passes verification: where no
/// validator occurs twice, every signature in a bucket verifies, and the
/// validators that voted have the voting power of a quorum, the
/// certificate that the votes of the bucket make is accepted by
/// `check_certificate`.
pub proof fn lemma_formed_certificate_verifies(
    v: Seq<ValidatorInfo>,
    quorum: nat,
    bucket: BucketView,
)
    requires
        authors_distinct(v),
        bucket.votes.len() == v.len(),
        forall|i: int| 0 <= i < v.len() ==> #[trigger] vote_signed(v, bucket, i),
        voted_power(v, marks_of(bucket.votes)) >= quorum,
    ensures
        check_certificate(v, quorum, bucket_certificate(v, bucket)) == Ok::<(), VerifyError>(()),
{
    lemma_collected_pass(v, bucket, v.len() as int);
    assert(marks_below(bucket.votes, v.len() as int) =~= marks_of(bucket.votes));
}

/// The buckets for rounds above `round`, in their order.
pub open spec fn retain_above(buckets: Seq<BucketView>, round: Round) -> Seq<BucketView>
    decreases buckets.len(),
{
    if buckets.len() == 0 {
        Seq::empty()
    } else if buckets[0].data.block.round > round {
        seq![buckets[0]] + retain_above(buckets.drop_first(), round)
    } else {
        retain_above(buckets.drop_first(), round)
    }
}

/// Buckets stay in order when one of them is taken out.
proof fn lemma_buckets_remove(v: Seq<ValidatorInfo>, buckets: Seq<VoteBucket>, i: int)
    requires
        buckets_wf(v, buckets),
        0 <= i < buckets.len(),
    ensures
        buckets_wf(v, buckets.remove(i)),
        buckets_view(buckets.remove(i)) == buckets_view(buckets).remove(i),
        buckets_signed(v, buckets_view(buckets)) ==> buckets_signed(
            v,
            buckets_view(buckets.remove(i)),
        ),
{
    let less = buckets.remove(i);
    assert forall|b: int| 0 <= b < less.len() implies {
        &&& (#[trigger] less[b]).votes@.len() == v.len()
        &&& less[b].power == voted_power(v, marks_of(less[b].votes@))
    } by {
        let from = if b < i { b } else { b + 1 };
        assert(less[b] == buckets[from]);
    }
    assert forall|b: int, c: int| 0 <= b < c < less.len() implies (#[trigger] less[b]).data != (
    #[trigger] less[c]).data by {
        let fb = if b < i { b } else { b + 1 };
        let fc = if c < i { c } else { c + 1 };
        assert(buckets[fb].data != buckets[fc].data);
    }
    assert(buckets_view(less) =~= buckets_view(buckets).remove(i));
    if buckets_signed(v, buckets_view(buckets)) {
        assert forall|b: int, k: int|
            0 <= b < less.len() && 0 <= k < v.len() implies #[trigger] vote_signed(
            v,
            buckets_view(less)[b],
            k,
        ) by {
            let from = if b < i { b } else { b + 1 };
            assert(vote_signed(v, buckets_view(buckets)[from], k));
        }
    }
}

/// Marking the votes of one more validator marks that validator.
proof fn lemma_marks_update(votes: Seq<Option<Signature>>, i: int, signature: Signature)
    requires
        0 <= i < votes.len(),
    ensures
        marks_of(votes.update(i, Some(signature))) == marks_of(votes).update(i, true),
{
    assert(marks_of(votes.update(i, Some(signature))) =~= marks_of(votes).update(i, true));
}

/// The quorum-certificate engine: the votes that have come in, by what
/// they vote for; the round below which votes are stale; the equivocations
/// that the votes have shown; and the highest certificates seen.
#[derive(Debug)]
pub struct QuorumCertEngine {
    verifier: ValidatorVerifier,
    buckets: Vec<VoteBucket>,
    committed_round: Round,
    equivocations: Vec<Equivocation>,
    highest_qc: QuorumCert,
    highest_commit_cert: QuorumCert,
}

impl QuorumCertEngine {
    /// The validators whose votes count.
    pub closed spec fn validators(&self) -> Seq<ValidatorInfo> {
        self.verifier.validators()
    }

    /// The voting power that makes a quorum.
    pub closed spec fn quorum(&self) -> nat {
        self.verifier.quorum()
    }

    /// The votes that have come in, by what they vote for.
    pub closed spec fn buckets(&self) -> Seq<BucketView> {
        buckets_view(self.buckets@)
    }

    /// The round of the committed root: votes for it and below are stale.
    pub closed spec fn committed_round(&self) -> Round {
        self.committed_round
    }

    /// The equivocations that the votes have shown, in the order in which
    /// they showed.
    pub closed spec fn equivocations(&self) -> Seq<Equivocation> {
        self.equivocations@
    }

    /// The certificate of the highest round that the engine has seen.
    pub closed spec fn spec_highest_qc(&self) -> QuorumCertView {
        self.highest_qc@
    }

    /// The certificate with the highest commit that the engine has seen.
    pub closed spec fn spec_highest_commit_cert(&self) -> QuorumCertView {
        self.highest_commit_cert@
    }

    /// The engine is in order: see `buckets_wf`. `new` makes it so and
    /// every method keeps it so.
    pub closed spec fn wf(&self) -> bool {
        &&& self.verifier.wf()
        &&& buckets_wf(self.verifier.validators(), self.buckets@)
    }

    /// Every signature that the engine holds verifies.
    pub open spec fn signed(&self) -> bool {
        buckets_signed(self.validators(), self.buckets())
    }

    /// The engine for the given validators that has seen no vote. It
    /// starts from the certificates and the committed round that the
    /// replica last knew.
    pub fn new(
        verifier: ValidatorVerifier,
        highest_qc: QuorumCert,
        highest_commit_cert: QuorumCert,
        committed_round: Round,
    ) -> (engine: Self)
        ensures
            engine.wf(),
            engine.signed(),
            engine.validators() == verifier.validators(),
            engine.quorum() == verifier.quorum(),
            engine.buckets() == Seq::<BucketView>::empty(),
            engine.committed_round() == committed_round,
            engine.equivocations() == Seq::<Equivocation>::empty(),
            engine.spec_highest_qc() == highest_qc@,
            engine.spec_highest_commit_cert() == highest_commit_cert@,
    {
        proof {
            use_type_invariant(&verifier);
        }
        let engine = QuorumCertEngine {
            verifier,
            buckets: Vec::new(),
            committed_round,
            equivocations: Vec::new(),
            highest_qc,
            highest_commit_cert,
        };
        assert(engine.buckets() =~= Seq::<BucketView>::empty());
        engine
    }

    /// The validators whose votes count.
    pub fn validator_verifier(&self) -> (validators: &ValidatorVerifier)
        ensures
            validators.validators() == self.validators(),
            validators.quorum() == self.quorum(),
    {
        &self.verifier
    }

    /// The certificate of the highest round that the engine has seen. It
    /// never goes down.
    pub fn highest_qc(&self) -> (qc: QuorumCert)
        ensures
            qc@ == self.spec_highest_qc(),
    {
        self.highest_qc.clone()
    }

    /// The certificate with the highest commit that the engine has seen.
    /// It never goes down.
    pub fn highest_commit_cert(&self) -> (qc: QuorumCert)
        ensures
            qc@ == self.spec_highest_commit_cert(),
    {
        self.highest_commit_cert.clone()
    }

    /// The equivocations that the votes have shown.
    pub fn equivocators(&self) -> (list: Vec<Equivocation>)
        ensures
            list@ == self.equivocations(),
    {
        let list = self.equivocations.clone();
        assert(list@ =~= self.equivocations@);
        list
    }

    /// The index of the bucket that holds the votes for `data`, if there
    /// is one.
    fn find_bucket(&self, data: &VoteData) -> (r: Option<usize>)
        requires
            self.wf(),
        ensures
            r is Some <==> has_bucket(self.buckets(), *data),
            r matches Some(b) ==> b < self.buckets().len() && b == bucket_index(
                self.buckets(),
                *data,
            ) && self.buckets()[b as int].data == *data,
    {
        let mut b: usize = 0;
        while b < self.buckets.len()
            invariant
                b <= self.buckets.len(),
                self.wf(),
                forall|c: int| 0 <= c < b ==> (#[trigger] self.buckets@[c]).data != *data,
            decreases self.buckets.len() - b,
        {
            if self.buckets[b].data == *data {
                proof {
                    let views = self.buckets();
                    assert(views[b as int].data == *data);
                    let c = bucket_index(views, *data);
                    assert(views[c].data == self.buckets@[c].data);
                    if c < b {
                        assert(self.buckets@[c].data != self.buckets@[b as int].data);
                    } else if b < c {
                        assert(self.buckets@[b as int].data != self.buckets@[c].data);
                    }
                }
                return Some(b);
            }
            b += 1;
        }
        proof {
            let views = self.buckets();
            if has_bucket(views, *data) {
                let c = bucket_index(views, *data);
                assert(views[c].data == self.buckets@[c].data);
            }
        }
        None
    }

    /// Whether the validator at index `at` has voted in the round of
    /// `data` for something else.
    fn has_voted_otherwise(&self, at: usize, data: &VoteData) -> (r: bool)
        requires
            self.wf(),
            at < self.validators().len(),
        ensures
            r == voted_otherwise(self.buckets(), at as int, *data),
    {
        let mut b: usize = 0;
        while b < self.buckets.len()
            invariant
                b <= self.buckets.len(),
                self.wf(),
                at < self.validators().len(),
                forall|c: int|
                    0 <= c < b ==> !((#[trigger] self.buckets()[c]).data.block.round
                        == data.block.round && self.buckets()[c].data != *data
                        && self.buckets()[c].votes[at as int] is Some),
            decreases self.buckets.len() - b,
        {
            let bucket = &self.buckets[b];
            assert(self.buckets()[b as int] == bucket@);
            if bucket.data.block.round == data.block.round && bucket.data != *data
                && bucket.votes[at].is_some() {
                return true;
            }
            b += 1;
        }
        false
    }

    /// The certificate that the votes of the bucket at `b` make.
    fn form_certificate(&self, b: usize) -> (qc: QuorumCert)
        requires
            self.wf(),
            b < self.buckets().len(),
        ensures
            qc@ == bucket_certificate(self.validators(), self.buckets()[b as int]),
    {
        let bucket = &self.buckets[b];
        assert(self.buckets()[b as int] == bucket@);
        let n = self.verifier.len();
        let mut signatures: Vec<AuthorSignature> = Vec::new();
        let mut i: usize = 0;
        while i < n
            invariant
                i <= n,
                n == self.verifier.validators().len(),
                bucket.votes@.len() == n,
                signatures@ == collect_signatures(self.verifier.validators(), bucket.votes@, i as int),
            decreases n - i,
        {
            match bucket.votes[i] {
                Some(signature) => {
                    let author = self.verifier.get(i).author;
                    signatures.push(AuthorSignature { author, signature });
                },
                None => {},
            }
            i += 1;
        }
        QuorumCert { data: bucket.data, signatures }
    }

    /// Takes note of a certificate that was verified elsewhere: the
    /// highest certificates move up if this one is higher.
    pub fn observe_qc(&mut self, qc: &QuorumCert)
        requires
            old(self).wf(),
        ensures
            final(self).wf(),
            final(self).signed() == old(self).signed(),
            final(self).validators() == old(self).validators(),
            final(self).quorum() == old(self).quorum(),
            final(self).buckets() == old(self).buckets(),
            final(self).committed_round() == old(self).committed_round(),
            final(self).equivocations() == old(self).equivocations(),
            final(self).spec_highest_qc() == higher_round(old(self).spec_highest_qc(), qc@),
            final(self).spec_highest_commit_cert() == higher_commit(
                old(self).spec_highest_commit_cert(),
                qc@,
            ),
    {
        if qc.data.block.round > self.highest_qc.data.block.round {
            self.highest_qc = qc.clone();
        }
        let seen = match qc.data.commit {
            Some(info) => info.block.round,
            None => 0,
        };
        let current = match self.highest_commit_cert.data.commit {
            Some(info) => info.block.round,
            None => 0,
        };
        if seen > current {
            self.highest_commit_cert = qc.clone();
        }
    }

    /// Takes in a vote whose validity the caller has established: see
    /// `add_vote_step`. An equivocation that the vote shows is noted, and
    /// a certificate that the vote forms moves the highest certificates up
    /// if it is higher. Where every signature that the engine holds
    /// verifies and the caller is right about the vote, the certificate
    /// that is formed verifies as well.
    pub fn add_checked_vote(&mut self, vote: &Vote, valid: bool) -> (status: VoteReceiptStatus)
        requires
            old(self).wf(),
        ensures
            final(self).wf(),
            final(self).validators() == old(self).validators(),
            final(self).quorum() == old(self).quorum(),
            final(self).committed_round() == old(self).committed_round(),
            ({
                let out = add_vote_step(
                    old(self).validators(),
                    old(self).quorum(),
                    old(self).committed_round(),
                    old(self).buckets(),
                    *vote,
                    valid,
                );
                &&& final(self).buckets() == out.buckets
                &&& status@ == out.status
                &&& final(self).equivocations() == (if out.equivocated {
                    old(self).equivocations().push(
                        Equivocation { author: vote.author, round: vote.data.block.round },
                    )
                } else {
                    old(self).equivocations()
                })
                &&& final(self).spec_highest_qc() == (match out.status {
                    StatusView::QCFormed(qc) => higher_round(old(self).spec_highest_qc(), qc),
                    _ => old(self).spec_highest_qc(),
                })
                &&& final(self).spec_highest_commit_cert() == (match out.status {
                    StatusView::QCFormed(qc) => higher_commit(
                        old(self).spec_highest_commit_cert(),
                        qc,
                    ),
                    _ => old(self).spec_highest_commit_cert(),
                })
            }),
            old(self).signed() && (valid ==> vote_is_valid(old(self).validators(), *vote))
                ==> final(self).signed(),
            old(self).signed() && (valid ==> vote_is_valid(old(self).validators(), *vote))
                ==> (status@ matches StatusView::QCFormed(qc) ==> check_certificate(
                old(self).validators(),
                old(self).quorum(),
                qc,
            ) == Ok::<(), VerifyError>(())),
    {
        let at = match self.verifier.index_of(&vote.author) {
            Some(at) => at,
            None => {
                return VoteReceiptStatus::InvalidSignature;
            },
        };
        if !valid {
            return VoteReceiptStatus::InvalidSignature;
        }
        if vote.data.block.round <= self.committed_round {
            return VoteReceiptStatus::Stale;
        }
        let ghost v = self.verifier.validators();
        let ghost views = self.buckets();
        let otherwise = self.has_voted_otherwise(at, &vote.data);
        let n = self.verifier.len();
        let b = match self.find_bucket(&vote.data) {
            Some(b) => b,
            None => {
                let mut votes: Vec<Option<Signature>> = Vec::new();
                let mut k: usize = 0;
                while k < n
                    invariant
                        k <= n,
                        votes@.len() == k,
                        forall|j: int| 0 <= j < k ==> votes@[j] is None,
                    decreases n - k,
                {
                    votes.push(None);
                    k += 1;
                }
                proof {
                    lemma_voted_power_none(v, marks_of(votes@));
                    assert(votes@ =~= empty_bucket(v, vote.data).votes);
                    assert forall|c: int| 0 <= c < self.buckets@.len() implies (
                    #[trigger] self.buckets@[c]).data != vote.data by {
                        assert(views[c].data == self.buckets@[c].data);
                    }
                }
                self.buckets.push(VoteBucket { data: vote.data, votes, power: 0 });
                self.buckets.len() - 1
            },
        };
        let ghost known = has_bucket(views, vote.data);
        let ghost before = self.buckets@[b as int]@;
        let ghost staged = self.buckets@;
        assert(before == (if known {
            views[bucket_index(views, vote.data)]
        } else {
            empty_bucket(v, vote.data)
        }));
        assert(buckets_wf(v, staged));
        let newly = self.buckets[b].votes[at].is_none();
        if newly {
            let weight = self.verifier.get(at).voting_power;
            proof {
                self.verifier.lemma_wf();
                lemma_marks_update(before.votes, at as int, vote.signature);
                lemma_voted_power_mark(v, marks_of(before.votes), at as int);
                lemma_voted_power_bound(v, marks_of(before.votes).update(at as int, true));
            }
            self.buckets[b].votes.set(at, Some(vote.signature));
            self.buckets[b].power = self.buckets[b].power + weight;
        }
        let ghost after = with_vote(before, at as int, vote.signature);
        assert(self.buckets@[b as int]@ == after);
        assert(self.buckets@.len() == staged.len());
        assert(forall|c: int|
            0 <= c < staged.len() && c != b ==> self.buckets@[c] == #[trigger] staged[c]);
        assert(buckets_wf(v, self.buckets@));
        let ghost next = if known {
            views.update(bucket_index(views, vote.data), after)
        } else {
            views.push(after)
        };
        assert(self.buckets() =~= next);
        if newly && otherwise {
            self.equivocations.push(
                Equivocation { author: vote.author, round: vote.data.block.round },
            );
        }
        proof {
            if old(self).signed() && (valid ==> vote_is_valid(v, *vote)) {
                assert forall|c: int, i: int|
                    0 <= c < next.len() && 0 <= i < v.len() implies #[trigger] vote_signed(
                    v,
                    next[c],
                    i,
                ) by {
                    if c == b {
                        if i != at || !newly {
                            if known {
                                assert(vote_signed(v, views[c], i));
                            }
                        }
                    } else {
                        assert(vote_signed(v, views[c], i));
                    }
                }
            }
        }
        if self.buckets[b].power >= self.verifier.quorum_voting_power() {
            let qc = self.form_certificate(b);
            proof {
                if old(self).signed() && (valid ==> vote_is_valid(v, *vote)) {
                    self.verifier.lemma_wf();
                    assert forall|i: int| 0 <= i < v.len() implies #[trigger] vote_signed(
                        v,
                        after,
                        i,
                    ) by {
                        assert(vote_signed(v, next[b as int], i));
                    }
                    lemma_formed_certificate_verifies(v, self.verifier.quorum(), after);
                }
            }
            self.observe_qc(&qc);
            VoteReceiptStatus::QCFormed(qc)
        } else {
            VoteReceiptStatus::Pending
        }
    }

    /// Takes in a vote. The signature is checked against the key of the
    /// vote's author: see `vote_is_valid`. What the vote then does is what
    /// `add_vote_step` says for a vote of that validity.
    pub fn add_vote(&mut self, vote: &Vote) -> (status: VoteReceiptStatus)
        requires
            old(self).wf(),
        ensures
            final(self).wf(),
            final(self).validators() == old(self).validators(),
            final(self).quorum() == old(self).quorum(),
            final(self).committed_round() == old(self).committed_round(),
            ({
                let out = add_vote_step(
                    old(self).validators(),
                    old(self).quorum(),
                    old(self).committed_round(),
                    old(self).buckets(),
                    *vote,
                    vote_is_valid(old(self).validators(), *vote),
                );
                &&& final(self).buckets() == out.buckets
                &&& status@ == out.status
                &&& final(self).equivocations() == (if out.equivocated {
                    old(self).equivocations().push(
                        Equivocation { author: vote.author, round: vote.data.block.round },
                    )
                } else {
                    old(self).equivocations()
                })
                &&& final(self).spec_highest_qc() == (match out.status {
                    StatusView::QCFormed(qc) => higher_round(old(self).spec_highest_qc(), qc),
                    _ => old(self).spec_highest_qc(),
                })
                &&& final(self).spec_highest_commit_cert() == (match out.status {
                    StatusView::QCFormed(qc) => higher_commit(
                        old(self).spec_highest_commit_cert(),
                        qc,
                    ),
                    _ => old(self).spec_highest_commit_cert(),
                })
            }),
            old(self).signed() ==> final(self).signed(),
            old(self).signed() ==> (status@ matches StatusView::QCFormed(qc) ==> check_certificate(
                old(self).validators(),
                old(self).quorum(),
                qc,
            ) == Ok::<(), VerifyError>(())),
    {
        let valid = self.verifier.verify_vote(vote);
        self.add_checked_vote(vote, valid)
    }

    /// Takes note that the root is committed at the round `round`: the
    /// committed round moves up to it, if it is higher, and the votes for
    /// rounds that are not above the committed round are dropped.
    pub fn prune(&mut self, round: Round)
        requires
            old(self).wf(),
        ensures
            final(self).wf(),
            old(self).signed() ==> final(self).signed(),
            final(self).validators() == old(self).validators(),
            final(self).quorum() == old(self).quorum(),
            final(self).equivocations() == old(self).equivocations(),
            final(self).spec_highest_qc() == old(self).spec_highest_qc(),
            final(self).spec_highest_commit_cert() == old(self).spec_highest_commit_cert(),
            final(self).committed_round() == (if round > old(self).committed_round() {
                round
            } else {
                old(self).committed_round()
            }),
            final(self).buckets() == retain_above(old(self).buckets(), final(self).committed_round()),
    {
        if round > self.committed_round {
            self.committed_round = round;
        }
        let ghost v = self.verifier.validators();
        let ghost views = self.buckets();
        let mut i: usize = self.buckets.len();
        assert(views.take(i as int) + retain_above(views.skip(i as int), self.committed_round)
            =~= views) by {
            assert(views.skip(i as int) =~= Seq::<BucketView>::empty());
        }
        while i > 0
            invariant
                i <= self.buckets@.len(),
                i <= views.len(),
                self.verifier == old(self).verifier,
                self.verifier.wf(),
                v == self.verifier.validators(),
                buckets_wf(v, self.buckets@),
                buckets_signed(v, views) ==> buckets_signed(v, buckets_view(self.buckets@)),
                buckets_view(self.buckets@) == views.take(i as int) + retain_above(
                    views.skip(i as int),
                    self.committed_round,
                ),
                self.committed_round == (if round > old(self).committed_round {
                    round
                } else {
                    old(self).committed_round
                }),
                self.equivocations == old(self).equivocations,
                self.highest_qc == old(self).highest_qc,
                self.highest_commit_cert == old(self).highest_commit_cert,
            decreases i,
        {
            i -= 1;
            let ghost staged = self.buckets@;
            proof {
                assert(views.skip(i as int).drop_first() =~= views.skip(i + 1));
                assert(buckets_view(staged)[i as int] == views[i as int]);
            }
            if self.buckets[i].data.block.round <= self.committed_round {
                proof {
                    lemma_buckets_remove(v, staged, i as int);
                }
                self.buckets.remove(i);
                assert(buckets_view(self.buckets@) =~= views.take(i as int) + retain_above(
                    views.skip(i as int),
                    self.committed_round,
                ));
            } else {
                assert(buckets_view(self.buckets@) =~= views.take(i as int) + retain_above(
                    views.skip(i as int),
                    self.committed_round,
                ));
            }
        }
        assert(views.skip(0) =~= views);
        assert(views.take(0) + retain_above(views, self.committed_round) =~= retain_above(
            views,
            self.committed_round,
        ));
    }
}

} // verus!
