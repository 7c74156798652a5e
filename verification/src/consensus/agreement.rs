//! Agreement: why replicas that vote by the safety rules never commit
//! blocks of two branches, whatever the faulty replicas do.
//!
//! A world holds the validators, the votes that were ever cast, and the
//! state of the safety rules of every replica. Honest replicas vote only
//! as `vote_decision` allows and keep their state as `state_after_vote`
//! says, which is what `SafetyRules::should_vote` does; faulty replicas
//! vote as they please. Certificates are counted with the voting power
//! that `check_certificate` counts, and blocks commit by the 3-chain rule
//! of `commit_decision`.
//!
//! Two things are taken for granted and proved nowhere. A signature that
//! verifies under the key of a validator was made by that validator, so
//! that the signers of a certificate that verifies have voted for what it
//! certifies: see `signers_have_voted`. And the faulty
//! validators have so little voting power that two quorums have more
//! than all validators and the faulty ones together, as they do where a
//! quorum is more than two thirds and the faulty ones are less than one
//! third.

use crate::consensus::block::Block;
use crate::consensus::quorum_cert_engine::higher_round;
use crate::consensus::safety_rules::{
    commit_decision, state_after_vote, vote_decision, LivenessView,
};
use crate::consensus::validator_verifier::{
    check_certificate, default_quorum, is_genesis_certificate,
    lemma_verified_certificate_has_quorum, lemma_voted_power_bound, signed_by, total_power,
    voted_power, ValidatorInfo,
};
use crate::consensus::timeout::TimeoutCertificateView;
use crate::consensus::vote::{QuorumCertView, VoteData};
use vstd::prelude::*;

verus! {

/// For each validator, whether it is marked in both lists.
pub open spec fn marks_and(a: Seq<bool>, b: Seq<bool>) -> Seq<bool> {
    Seq::new(a.len(), |i: int| a[i] && b[i])
}

/// For each validator, whether it is marked in one of the lists.
pub open spec fn marks_or(a: Seq<bool>, b: Seq<bool>) -> Seq<bool> {
    Seq::new(a.len(), |i: int| a[i] || b[i])
}

/// The power of two sets of validators together is the power of their
/// union and of what they share.
pub proof fn lemma_power_or_and(v: Seq<ValidatorInfo>, a: Seq<bool>, b: Seq<bool>)
    requires
        a.len() == v.len(),
        b.len() == v.len(),
    ensures
        voted_power(v, a) + voted_power(v, b) == voted_power(v, marks_or(a, b)) + voted_power(
            v,
            marks_and(a, b),
        ),
    decreases v.len(),
{
    if v.len() > 0 {
        lemma_power_or_and(v.drop_last(), a.drop_last(), b.drop_last());
        assert(marks_or(a, b).drop_last() =~= marks_or(a.drop_last(), b.drop_last()));
        assert(marks_and(a, b).drop_last() =~= marks_and(a.drop_last(), b.drop_last()));
    }
}

/// A set of validators has no more power than a set that holds it.
pub proof fn lemma_power_monotone(v: Seq<ValidatorInfo>, a: Seq<bool>, b: Seq<bool>)
    requires
        a.len() == v.len(),
        b.len() == v.len(),
        forall|i: int| 0 <= i < a.len() && a[i] ==> b[i],
    ensures
        voted_power(v, a) <= voted_power(v, b),
    decreases v.len(),
{
    if v.len() > 0 {
        lemma_power_monotone(v.drop_last(), a.drop_last(), b.drop_last());
    }
}

/// Two sets of validators that have more power together than all
/// validators and a third set have a validator in common that is not in
/// the third set.
pub proof fn lemma_sets_intersect(v: Seq<ValidatorInfo>, a: Seq<bool>, b: Seq<bool>, f: Seq<bool>)
    requires
        a.len() == v.len(),
        b.len() == v.len(),
        f.len() == v.len(),
        voted_power(v, a) + voted_power(v, b) > total_power(v) + voted_power(v, f),
    ensures
        exists|i: int| 0 <= i < v.len() && a[i] && b[i] && !f[i],
{
    if !(exists|i: int| 0 <= i < v.len() && a[i] && b[i] && !f[i]) {
        lemma_power_or_and(v, a, b);
        lemma_voted_power_bound(v, marks_or(a, b));
        lemma_power_monotone(v, marks_and(a, b), f);
    }
}

/// With the quorum of the standard configuration, faulty validators that
/// have less than a third of the voting power leave two quorums with more
/// power than all validators and the faulty ones together.
pub proof fn lemma_default_quorum_suffices(total: nat, faulty: nat)
    requires
        3 * faulty < total,
    ensures
        2 * default_quorum(total) > total + faulty,
{
    let thirds = (total * 2) / 3;
    assert(3 * thirds + 2 >= total * 2) by {
        assert(total * 2 == 3 * thirds + (total * 2) % 3);
    }
}

/// One vote: the index of the validator that cast it, and what it is for.
pub struct CastVote {
    pub voter: int,
    pub data: VoteData,
}

/// All replicas together: the validators with their voting power, the
/// voting power that makes a quorum, which of the validators are honest,
/// what the certificate of genesis certifies, every vote that was ever
/// cast, and the state of the safety rules of every replica.
pub struct World {
    pub validators: Seq<ValidatorInfo>,
    pub quorum: nat,
    pub honest: Seq<bool>,
    pub genesis: VoteData,
    pub votes: Set<CastVote>,
    pub states: Seq<LivenessView>,
}

impl World {
    /// For each validator, whether it has voted for `data`.
    pub open spec fn voters(self, data: VoteData) -> Seq<bool> {
        Seq::new(self.validators.len(), |i: int| self.votes.contains(CastVote { voter: i, data }))
    }

    /// For each validator, whether it is faulty.
    pub open spec fn faulty(self) -> Seq<bool> {
        Seq::new(self.validators.len(), |i: int| !self.honest[i])
    }

    /// The validators that have voted for `data` have the voting power of
    /// a quorum.
    pub open spec fn quorum_voted(self, data: VoteData) -> bool {
        voted_power(self.validators, self.voters(data)) >= self.quorum
    }

    /// There is a certificate for `data`: it is what the certificate of
    /// genesis certifies, or a quorum has voted for it.
    pub open spec fn certified(self, data: VoteData) -> bool {
        data == self.genesis || self.quorum_voted(data)
    }

    /// A replica takes the certificate for good: a quorum has voted for
    /// what it certifies, or it has the shape of the certificate of
    /// genesis. This is what `check_certificate` accepts, where every
    /// signature that verifies counts as a vote of its signer.
    pub open spec fn accepts(self, qc: QuorumCertView) -> bool {
        self.quorum_voted(qc.data) || is_genesis_certificate(qc)
    }

    /// The world is set up for agreement: every validator is honest or
    /// not and has a state; two quorums have more voting power together
    /// than all validators and the faulty ones; and genesis is of round 0
    /// and its own parent.
    pub open spec fn configured(self) -> bool {
        &&& self.honest.len() == self.validators.len()
        &&& self.states.len() == self.validators.len()
        &&& 2 * self.quorum > total_power(self.validators) + voted_power(
            self.validators,
            self.faulty(),
        )
        &&& self.genesis.block.round == 0
        &&& self.genesis.parent == self.genesis.block
    }

    /// The validator at `i` is honest and has voted for `data`.
    pub open spec fn honest_vote(self, i: int, data: VoteData) -> bool {
        &&& 0 <= i < self.validators.len()
        &&& self.honest[i]
        &&& self.votes.contains(CastVote { voter: i, data })
    }

    /// The parent that a vote names is certified.
    pub open spec fn parent_certified(self, data: VoteData) -> bool {
        exists|e: VoteData| #[trigger] self.certified(e) && e.block == data.parent
    }

    /// What holds of the votes of the honest replicas at all times. Each
    /// has voted once in a round at most, and in no round after the last
    /// that its state names. Each of its votes names a certified parent of
    /// a lower round than the block, and of no higher round than its lock.
    /// Of two of its votes the one for the later round names the parent of
    /// the round that is no lower. And its lock is certified.
    pub open spec fn safe(self) -> bool {
        &&& self.configured()
        &&& forall|i: int, d: VoteData| #[trigger]
            self.honest_vote(i, d) ==> {
                &&& d.block.round <= self.states[i].last_voted_round
                &&& d.parent.round < d.block.round
                &&& d.parent.round <= self.states[i].highest_qc.data.block.round
                &&& self.parent_certified(d)
            }
        &&& forall|i: int, d: VoteData, e: VoteData|
            #[trigger] self.honest_vote(i, d) && #[trigger] self.honest_vote(i, e)
                && d.block.round == e.block.round ==> d == e
        &&& forall|i: int, d: VoteData, e: VoteData|
            #[trigger] self.honest_vote(i, d) && #[trigger] self.honest_vote(i, e)
                && d.block.round < e.block.round ==> d.parent.round <= e.parent.round
        &&& forall|i: int|
            0 <= i < self.validators.len() && self.honest[i] ==> self.certified(
                (#[trigger] self.states[i]).highest_qc.data,
            )
    }

    /// The world before anything has happened: nobody has voted, and every
    /// replica has voted in no round and is locked on genesis.
    pub open spec fn initial(self) -> bool {
        &&& self.configured()
        &&& self.votes == Set::<CastVote>::empty()
        &&& forall|i: int|
            0 <= i < self.states.len() ==> (#[trigger] self.states[i]).last_voted_round == 0
                && self.states[i].highest_qc.data == self.genesis
    }

    /// The same validators, quorum, honesty and genesis.
    pub open spec fn same_setup(self, next: World) -> bool {
        &&& next.validators == self.validators
        &&& next.quorum == self.quorum
        &&& next.honest == self.honest
        &&& next.genesis == self.genesis
    }

    /// An honest replica votes: the replica at `i` takes the certificate
    /// `qc` for good, its safety rules allow the vote for `block`, which
    /// comes with that certificate, and it casts the vote `data` for the
    /// block and the parent that the rules name. Its state is the state
    /// after the vote.
    pub open spec fn votes_honestly<T>(
        self,
        next: World,
        i: int,
        block: Block<T>,
        qc: QuorumCertView,
        data: VoteData,
    ) -> bool {
        &&& self.same_setup(next)
        &&& 0 <= i < self.validators.len()
        &&& self.honest[i]
        &&& self.accepts(qc)
        &&& vote_decision(self.states[i], block, qc) matches Ok(proposal)
        &&& data.block == proposal.block
        &&& data.parent == proposal.parent
        &&& next.votes == self.votes.insert(CastVote { voter: i, data })
        &&& next.states == self.states.update(
            i,
            state_after_vote(self.states[i], block.round, qc),
        )
    }

    /// An honest replica takes note of a certificate that it takes for
    /// good: its lock moves up to it if it is of a higher round.
    pub open spec fn observes(self, next: World, i: int, qc: QuorumCertView) -> bool {
        &&& self.same_setup(next)
        &&& 0 <= i < self.validators.len()
        &&& self.honest[i]
        &&& self.accepts(qc)
        &&& next.votes == self.votes
        &&& next.states == self.states.update(
            i,
            LivenessView {
                highest_qc: higher_round(self.states[i].highest_qc, qc),
                ..self.states[i]
            },
        )
    }

    /// An honest replica takes note of a timeout certificate: of its
    /// state nothing but the timeout certificate that it keeps changes.
    pub open spec fn observes_timeout(
        self,
        next: World,
        i: int,
        kept: Option<TimeoutCertificateView>,
    ) -> bool {
        &&& self.same_setup(next)
        &&& 0 <= i < self.validators.len()
        &&& self.honest[i]
        &&& next.votes == self.votes
        &&& next.states == self.states.update(
            i,
            LivenessView { highest_timeout_cert: kept, ..self.states[i] },
        )
    }

    /// A faulty replica votes for whatever it likes, and its state is
    /// whatever it likes.
    pub open spec fn votes_faultily(
        self,
        next: World,
        i: int,
        data: VoteData,
        state: LivenessView,
    ) -> bool {
        &&& self.same_setup(next)
        &&& 0 <= i < self.validators.len()
        &&& !self.honest[i]
        &&& next.votes == self.votes.insert(CastVote { voter: i, data })
        &&& next.states == self.states.update(i, state)
    }

    /// The block that `data` is for is committed: there is a 3-chain of
    /// certificates that starts with the one for it.
    pub open spec fn committed(self, data: VoteData) -> bool {
        exists|d1: VoteData, d2: VoteData|
            {
                &&& self.certified(data)
                &&& #[trigger] self.certified(d1)
                &&& #[trigger] self.certified(d2)
                &&& d1.parent == data.block
                &&& d2.parent == d1.block
                &&& data.block.round + 1 == d1.block.round
                &&& d1.block.round + 1 == d2.block.round
            }
    }

    /// The certified blocks of the list make a chain: each is the parent
    /// of the next and of a lower round.
    pub open spec fn chain(self, path: Seq<VoteData>) -> bool {
        &&& path.len() >= 1
        &&& forall|k: int| 0 <= k < path.len() ==> self.certified(#[trigger] path[k])
        &&& forall|k: int|
            1 <= k < path.len() ==> (#[trigger] path[k]).parent == path[k - 1].block && path[k
                - 1].block.round < path[k].block.round
    }

    /// The block that `data` is for is the block that `ancestor` is for or
    /// descends from it by a chain of certified blocks.
    pub open spec fn extends(self, data: VoteData, ancestor: VoteData) -> bool {
        exists|path: Seq<VoteData>| #[trigger]
            self.chain(path) && path[0] == ancestor && path.last() == data
    }
}

/// Whoever has signed the certificate has voted for what it certifies.
/// This holds as long as nobody signs in the name of another.
pub open spec fn signers_have_voted(w: World, qc: QuorumCertView) -> bool {
    forall|i: int|
        0 <= i < w.validators.len() && #[trigger] signed_by(w.validators, qc, i)
            ==> w.votes.contains(CastVote { voter: i, data: qc.data })
}

/// A certificate that verifies is one that the world takes for good, as
/// long as its signers have voted for what it certifies.
pub proof fn lemma_verified_certificate_is_accepted(w: World, qc: QuorumCertView)
    requires
        check_certificate(w.validators, w.quorum, qc) is Ok,
        signers_have_voted(w, qc),
    ensures
        w.accepts(qc),
{
    if !is_genesis_certificate(qc) {
        let signers = lemma_verified_certificate_has_quorum(w.validators, w.quorum, qc);
        assert forall|i: int| 0 <= i < signers.len() && signers[i] implies w.voters(qc.data)[i] by {
            assert(signed_by(w.validators, qc, i));
        }
        lemma_power_monotone(w.validators, signers, w.voters(qc.data));
    }
}

/// What the commit rule commits is committed in the world: where
/// `commit_decision` finds a 3-chain at the end of a chain of certificates
/// and what the three certify is certified in the world, the block that it
/// names is committed there.
pub proof fn lemma_commit_rule_commits(w: World, chain: Seq<QuorumCertView>)
    requires
        commit_decision(chain) is Some,
        chain.len() >= 3 ==> w.certified(chain[chain.len() - 3].data) && w.certified(
            chain[chain.len() - 2].data,
        ) && w.certified(chain[chain.len() - 1].data),
    ensures
        chain.len() >= 3,
        w.committed(chain[chain.len() - 3].data),
        commit_decision(chain)->Some_0.block == chain[chain.len() - 3].data.block,
{
    let d0 = chain[chain.len() - 3].data;
    let d1 = chain[chain.len() - 2].data;
    let d2 = chain[chain.len() - 1].data;
    assert(w.certified(d1) && w.certified(d2));
}

/// Two quorums share an honest voter: where quorums have voted for `a`
/// and for `b`, some honest validator has voted for both.
pub proof fn lemma_quorums_share_honest_voter(w: World, a: VoteData, b: VoteData) -> (i: int)
    requires
        w.configured(),
        w.quorum_voted(a),
        w.quorum_voted(b),
    ensures
        w.honest_vote(i, a),
        w.honest_vote(i, b),
{
    lemma_sets_intersect(w.validators, w.voters(a), w.voters(b), w.faulty());
    let i = choose|i: int|
        0 <= i < w.validators.len() && w.voters(a)[i] && w.voters(b)[i] && !w.faulty()[i];
    i
}

/// What a quorum has voted for is of round 1 at least, and is not what
/// the certificate of genesis certifies.
pub proof fn lemma_quorum_is_above_genesis(w: World, d: VoteData)
    requires
        w.safe(),
        w.quorum_voted(d),
    ensures
        d.block.round >= 1,
        d != w.genesis,
        d.parent.round < d.block.round,
        w.parent_certified(d),
{
    let i = lemma_quorums_share_honest_voter(w, d, d);
    assert(w.honest_vote(i, d));
}

/// In a round at most one block is certified, with one parent.
pub proof fn lemma_one_certificate_in_a_round(w: World, d: VoteData, e: VoteData)
    requires
        w.safe(),
        w.certified(d),
        w.certified(e),
        d.block.round == e.block.round,
    ensures
        d == e,
{
    if w.quorum_voted(d) {
        lemma_quorum_is_above_genesis(w, d);
    }
    if w.quorum_voted(e) {
        lemma_quorum_is_above_genesis(w, e);
    }
    if d != w.genesis && e != w.genesis {
        let i = lemma_quorums_share_honest_voter(w, d, e);
        assert(w.honest_vote(i, d) && w.honest_vote(i, e));
    }
}

/// Votes that are cast stay cast: what is certified stays certified when
/// votes are added.
pub proof fn lemma_certified_stays(w: World, next: World, d: VoteData)
    requires
        w.same_setup(next),
        w.votes.subset_of(next.votes),
    ensures
        w.quorum_voted(d) ==> next.quorum_voted(d),
        w.certified(d) ==> next.certified(d),
        w.parent_certified(d) ==> next.parent_certified(d),
{
    assert forall|e: VoteData| w.quorum_voted(e) implies next.quorum_voted(e) by {
        lemma_power_monotone(w.validators, w.voters(e), next.voters(e));
    }
    if w.parent_certified(d) {
        let e = choose|e: VoteData| #[trigger] w.certified(e) && e.block == d.parent;
        assert(next.certified(e));
    }
}

/// The world is safe before anything has happened.
pub proof fn lemma_initial_world_is_safe(w: World)
    requires
        w.initial(),
    ensures
        w.safe(),
{
    assert forall|i: int| 0 <= i < w.validators.len() && w.honest[i] implies w.certified(
        (#[trigger] w.states[i]).highest_qc.data,
    ) by {}
}

/// A certificate that an honest replica takes for good and that its lock
/// lets pass is for a block that is certified, and is of no lower round
/// than the lock.
proof fn lemma_accepted_parent_is_certified(w: World, i: int, qc: QuorumCertView)
    requires
        w.safe(),
        0 <= i < w.validators.len(),
        w.honest[i],
        w.accepts(qc),
        qc.data.block == w.states[i].highest_qc.data.block || qc.data.block.round
            > w.states[i].highest_qc.data.block.round,
    ensures
        exists|e: VoteData| #[trigger] w.certified(e) && e.block == qc.data.block,
        qc.data.block.round >= w.states[i].highest_qc.data.block.round,
{
    let lock = w.states[i].highest_qc.data;
    assert(w.certified(lock));
    if w.quorum_voted(qc.data) {
        assert(w.certified(qc.data));
    } else {
        assert(qc.data.block == lock.block);
    }
}

/// A safe world stays safe when an honest replica votes.
pub proof fn lemma_honest_vote_keeps_safe<T>(
    w: World,
    next: World,
    i: int,
    block: Block<T>,
    qc: QuorumCertView,
    data: VoteData,
)
    requires
        w.safe(),
        w.votes_honestly(next, i, block, qc, data),
    ensures
        next.safe(),
{
    let cast = CastVote { voter: i, data };
    let old_state = w.states[i];
    let new_state = state_after_vote(old_state, block.round, qc);
    lemma_accepted_parent_is_certified(w, i, qc);
    let parent = choose|e: VoteData| #[trigger] w.certified(e) && e.block == qc.data.block;
    lemma_certified_stays(w, next, parent);
    assert(next.faulty() =~= w.faulty());
    assert forall|j: int, d: VoteData| #[trigger] next.honest_vote(j, d) implies {
        &&& d.block.round <= next.states[j].last_voted_round
        &&& d.parent.round < d.block.round
        &&& d.parent.round <= next.states[j].highest_qc.data.block.round
        &&& next.parent_certified(d)
    } by {
        if j == i && d == data {
            assert(next.certified(parent));
        } else {
            assert(w.votes.contains(CastVote { voter: j, data: d }));
            assert(w.honest_vote(j, d));
            lemma_certified_stays(w, next, d);
        }
    }
    assert forall|j: int, d: VoteData, e: VoteData|
        #[trigger] next.honest_vote(j, d) && #[trigger] next.honest_vote(j, e) && d.block.round
            == e.block.round implies d == e by {
        if !(j == i && d == data) {
            assert(w.honest_vote(j, d));
        }
        if !(j == i && e == data) {
            assert(w.honest_vote(j, e));
        }
    }
    assert forall|j: int, d: VoteData, e: VoteData|
        #[trigger] next.honest_vote(j, d) && #[trigger] next.honest_vote(j, e) && d.block.round
            < e.block.round implies d.parent.round <= e.parent.round by {
        if !(j == i && d == data) {
            assert(w.honest_vote(j, d));
        }
        if !(j == i && e == data) {
            assert(w.honest_vote(j, e));
        }
    }
    assert forall|j: int| 0 <= j < next.validators.len() && next.honest[j] implies next.certified(
        (#[trigger] next.states[j]).highest_qc.data,
    ) by {
        if j == i {
            if qc.data.block.round > old_state.highest_qc.data.block.round {
                assert(w.quorum_voted(qc.data));
                lemma_certified_stays(w, next, qc.data);
            } else {
                assert(w.certified(w.states[i].highest_qc.data));
                lemma_certified_stays(w, next, old_state.highest_qc.data);
            }
        } else {
            assert(w.certified(w.states[j].highest_qc.data));
            lemma_certified_stays(w, next, w.states[j].highest_qc.data);
        }
    }
}

/// A safe world stays safe when an honest replica takes note of a
/// certificate.
pub proof fn lemma_observing_keeps_safe(w: World, next: World, i: int, qc: QuorumCertView)
    requires
        w.safe(),
        w.observes(next, i, qc),
    ensures
        next.safe(),
{
    assert(next.faulty() =~= w.faulty());
    assert forall|j: int, d: VoteData| #[trigger] next.honest_vote(j, d) implies {
        &&& d.block.round <= next.states[j].last_voted_round
        &&& d.parent.round < d.block.round
        &&& d.parent.round <= next.states[j].highest_qc.data.block.round
        &&& next.parent_certified(d)
    } by {
        assert(w.honest_vote(j, d));
        lemma_certified_stays(w, next, d);
    }
    assert forall|j: int, d: VoteData, e: VoteData|
        #[trigger] next.honest_vote(j, d) && #[trigger] next.honest_vote(j, e) implies (
        d.block.round == e.block.round ==> d == e) && (d.block.round < e.block.round
            ==> d.parent.round <= e.parent.round) by {
        assert(w.honest_vote(j, d));
        assert(w.honest_vote(j, e));
    }
    assert forall|j: int| 0 <= j < next.validators.len() && next.honest[j] implies next.certified(
        (#[trigger] next.states[j]).highest_qc.data,
    ) by {
        assert(w.certified(w.states[j].highest_qc.data));
        lemma_certified_stays(w, next, w.states[j].highest_qc.data);
        if j == i && qc.data.block.round > w.states[i].highest_qc.data.block.round {
            assert(w.quorum_voted(qc.data));
            lemma_certified_stays(w, next, qc.data);
        }
    }
}

/// A safe world stays safe when an honest replica takes note of a
/// timeout certificate.
pub proof fn lemma_timeout_keeps_safe(
    w: World,
    next: World,
    i: int,
    kept: Option<TimeoutCertificateView>,
)
    requires
        w.safe(),
        w.observes_timeout(next, i, kept),
    ensures
        next.safe(),
{
    assert(next.faulty() =~= w.faulty());
    assert forall|j: int, d: VoteData| #[trigger] next.honest_vote(j, d) implies {
        &&& d.block.round <= next.states[j].last_voted_round
        &&& d.parent.round < d.block.round
        &&& d.parent.round <= next.states[j].highest_qc.data.block.round
        &&& next.parent_certified(d)
    } by {
        assert(w.honest_vote(j, d));
        lemma_certified_stays(w, next, d);
    }
    assert forall|j: int, d: VoteData, e: VoteData|
        #[trigger] next.honest_vote(j, d) && #[trigger] next.honest_vote(j, e) implies (
        d.block.round == e.block.round ==> d == e) && (d.block.round < e.block.round
            ==> d.parent.round <= e.parent.round) by {
        assert(w.honest_vote(j, d));
        assert(w.honest_vote(j, e));
    }
    assert forall|j: int| 0 <= j < next.validators.len() && next.honest[j] implies next.certified(
        (#[trigger] next.states[j]).highest_qc.data,
    ) by {
        assert(w.certified(w.states[j].highest_qc.data));
        lemma_certified_stays(w, next, w.states[j].highest_qc.data);
    }
}

/// A safe world stays safe when a faulty replica votes.
pub proof fn lemma_faulty_vote_keeps_safe(
    w: World,
    next: World,
    i: int,
    data: VoteData,
    state: LivenessView,
)
    requires
        w.safe(),
        w.votes_faultily(next, i, data, state),
    ensures
        next.safe(),
{
    assert(next.faulty() =~= w.faulty());
    assert forall|j: int, d: VoteData| #[trigger] next.honest_vote(j, d) implies {
        &&& d.block.round <= next.states[j].last_voted_round
        &&& d.parent.round < d.block.round
        &&& d.parent.round <= next.states[j].highest_qc.data.block.round
        &&& next.parent_certified(d)
    } by {
        assert(w.honest_vote(j, d));
        lemma_certified_stays(w, next, d);
    }
    assert forall|j: int, d: VoteData, e: VoteData|
        #[trigger] next.honest_vote(j, d) && #[trigger] next.honest_vote(j, e) implies (
        d.block.round == e.block.round ==> d == e) && (d.block.round < e.block.round
            ==> d.parent.round <= e.parent.round) by {
        assert(w.honest_vote(j, d));
        assert(w.honest_vote(j, e));
    }
    assert forall|j: int| 0 <= j < next.validators.len() && next.honest[j] implies next.certified(
        (#[trigger] next.states[j]).highest_qc.data,
    ) by {
        assert(w.certified(w.states[j].highest_qc.data));
        lemma_certified_stays(w, next, w.states[j].highest_qc.data);
    }
}

/// Once a block and its child of the next round are both certified,
/// every certified block of a later round than the first descends from it.
pub proof fn lemma_certified_blocks_extend(w: World, d1: VoteData, d2: VoteData, d: VoteData)
    requires
        w.safe(),
        w.certified(d1),
        w.certified(d2),
        d2.parent == d1.block,
        d1.block.round + 1 == d2.block.round,
        w.certified(d),
        d.block.round > d1.block.round,
    ensures
        w.extends(d, d1),
    decreases d.block.round,
{
    if d.block.round == d2.block.round {
        lemma_one_certificate_in_a_round(w, d, d2);
        let path = seq![d1, d2];
        assert(w.chain(path));
        assert(path[0] == d1 && path.last() == d);
    } else {
        assert(d.block.round > d2.block.round);
        assert(w.quorum_voted(d));
        assert(w.quorum_voted(d2));
        let i = lemma_quorums_share_honest_voter(w, d2, d);
        assert(w.honest_vote(i, d2) && w.honest_vote(i, d));
        assert(d2.parent.round <= d.parent.round);
        assert(w.parent_certified(d));
        let e = choose|e: VoteData| #[trigger] w.certified(e) && e.block == d.parent;
        assert(e.block.round < d.block.round);
        if e.block.round == d1.block.round {
            lemma_one_certificate_in_a_round(w, e, d1);
            let path = seq![d1, d];
            assert(w.chain(path));
            assert(path[0] == d1 && path.last() == d);
        } else {
            lemma_certified_blocks_extend(w, d1, d2, e);
            let before = choose|path: Seq<VoteData>| #[trigger]
                w.chain(path) && path[0] == d1 && path.last() == e;
            let path = before.push(d);
            assert forall|k: int| 0 <= k < path.len() implies w.certified(#[trigger] path[k]) by {
                if k < before.len() {
                    assert(path[k] == before[k]);
                }
            }
            assert forall|k: int| 1 <= k < path.len() implies (#[trigger] path[k]).parent
                == path[k - 1].block && path[k - 1].block.round < path[k].block.round by {
                if k < before.len() {
                    assert(path[k] == before[k]);
                    assert(path[k - 1] == before[k - 1]);
                } else {
                    assert(path[k - 1] == before.last());
                }
            }
            assert(w.chain(path));
            assert(path[0] == d1 && path.last() == d);
        }
    }
}

/// Agreement. In a safe world two committed blocks are on one branch: the
/// one of the round that is no lower is the other or descends from it.
/// So no two conflicting blocks are ever committed, at whatever rounds.
pub proof fn theorem_agreement(w: World, c: VoteData, d: VoteData)
    requires
        w.safe(),
        w.committed(c),
        w.committed(d),
        c.block.round <= d.block.round,
    ensures
        w.extends(d, c),
        c.block.round == d.block.round ==> c == d,
{
    let (c1, c2) = choose|c1: VoteData, c2: VoteData|
        {
            &&& w.certified(c)
            &&& #[trigger] w.certified(c1)
            &&& #[trigger] w.certified(c2)
            &&& c1.parent == c.block
            &&& c2.parent == c1.block
            &&& c.block.round + 1 == c1.block.round
            &&& c1.block.round + 1 == c2.block.round
        };
    let (d1, d2) = choose|d1: VoteData, d2: VoteData|
        {
            &&& w.certified(d)
            &&& #[trigger] w.certified(d1)
            &&& #[trigger] w.certified(d2)
            &&& d1.parent == d.block
            &&& d2.parent == d1.block
            &&& d.block.round + 1 == d1.block.round
            &&& d1.block.round + 1 == d2.block.round
        };
    if c.block.round == d.block.round {
        lemma_one_certificate_in_a_round(w, c, d);
        let path = seq![c];
        assert(w.chain(path));
        assert(path[0] == c && path.last() == d);
    } else if d.block.round == c1.block.round {
        lemma_one_certificate_in_a_round(w, d, c1);
        let path = seq![c, c1];
        assert(w.chain(path));
        assert(path[0] == c && path.last() == d);
    } else {
        lemma_certified_blocks_extend(w, c1, c2, d);
        let tail = choose|path: Seq<VoteData>| #[trigger]
            w.chain(path) && path[0] == c1 && path.last() == d;
        let path = seq![c] + tail;
        assert forall|k: int| 0 <= k < path.len() implies w.certified(#[trigger] path[k]) by {
            if k >= 1 {
                assert(path[k] == tail[k - 1]);
            }
        }
        assert forall|k: int| 1 <= k < path.len() implies (#[trigger] path[k]).parent == path[k
            - 1].block && path[k - 1].block.round < path[k].block.round by {
            assert(path[k] == tail[k - 1]);
            if k >= 2 {
                assert(path[k - 1] == tail[k - 2]);
            }
        }
        assert(w.chain(path));
        assert(path[0] == c && path.last() == d);
    }
}

/// One step of the world.
pub enum Step<T> {
    /// The honest replica at `replica` votes `data` for `block`, which
    /// comes with the certificate `qc`.
    HonestVote { replica: int, block: Block<T>, qc: QuorumCertView, data: VoteData },
    /// The honest replica at `replica` takes note of the certificate `qc`.
    Observe { replica: int, qc: QuorumCertView },
    /// The honest replica at `replica` takes note of a timeout certificate
    /// and keeps `kept` afterwards.
    ObserveTimeout { replica: int, kept: Option<TimeoutCertificateView> },
    /// The faulty replica at `replica` votes `data` and is in the state
    /// `state` afterwards.
    FaultyVote { replica: int, data: VoteData, state: LivenessView },
}

/// The world goes from `w` to `next` by the step.
pub open spec fn steps_to<T>(w: World, next: World, step: Step<T>) -> bool {
    match step {
        Step::HonestVote { replica, block, qc, data } => w.votes_honestly(
            next,
            replica,
            block,
            qc,
            data,
        ),
        Step::Observe { replica, qc } => w.observes(next, replica, qc),
        Step::ObserveTimeout { replica, kept } => w.observes_timeout(next, replica, kept),
        Step::FaultyVote { replica, data, state } => w.votes_faultily(next, replica, data, state),
    }
}

/// The worlds of the list follow one another from an initial world, each
/// by the step of the same place in `steps`.
pub open spec fn is_history<T>(worlds: Seq<World>, steps: Seq<Step<T>>) -> bool {
    &&& worlds.len() == steps.len() + 1
    &&& worlds[0].initial()
    &&& forall|k: int|
        0 <= k < steps.len() ==> #[trigger] steps_to(worlds[k], worlds[k + 1], steps[k])
}

/// Whatever happens, the world stays safe: every world of a history is.
pub proof fn lemma_history_is_safe<T>(worlds: Seq<World>, steps: Seq<Step<T>>, k: int)
    requires
        is_history(worlds, steps),
        0 <= k < worlds.len(),
    ensures
        worlds[k].safe(),
    decreases k,
{
    if k == 0 {
        lemma_initial_world_is_safe(worlds[0]);
    } else {
        lemma_history_is_safe(worlds, steps, k - 1);
        let before = k - 1;
        assert(steps_to(worlds[before], worlds[before + 1], steps[before]));
        match steps[k - 1] {
            Step::HonestVote { replica, block, qc, data } => {
                lemma_honest_vote_keeps_safe(worlds[k - 1], worlds[k], replica, block, qc, data);
            },
            Step::Observe { replica, qc } => {
                lemma_observing_keeps_safe(worlds[k - 1], worlds[k], replica, qc);
            },
            Step::ObserveTimeout { replica, kept } => {
                lemma_timeout_keeps_safe(worlds[k - 1], worlds[k], replica, kept);
            },
            Step::FaultyVote { replica, data, state } => {
                lemma_faulty_vote_keeps_safe(worlds[k - 1], worlds[k], replica, data, state);
            },
        }
    }
}

/// A block that is committed stays committed.
pub proof fn lemma_committed_stays<T>(worlds: Seq<World>, steps: Seq<Step<T>>, j: int, k: int, c: VoteData)
    requires
        is_history(worlds, steps),
        0 <= j <= k < worlds.len(),
        worlds[j].committed(c),
    ensures
        worlds[k].committed(c),
        worlds[j].same_setup(worlds[k]),
        worlds[j].votes.subset_of(worlds[k].votes),
    decreases k - j,
{
    if j < k {
        lemma_committed_stays(worlds, steps, j, k - 1, c);
        let before = k - 1;
        let w = worlds[before];
        let next = worlds[before + 1];
        assert(steps_to(w, next, steps[before]));
        assert(w.same_setup(next) && w.votes.subset_of(next.votes));
        let (c1, c2) = choose|c1: VoteData, c2: VoteData|
            {
                &&& w.certified(c)
                &&& #[trigger] w.certified(c1)
                &&& #[trigger] w.certified(c2)
                &&& c1.parent == c.block
                &&& c2.parent == c1.block
                &&& c.block.round + 1 == c1.block.round
                &&& c1.block.round + 1 == c2.block.round
            };
        lemma_certified_stays(w, next, c);
        lemma_certified_stays(w, next, c1);
        lemma_certified_stays(w, next, c2);
        assert(next.certified(c1) && next.certified(c2));
    }
}

/// Safety. For every sequence of steps of any number of replicas, of
/// which the faulty ones have so little voting power that two quorums
/// share an honest voter, the blocks that are committed at any time are on
/// one branch: of two of them, the one of the round that is no lower is
/// the other or descends from it, and two of one round are the same.
pub proof fn theorem_safety<T>(
    worlds: Seq<World>,
    steps: Seq<Step<T>>,
    j: int,
    k: int,
    c: VoteData,
    d: VoteData,
)
    requires
        is_history(worlds, steps),
        0 <= j <= k < worlds.len(),
        worlds[j].committed(c),
        worlds[k].committed(d),
    ensures
        c.block.round <= d.block.round ==> worlds[k].extends(d, c),
        d.block.round <= c.block.round ==> worlds[k].extends(c, d),
        c.block.round == d.block.round ==> c == d,
{
    lemma_history_is_safe(worlds, steps, k);
    lemma_committed_stays(worlds, steps, j, k, c);
    if c.block.round <= d.block.round {
        theorem_agreement(worlds[k], c, d);
    }
    if d.block.round <= c.block.round {
        theorem_agreement(worlds[k], d, c);
    }
}

} // verus!
