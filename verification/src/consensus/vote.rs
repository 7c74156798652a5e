//! Votes, and the quorum certificates that are made of them.

use crate::bytes::{append_bytes, append_u64};
use crate::consensus::common::{Author, BlockInfo, Round, Signature};
use crate::hash::HashValue;
use vstd::bytes::spec_u64_to_le_bytes;
use vstd::prelude::*;

verus! {

/// What committing a block finalizes: the block, and the state that its
/// execution gave.
#[derive(Clone, Copy, Debug, Eq)]
pub struct LedgerInfo {
    pub block: BlockInfo,
    pub state_id: HashValue,
}

impl PartialEq for LedgerInfo {
    fn eq(&self, other: &Self) -> (r: bool) {
        self.block == other.block && self.state_id == other.state_id
    }
}

impl vstd::std_specs::cmp::PartialEqSpecImpl for LedgerInfo {
    open spec fn obeys_eq_spec() -> bool {
        true
    }

    open spec fn eq_spec(&self, other: &Self) -> bool {
        *self == *other
    }
}

/// What a vote endorses: a block, the state that its execution gave, the
/// block's parent, and what a certificate for the block would commit.
#[derive(Clone, Copy, Debug, Eq)]
pub struct VoteData {
    pub block: BlockInfo,
    pub state_id: HashValue,
    pub parent: BlockInfo,
    pub commit: Option<LedgerInfo>,
}

impl PartialEq for VoteData {
    fn eq(&self, other: &Self) -> (r: bool) {
        let same_commit = match (self.commit, other.commit) {
            (None, None) => true,
            (Some(a), Some(b)) => a == b,
            _ => false,
        };
        self.block == other.block && self.state_id == other.state_id && self.parent
            == other.parent && same_commit
    }
}

impl vstd::std_specs::cmp::PartialEqSpecImpl for VoteData {
    open spec fn obeys_eq_spec() -> bool {
        true
    }

    open spec fn eq_spec(&self, other: &Self) -> bool {
        *self == *other
    }
}

/// The first byte of the message that a vote signs.
pub const VOTE_TAG: u8 = 1;

/// The first byte of the message that a timeout signs.
pub const TIMEOUT_TAG: u8 = 2;

/// The first byte of the message that a proposal signs.
pub const PROPOSAL_TAG: u8 = 3;

/// The bytes of a block's name and round.
pub open spec fn block_info_bytes(b: BlockInfo) -> Seq<u8> {
    b.id@ + spec_u64_to_le_bytes(b.round)
}

/// The bytes of what a certificate would commit: one byte that says
/// whether there is anything, then the block and the state.
pub open spec fn commit_bytes(commit: Option<LedgerInfo>) -> Seq<u8> {
    match commit {
        None => seq![0u8],
        Some(info) => seq![1u8] + block_info_bytes(info.block) + info.state_id@,
    }
}

/// The message that a vote for `data` signs: the tag of votes, the block,
/// the state, the parent, and what would be committed.
pub open spec fn vote_message(data: VoteData) -> Seq<u8> {
    seq![VOTE_TAG] + block_info_bytes(data.block) + data.state_id@ + block_info_bytes(
        data.parent,
    ) + commit_bytes(data.commit)
}

fn append_block_info(out: &mut Vec<u8>, b: &BlockInfo)
    ensures
        final(out)@ == old(out)@ + block_info_bytes(*b),
{
    append_bytes(out, b.id.bytes.as_slice());
    append_u64(out, b.round);
    assert(out@ =~= old(out)@ + block_info_bytes(*b));
}

impl VoteData {
    /// The message that a vote for this signs.
    pub fn signing_message(&self) -> (message: Vec<u8>)
        ensures
            message@ == vote_message(*self),
    {
        let mut out: Vec<u8> = Vec::new();
        out.push(VOTE_TAG);
        append_block_info(&mut out, &self.block);
        append_bytes(&mut out, self.state_id.bytes.as_slice());
        append_block_info(&mut out, &self.parent);
        match self.commit {
            None => {
                out.push(0u8);
            },
            Some(info) => {
                out.push(1u8);
                append_block_info(&mut out, &info.block);
                append_bytes(&mut out, info.state_id.bytes.as_slice());
            },
        }
        assert(out@ =~= vote_message(*self));
        out
    }
}

/// One validator's signed endorsement of a block.
#[derive(Clone, Copy, Debug, Eq)]
pub struct Vote {
    pub data: VoteData,
    pub author: Author,
    pub signature: Signature,
}

impl PartialEq for Vote {
    fn eq(&self, other: &Self) -> (r: bool) {
        self.data == other.data && self.author == other.author && self.signature
            == other.signature
    }
}

impl vstd::std_specs::cmp::PartialEqSpecImpl for Vote {
    open spec fn obeys_eq_spec() -> bool {
        true
    }

    open spec fn eq_spec(&self, other: &Self) -> bool {
        *self == *other
    }
}

/// The signature of one validator in a certificate.
#[derive(Clone, Copy, Debug, Eq)]
pub struct AuthorSignature {
    pub author: Author,
    pub signature: Signature,
}

impl PartialEq for AuthorSignature {
    fn eq(&self, other: &Self) -> (r: bool) {
        self.author == other.author && self.signature == other.signature
    }
}

impl vstd::std_specs::cmp::PartialEqSpecImpl for AuthorSignature {
    open spec fn obeys_eq_spec() -> bool {
        true
    }

    open spec fn eq_spec(&self, other: &Self) -> bool {
        *self == *other
    }
}

/// A quorum certificate: what was voted for, and the signatures of the
/// validators that voted for it.
#[derive(Debug)]
pub struct QuorumCert {
    pub data: VoteData,
    pub signatures: Vec<AuthorSignature>,
}

/// A quorum certificate as contracts see it.
pub struct QuorumCertView {
    pub data: VoteData,
    pub signatures: Seq<AuthorSignature>,
}

impl View for QuorumCert {
    type V = QuorumCertView;

    open spec fn view(&self) -> QuorumCertView {
        QuorumCertView { data: self.data, signatures: self.signatures@ }
    }
}

impl Clone for QuorumCert {
    fn clone(&self) -> (r: Self)
        ensures
            r@ == self@,
    {
        let signatures = self.signatures.clone();
        assert(signatures@ =~= self.signatures@);
        QuorumCert { data: self.data, signatures }
    }
}

impl QuorumCert {
    /// The certificate for `data` with the given signatures.
    pub fn new(data: VoteData, signatures: Vec<AuthorSignature>) -> (qc: Self)
        ensures
            qc.data == data,
            qc.signatures == signatures,
    {
        QuorumCert { data, signatures }
    }

    /// The certificate with which the chain starts. It certifies the
    /// genesis block, which is its own parent and of round 0, and carries
    /// no signature.
    pub fn certificate_for_genesis(genesis_id: HashValue, state_id: HashValue) -> (qc: Self)
        ensures
            qc@ == genesis_certificate(genesis_id, state_id),
    {
        let genesis = BlockInfo { id: genesis_id, round: 0 };
        QuorumCert {
            data: VoteData { block: genesis, state_id, parent: genesis, commit: None },
            signatures: Vec::new(),
        }
    }

    /// The block that is certified.
    pub fn certified_block(&self) -> (b: BlockInfo)
        ensures
            b == self.data.block,
    {
        self.data.block
    }

    /// The parent of the block that is certified.
    pub fn parent_block(&self) -> (b: BlockInfo)
        ensures
            b == self.data.parent,
    {
        self.data.parent
    }

    /// The round of the block that is certified.
    pub fn round(&self) -> (r: Round)
        ensures
            r == self.data.block.round,
    {
        self.data.block.round
    }

    /// What the certificate commits, if anything.
    pub fn ledger_info(&self) -> (info: Option<LedgerInfo>)
        ensures
            info == self.data.commit,
    {
        self.data.commit
    }
}

/// The certificate with which the chain starts.
pub open spec fn genesis_certificate(genesis_id: HashValue, state_id: HashValue) -> QuorumCertView {
    QuorumCertView {
        data: VoteData {
            block: BlockInfo { id: genesis_id, round: 0 },
            state_id,
            parent: BlockInfo { id: genesis_id, round: 0 },
            commit: None,
        },
        signatures: Seq::empty(),
    }
}

} // verus!
