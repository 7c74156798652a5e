//! Blocks, and blocks together with the result of executing them.

use crate::bytes::{append_bytes, append_u64};
use crate::consensus::common::{Author, BlockInfo, Round, Signature};
use crate::consensus::vote::PROPOSAL_TAG;
use crate::hash::{sha3_256, HashValue};
use vstd::bytes::spec_u64_to_le_bytes;
use vstd::prelude::*;

verus! {

/// A proposed block. Its name is the digest of its content; whoever builds
/// the block computes it. A block never changes once it is made.
#[derive(Debug)]
pub struct Block<T> {
    /// The name of the block.
    pub id: HashValue,
    /// The round in which the block was proposed.
    pub round: Round,
    /// The transactions of the block.
    pub payload: T,
    /// When the block was proposed, in microseconds.
    pub timestamp_usecs: u64,
    /// The name of the block that this block extends.
    pub parent_id: HashValue,
    /// The validator that proposed the block.
    pub author: Author,
    /// The proposer's signature of the block's name.
    pub signature: Signature,
}

/// The bytes that name a block: the name of its parent, its round, the
/// time of its proposal, its author, and its transactions as bytes.
pub open spec fn block_bytes(
    parent_id: HashValue,
    round: Round,
    timestamp_usecs: u64,
    author: Author,
    payload: Seq<u8>,
) -> Seq<u8> {
    parent_id@ + spec_u64_to_le_bytes(round) + spec_u64_to_le_bytes(timestamp_usecs) + author@
        + payload
}

/// The name of a block: the SHA3-256 digest of what it holds.
pub fn block_id(
    parent_id: &HashValue,
    round: Round,
    timestamp_usecs: u64,
    author: &Author,
    payload: &[u8],
) -> (id: HashValue)
    ensures
        id@ == sha3_256(block_bytes(*parent_id, round, timestamp_usecs, *author, payload@)),
{
    let mut bytes: Vec<u8> = Vec::new();
    append_bytes(&mut bytes, parent_id.bytes.as_slice());
    append_u64(&mut bytes, round);
    append_u64(&mut bytes, timestamp_usecs);
    append_bytes(&mut bytes, author.bytes.as_slice());
    append_bytes(&mut bytes, payload);
    HashValue::from_sha3(bytes.as_slice())
}

/// The message that the proposer of the block `id` signs: the tag of
/// proposals, then the name of the block.
pub open spec fn proposal_message(id: HashValue) -> Seq<u8> {
    seq![PROPOSAL_TAG] + id@
}

/// The message that the proposer of the block `id` signs.
pub fn proposal_signing_message(id: &HashValue) -> (message: Vec<u8>)
    ensures
        message@ == proposal_message(*id),
{
    let mut out: Vec<u8> = Vec::new();
    out.push(PROPOSAL_TAG);
    append_bytes(&mut out, id.bytes.as_slice());
    out
}

impl<T> Block<T> {
    /// The name and the round of the block, in contracts.
    pub open spec fn spec_info(&self) -> BlockInfo {
        BlockInfo { id: self.id, round: self.round }
    }

    /// The name and the round of the block.
    #[verifier::when_used_as_spec(spec_info)]
    pub fn info(&self) -> (b: BlockInfo)
        ensures
            b == self.spec_info(),
    {
        BlockInfo { id: self.id, round: self.round }
    }
}

/// What executing a block gave: the state after the block, or a failure.
/// A failure is kept and comes up when the block is about to be voted for
/// or committed.
#[derive(Clone, Copy, Debug, Eq)]
pub enum StateComputeResult {
    Executed { state_id: HashValue },
    Failed,
}

impl PartialEq for StateComputeResult {
    fn eq(&self, other: &Self) -> (r: bool) {
        match (self, other) {
            (
                StateComputeResult::Executed { state_id: a },
                StateComputeResult::Executed { state_id: b },
            ) => *a == *b,
            (StateComputeResult::Failed, StateComputeResult::Failed) => true,
            _ => false,
        }
    }
}

impl vstd::std_specs::cmp::PartialEqSpecImpl for StateComputeResult {
    open spec fn obeys_eq_spec() -> bool {
        true
    }

    open spec fn eq_spec(&self, other: &Self) -> bool {
        *self == *other
    }
}

/// A block with the result of its execution.
#[derive(Debug)]
pub struct ExecutedBlock<T> {
    pub block: Block<T>,
    pub compute_result: StateComputeResult,
}

impl<T> ExecutedBlock<T> {
    /// The block `block` with the result of its execution.
    pub fn new(block: Block<T>, compute_result: StateComputeResult) -> (b: Self)
        ensures
            b.block == block,
            b.compute_result == compute_result,
    {
        ExecutedBlock { block, compute_result }
    }

    /// The name of the block.
    pub fn id(&self) -> (id: HashValue)
        ensures
            id == self.block.id,
    {
        self.block.id
    }

    /// The round of the block.
    pub fn round(&self) -> (round: Round)
        ensures
            round == self.block.round,
    {
        self.block.round
    }

    /// The name of the block that this block extends.
    pub fn parent_id(&self) -> (id: HashValue)
        ensures
            id == self.block.parent_id,
    {
        self.block.parent_id
    }

    /// The name and the round of the block.
    pub fn info(&self) -> (b: BlockInfo)
        ensures
            b == self.block.spec_info(),
    {
        self.block.info()
    }

    /// The transactions of the block.
    pub fn payload(&self) -> (p: &T)
        ensures
            *p == self.block.payload,
    {
        &self.block.payload
    }

    /// The state after the block, unless its execution failed.
    pub fn state_id(&self) -> (s: Option<HashValue>)
        ensures
            s == (match self.compute_result {
                StateComputeResult::Executed { state_id } => Some(state_id),
                StateComputeResult::Failed => None,
            }),
    {
        match self.compute_result {
            StateComputeResult::Executed { state_id } => Some(state_id),
            StateComputeResult::Failed => None,
        }
    }
}

} // verus!
