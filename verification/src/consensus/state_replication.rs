//! What the consensus core asks of the parts around it: the execution of
//! blocks, durable storage, and the choice of leaders.

use crate::consensus::block::{ExecutedBlock, StateComputeResult};
use crate::consensus::common::{Author, Round};
use crate::consensus::validator_verifier::ValidatorInfo;
use crate::consensus::vote::LedgerInfo;
use crate::hash::HashValue;
use std::sync::Arc;
use vstd::prelude::*;

verus! {

/// Execution could not commit.
#[derive(Clone, Copy, Debug, PartialEq, Eq, Structural)]
pub struct ExecutionError {
    pub code: u64,
}

/// The state computer: it applies the transactions of a block to a state.
/// Whoever runs the transactions implements this.
pub trait StateComputer<T> {
    /// Applies the transactions `payload` to the state `parent_state_id`
    /// and says what state that gives. Nothing is made durable.
    fn execute(&self, parent_state_id: &HashValue, payload: &T) -> StateComputeResult;

    /// Makes the blocks durable, oldest first, as what `ledger_info`
    /// finalizes.
    fn commit(&mut self, blocks: &Vec<Arc<ExecutedBlock<T>>>, ledger_info: &LedgerInfo) -> Result<
        (),
        ExecutionError,
    >;
}

/// Who leads a round: a function of the round and of the validators alone.
pub trait ProposerElection {
    /// The leader of the round, in contracts.
    spec fn leader(&self, round: Round) -> Author;

    /// The leader of the round.
    fn leader_for_round(&self, round: Round) -> (leader: Author)
        ensures
            leader == self.leader(round),
    ;
}

/// Leaders by turns: the validators lead one round each, in their order.
#[derive(Debug)]
pub struct RotatingProposer {
    proposers: Vec<Author>,
}

impl RotatingProposer {
    /// The validators that take turns, in contracts.
    pub closed spec fn proposers(&self) -> Seq<Author> {
        self.proposers@
    }

    #[verifier::type_invariant]
    spec fn inv(&self) -> bool {
        self.proposers@.len() > 0
    }

    /// The rotation over the given validators, of which there must be one
    /// at least.
    pub fn new(proposers: Vec<Author>) -> (r: Option<Self>)
        ensures
            r is Some <==> proposers@.len() > 0,
            r matches Some(election) ==> election.proposers() == proposers@,
    {
        if proposers.len() == 0 {
            None
        } else {
            Some(RotatingProposer { proposers })
        }
    }

    /// The rotation over the validators of a list, in the order of the
    /// list.
    pub fn from_validators(validators: &Vec<ValidatorInfo>) -> (r: Option<Self>)
        ensures
            r is Some <==> validators@.len() > 0,
            r matches Some(election) ==> election.proposers() == Seq::new(
                validators@.len(),
                |i: int| validators@[i].author,
            ),
    {
        let mut proposers: Vec<Author> = Vec::new();
        let mut i: usize = 0;
        while i < validators.len()
            invariant
                i <= validators.len(),
                proposers@ == Seq::new(i as nat, |k: int| validators@[k].author),
            decreases validators.len() - i,
        {
            proposers.push(validators[i].author);
            i += 1;
            assert(proposers@ =~= Seq::new(i as nat, |k: int| validators@[k].author));
        }
        RotatingProposer::new(proposers)
    }
}

impl ProposerElection for RotatingProposer {
    open spec fn leader(&self, round: Round) -> Author {
        self.proposers()[(round as int) % (self.proposers().len() as int)]
    }

    fn leader_for_round(&self, round: Round) -> (leader: Author) {
        proof {
            use_type_invariant(self);
        }
        let n = self.proposers.len() as u64;
        let at = (round % n) as usize;
        self.proposers[at]
    }
}

} // verus!
