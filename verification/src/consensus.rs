//! The chained-BFT consensus core: the block tree, the aggregation of votes
//! into quorum certificates, the safety rules and the event processor.

pub mod agreement;
pub mod block;
pub mod block_tree;
pub mod common;
pub mod event_processor;
pub mod quorum_cert_engine;
pub mod safety_rules;
pub mod signing;
pub mod state_replication;
pub mod sync_info;
pub mod timeout;
pub mod tree_spec;
pub mod validator_verifier;
pub mod vote;
