//! The consensus core of a replicated state machine, with the keys of
//! global storage and the caches of on-chain data that execution works on.

pub mod access_path;
pub mod account_address;
pub mod admission_control;
pub mod bytes;
pub mod consensus;
pub mod data_cache;
pub mod hash;
pub mod identifier;
pub mod language_storage;
pub mod path_map;
pub mod state_view;
pub mod vm_error;
pub mod write_set;
