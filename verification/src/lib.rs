//! Core of a Raft consensus node: identifiers and their order, the vote
//! protocol, and an in-memory store for log, vote, state machine and snapshot.

pub mod clock;
pub mod config;
pub mod election;
pub mod entry;
pub mod laws;
pub mod log_id;
pub mod membership;
pub mod model;
pub mod node;
pub mod ordered;
pub mod state_machine;
pub mod store;
pub mod table;
pub mod text;
pub mod vote;

pub use crate::clock::Clock;
pub use crate::config::Config;
pub use crate::config::ConfigError;
pub use crate::config::SnapshotPolicy;
pub use crate::entry::ClientRequest;
pub use crate::entry::ClientResponse;
pub use crate::entry::Entry;
pub use crate::entry::EntryPayload;
pub use crate::log_id::LeaderId;
pub use crate::log_id::LogId;
pub use crate::log_id::NodeId;
pub use crate::membership::EffectiveMembership;
pub use crate::membership::MembershipConfig;
pub use crate::model::IndexBound;
pub use crate::model::LogState;
pub use crate::node::CandidateState;
pub use crate::node::RaftCore;
pub use crate::node::State;
pub use crate::node::VoteError;
pub use crate::node::VoteOutcome;
pub use crate::node::VoteRequest;
pub use crate::node::VoteResponse;
pub use crate::state_machine::MemStoreStateMachine;
pub use crate::store::ErrorSubject;
pub use crate::store::ErrorVerb;
pub use crate::store::MemStore;
pub use crate::store::MemStoreSnapshot;
pub use crate::store::SnapshotMeta;
pub use crate::store::StateMachineChanges;
pub use crate::store::StorageError;
pub use crate::table::ClientTable;
pub use crate::vote::Vote;
