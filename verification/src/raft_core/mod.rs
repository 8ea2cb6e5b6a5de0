pub mod effect;
pub mod laws;
pub mod mem_storage;
pub mod model;
pub mod node;
pub mod rpc;
pub mod storage;
pub mod types;

pub use effect::{Effect, OutboundAppend, OutboundVote, TickAction};
pub use rpc::{AppendEntriesArgs, AppendEntriesReply, RequestVoteArgs, RequestVoteReply};
pub use types::{ClientCommand, LogEntry, RaftRole};
pub use node::RaftNode;
pub use mem_storage::{MemError, MemStorage};
pub use storage::RaftStorage;
