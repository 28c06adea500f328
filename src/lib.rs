//! Multi-slot Paxos consensus and the replicated lock table that consumes
//! its agreed log.
//!
//! Each log slot runs its own Proposer, Acceptor and Learner inside a
//! `PaxosInstance`; a `Server` owns the slot table of one node, routes
//! messages to slots, fans broadcasts out, and feeds the committed slots to
//! the `Locker` in strict slot order. Transport, codec and timers are left
//! to the caller: `Server::send_step` says what to transmit or schedule.
//!
//! `safety` models one slot across a whole cluster, with acceptors that
//! decide as `Acceptor` does, and proves that at most one value is ever
//! chosen for it.

pub mod acceptor;
pub mod common;
pub mod instance;
pub mod learner;
pub mod locker;
pub mod message;
pub mod proposer;
mod rng;
pub mod safety;
pub mod server;

pub use acceptor::Acceptor;
pub use common::{
    AcceptedMessage, InstanceID, LearnMessage, NodeID, PaxosError, PaxosInstanceMessage,
    PaxosMessage, PrepareMessage, PromiseMessage, ProposalID, ProposeMessage, ValueMessage,
};
pub use instance::PaxosInstance;
pub use learner::Learner;
pub use locker::{LogEntry, Locker, Operation};
pub use message::{MessageInfo, MessagePayload, MessageTarget};
pub use proposer::Proposer;
pub use server::{Reply, SendAction, Server, DEFAULT_TIMEOUT};
