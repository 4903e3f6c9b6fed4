//! Replication protocols for a node in a simulated unreliable network:
//! gossip broadcast, a convergent counter, and a per-key offset log.
//!
//! A node reacts to envelopes and to a timer. Every reaction is a step
//! from a state and an event to the next state and the envelopes to send;
//! reading and writing the transport is left to the caller. Each step is
//! stated as a function on the view of the state, and the steps of the
//! executable types are proved to follow it.
//!
//! - `message`, `sender`: envelopes, node identity, request ids and reply
//!   correlation.
//! - `topology`: the choice of gossip neighbors, and how far the overlays
//!   reach.
//! - `broadcast`, `dissemination`: the gossip engine of one node, and what
//!   holds of all nodes together.
//! - `counter`, `convergence`: the counter of one node, and what holds of
//!   it beside the store and the other nodes.
//! - `log`: per-key logs, polling, and committed offsets.
//! - `echo`, `unique_id`: the two workloads without state.
//! - `server`: a node after its handshake, for any one workload.
//! - `strmap`, `text`: a map keyed by strings, and helpers for strings.

pub mod broadcast;
pub mod convergence;
pub mod counter;
pub mod dissemination;
pub mod echo;
pub mod error;
pub mod log;
pub mod message;
pub mod sender;
pub mod server;
pub mod strmap;
pub mod text;
pub mod topology;
pub mod unique_id;
