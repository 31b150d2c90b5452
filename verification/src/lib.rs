//! Cluster membership by gossip: every node keeps a view of who is in the
//! cluster, merges the views its peers send, and watches their heartbeats.
//!
//! The membership state and every rule that changes it are verified. Clocks,
//! sockets and task scheduling stay with the embedding program, which hands
//! this crate plain values: addresses as text, instants as nanoseconds on a
//! monotonic clock.
//!
//! - [`node`] holds the identities and statuses of nodes.
//! - [`cluster`] holds the state of the cluster as one node sees it: the
//!   views of its members and how they merge, the version vectors, the
//!   heartbeat statistics, and the choice of the peers to gossip with.
//! - [`node_map`], [`node_set`] and [`url_set`] are the collections that
//!   the state is made of.
//! - [`text`] reads and writes numbers in decimal.

pub mod cluster;
pub mod node;
pub mod node_map;
pub mod node_set;
pub mod text;
pub mod url_set;
