//! A runtime for message-passing nodes of a simulated network, and the
//! anti-entropy broadcast handler built on it.
//!
//! The nodes exchange tagged envelopes with a test harness.  This library
//! holds what a node decides: how a message is classified and routed, which
//! identifiers go out, what the broadcast handler records and answers, and
//! when the run ends.  It reads and writes nothing itself.

pub mod broadcast;
pub mod convergence;
pub mod data_models;
pub mod handler;
pub mod init;
pub mod io;
pub mod node_map;
pub mod runner;

pub use handler::NodeHandler;
pub use runner::NodeRunner;
