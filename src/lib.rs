//! Nodes of a small distributed cluster that talk in request and reply
//! messages: a gossip broadcast node with anti-entropy, and the echo,
//! unique-id, grow-only counter and replicated log nodes that share its
//! envelope and message-id conventions.
//!
//! Each node is a state machine: handling one message (or, for the broadcast
//! node, one tick of its gossip timer) changes its state and yields the
//! messages to send. Reading, writing and timing are left to the caller.

pub mod ack_table;
pub mod echo;
pub mod g_counter;
pub mod kafka;
pub mod laws;
pub mod name_map;
pub mod node;
pub mod protocol;
pub mod unique_ids;
pub mod value_set;
