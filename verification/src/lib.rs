//! Statement routing for a blockchain validator node.
//!
//! Peer validators gossip signed statements about candidate blocks. A
//! statement that refers to a candidate this node does not yet know is
//! buffered; once the candidate itself arrives, the buffered statements are
//! imported together with it in one batch. The buffer deduplicates by a
//! per-statement trace so repeated gossip is absorbed exactly once.

pub mod buffer;
pub mod router;
pub mod statements;
