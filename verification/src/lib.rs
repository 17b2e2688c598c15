//! Conflict-free replicated data types (vector clocks, an observed-remove
//! set, a last-write-wins map) and the decisions of a peer-to-peer sync node.
pub mod order;
pub mod assoc;
pub mod vclock;
pub mod tables;
pub mod lww_map;
pub mod or_set;
pub mod vclock_laws;
pub mod lww_laws;
pub mod or_set_laws;
pub mod storage;
pub mod wire;
pub mod gossip;
pub mod timestamp;
