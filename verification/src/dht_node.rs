//! The routing table and the value store of the distributed hash table.

pub mod buckets;
pub mod node_list;
pub mod proto;
pub mod storage;
