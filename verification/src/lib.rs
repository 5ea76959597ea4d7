//! The node-local core of a content-addressed object store.
//!
//! Blocks are immutable byte strings named by their hash. Each node keeps
//! the blocks that the cluster layout assigns to it, counts the references
//! that object versions hold on each block, and reconciles what it has on
//! disk with what it should have: it fetches what is referenced and
//! missing, and deletes what is present and unreferenced once the other
//! replicas have confirmed that they do not need it.
//!
//! This library holds the rules and takes no action itself: it reads no
//! file, sends no message and keeps no clock. The caller hands it what was
//! read or received and carries out what it decides.
//!
//! - [`data`]: hashes, their order, and the byte codecs built on them
//! - [`rc`]: reference counts as the key-value store holds them
//! - [`block`]: the file of a block, reads, writes and transfers
//! - [`resync`]: the resync queue and the worker loop that consumes it
//! - [`reconcile`]: the reconciliation of one block, deletion protocol included
//! - [`version_table`] and [`block_ref`]: versions, their blocks, and how
//!   the deletion of a version releases them
//! - [`replication`]: the partitions of the hash space and their nodes
//! - [`web`]: from a web request to a bucket and a key
//! - [`k2v`]: the index of a key-value bucket

pub mod block;
pub mod block_ref;
pub mod data;
pub mod error;
pub mod k2v;
pub mod rc;
pub mod reconcile;
pub mod replication;
pub mod resync;
pub mod version_table;
pub mod web;
