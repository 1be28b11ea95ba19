//! Persistence layer for a sparse Merkle tree kept in a transactional
//! key-value engine.
//!
//! The tree algorithm itself and the engine's commit machinery are
//! collaborators outside this crate; what is verified here is the
//! storage-adapter layer between them: how tree nodes become byte keys
//! and values, how several trees share one physical keyspace without
//! touching each other, how each tree's committed root is recorded, and
//! how a tree's namespace is bulk-reset when the engine offers no range
//! delete.
//!
//! The crate is organized bottom-up:
//! - [`errors`]: the error kinds this layer surfaces to its callers.
//! - [`codec`]: fixed-width encoding of branch keys and branch nodes.
//! - [`lex`]: lexicographic byte-string order, used to specify ordered scans.
//! - [`handle`]: the two capability traits a storage handle may satisfy
//!   (read-capable and write-capable), specified against a map model.
//! - [`mem_store`]: a verified in-memory engine satisfying both traits.
//! - [`multi_tree`]: the identifier-prefix scheme several trees share a
//!   namespace under, with its isolation proofs.
//! - [`default_store`]: single-namespace store adapters (one tree, many trees).
//! - [`cf_store`]: two-namespace ("column family") store adapters.
//! - [`registry`]: the root registry that records each tree's committed root.
//! - [`clear`]: planning of the bulk reset of one tree's namespace.
//!
//! An engine binding implements the handle traits outside the verified
//! boundary and passes its transactions and snapshots to the adapters.

pub mod cf_store;
pub mod clear;
pub mod codec;
pub mod default_store;
pub mod errors;
pub mod handle;
pub mod lex;
pub mod mem_store;
pub mod multi_tree;
pub mod registry;

pub use errors::StoreError;
