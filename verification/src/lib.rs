//! The Clique proof-of-authority engine: authorized signers take turns
//! sealing blocks, and vote on who is authorized.
//!
//! The crate decides, for a header, whether an eligible signer sealed it
//! at an eligible time, and whether the local node should seal the next
//! block. It reads headers and keeps snapshots; it neither executes
//! transactions nor talks to peers.

pub mod bytes;
pub mod cache;
pub mod engine;
pub mod error;
pub mod header;
pub mod laws;
pub mod outside;
pub mod params;
pub mod records;
pub mod scheduler;
pub mod seal;
pub mod snapshot;
pub mod trigger;
pub mod types;

pub use crate::engine::Clique;
pub use crate::params::CliqueParams;
pub use crate::seal::sig_hash;
