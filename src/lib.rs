//! A schema-free document store: collections are directories, documents are
//! files named by a random 16-digit hexadecimal identifier.
//!
//! The library holds the engine's decisions and computations; the
//! surrounding program performs the filesystem work and the locking, and
//! hands the library what it read.
pub mod codec;
pub mod collection;
pub mod error;
pub mod id;
mod outside;
pub mod proofs;

pub use collection::{Collection, Db, Entry, Item, PendingWrite};
pub use error::Error;
pub use id::Id;
