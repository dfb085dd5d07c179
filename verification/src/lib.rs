//! A local vault for blockchain keypair metadata and the wallet
//! configuration that governs it: where keypairs live, which network
//! endpoints commands target, and how results are displayed.

pub mod config;
pub mod error;
pub mod host;
pub mod jsonval;
pub mod storage;
pub mod text;

pub use config::DisplaySettings;
pub use config::NetworkEndpoints;
pub use config::WalletConfig;
pub use error::WalletError;
pub use storage::KeypairFileEntry;
pub use storage::KeypairFileFields;
pub use storage::KeypairStorage;
pub use storage::StoredKeypair;
pub use text::sanitize_filename;

use vstd::prelude::*;

verus! {

/// Alias used throughout the library for fallible operations.
pub type WalletResult<T> = Result<T, WalletError>;

} // verus!
