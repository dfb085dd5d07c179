//! Error taxonomy of the vault and configuration store.

use vstd::prelude::*;

verus! {

/// Everything that can go wrong inside the vault or the configuration
/// store. Remote-ledger failures (`RpcError`, `InsufficientBalance`) are
/// owned by outside collaborators and only surfaced here unchanged.
#[derive(Debug)]
pub enum WalletError {
    /// The platform could not supply a home directory, so no
    /// configuration location exists.
    HomeDirectoryNotFound,
    /// The configuration file exists but could not be parsed; the payload
    /// describes what was expected. Corruption is surfaced, never masked
    /// by silently falling back to defaults.
    ConfigCorrupt(String),
    /// A filesystem operation failed; the payload names the failing path.
    Io(String),
    /// A keypair metadata file misses its `public_key` field or is not a
    /// well-formed document.
    InvalidKeypairFormat(String),
    /// The funding account cannot cover the requested transfer.
    InsufficientBalance,
    /// The remote ledger endpoint reported a failure.
    RpcError(String),
}

impl WalletError {
    /// A short human-readable description, in place of `Display`: the
    /// carried text where there is one, a fixed sentence otherwise.
    pub fn message(&self) -> (r: String)
        ensures
            match self {
                WalletError::HomeDirectoryNotFound => r@ == "could not find home directory"@,
                WalletError::ConfigCorrupt(s) => r@ == s@,
                WalletError::Io(s) => r@ == s@,
                WalletError::InvalidKeypairFormat(s) => r@ == s@,
                WalletError::InsufficientBalance => r@
                    == "insufficient balance for transaction"@,
                WalletError::RpcError(s) => r@ == s@,
            },
    {
        match self {
            WalletError::HomeDirectoryNotFound => String::from_str(
                "could not find home directory",
            ),
            WalletError::ConfigCorrupt(s) => s.clone(),
            WalletError::Io(s) => s.clone(),
            WalletError::InvalidKeypairFormat(s) => s.clone(),
            WalletError::InsufficientBalance => String::from_str(
                "insufficient balance for transaction",
            ),
            WalletError::RpcError(s) => s.clone(),
        }
    }
}

} // verus!
