use vstd::prelude::*;

verus! {

/// The kind of an I/O failure.
#[derive(Clone, Copy, Debug, PartialEq, Eq, Structural)]
pub enum IoKind {
    /// A value handed in could not be read (a malformed address, bad hex).
    InvalidInput,
    /// An address that cannot be reached over IP (an onion address).
    AddrNotAvailable,
    /// A file or row that was looked for is not there.
    NotFound,
    /// Any other I/O failure.
    Other,
}

/// Failures of the wallet itself.
#[derive(Clone, Copy, Debug, PartialEq, Eq, Structural)]
pub enum WalletError {
    /// The passphrase does not reproduce the stored master key.
    WrongPassphrase,
    /// The available coins cannot pay for the amount and the fee.
    InsufficientFunds,
    /// The fee would exceed the overpay guard.
    FeeTooHigh,
    /// A key could not be derived or a signature could not be made.
    Signing,
    /// The coins would hold more than the money that can exist.
    ValueOverflow,
}

/// A unified error for the library's callers.
#[derive(Clone, Copy, Debug, PartialEq, Eq, Structural)]
pub enum Error {
    /// An operation that is not available in the current state.
    Unsupported,
    /// A shared lock could not be taken.
    Lock,
    /// A key, derivation, selection or signing failure.
    Wallet(WalletError),
    /// An I/O failure.
    IO(IoKind),
    /// A failure of the persistent store.
    DB,
    /// A script could not be read.
    Script,
    /// The configuration file could not be decoded.
    TomlDe,
}

impl Error {
    /// A short description of the error.
    pub fn description(&self) -> (r: &'static str) {
        match self {
            Error::Unsupported => "unsupported",
            Error::Lock => "lock",
            Error::Wallet(WalletError::WrongPassphrase) => "wrong passphrase",
            Error::Wallet(WalletError::InsufficientFunds) => "insufficient funds",
            Error::Wallet(WalletError::FeeTooHigh) => "fee too high",
            Error::Wallet(WalletError::Signing) => "signing failed",
            Error::Wallet(WalletError::ValueOverflow) => "value overflow",
            Error::IO(IoKind::InvalidInput) => "invalid input",
            Error::IO(IoKind::AddrNotAvailable) => "address not available",
            Error::IO(IoKind::NotFound) => "not found",
            Error::IO(IoKind::Other) => "io error",
            Error::DB => "database error",
            Error::Script => "script error",
            Error::TomlDe => "config decode error",
        }
    }
}

} // verus!
