use vstd::prelude::*;

verus! {

/// Why a request was rejected. A rejected request changes no account.
#[derive(Debug, Clone, Copy, PartialEq, Eq, Structural)]
pub enum CustomError {
    /// The source and destination holder accounts belong to different mints.
    InvalidMint,
    /// The presented address or bump is not the canonical derivation, or the
    /// mint records another authority.
    AuthorityMismatch,
    /// No bump in the search range yields a valid derived address.
    BumpNotFound,
    /// The mint or its metadata record exists already.
    AlreadyExists,
    /// The source balance is smaller than the amount to move.
    InsufficientBalance,
    /// A balance or the supply would leave the range of `u64`.
    Overflow,
    /// A metadata string is longer than the registry accepts.
    FieldTooLong,
    /// Royalty basis points above 10000.
    InvalidBasisPoints,
    /// The signer is not the owner of the holder account.
    Unauthorized,
    /// The destination is not the payer's associated holder account.
    InvalidDestination,
    /// A referenced mint or holder account does not exist.
    AccountNotFound,
}

} // verus!
