//! A token-issuance module over ledger account state: it derives the
//! program-controlled authority of a mint, creates the mint with its metadata
//! record, issues supply to holder accounts and moves balances between them.
pub mod authority;
pub mod error;
pub mod instructions;
pub mod ledger;

pub use authority::{check_authority, resolve_authority, DerivedAuthority};
pub use error::CustomError;
pub use instructions::{
    create_token_with_metadata, mint_token, transfer_token, CreateTokenWithMetadata, MintToken,
    TransferToken,
};
pub use ledger::{HolderAccount, Ledger, MetadataRecord, MintAccount};
