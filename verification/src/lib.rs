//! Verified core of three token programs: a single-owner vault, a two-mint
//! escrow, and a pooled vault that pays holders out pro rata.
pub mod address;
pub mod ledger;
pub mod lamports;
pub mod constraints;
pub mod shares;
pub mod nc_vault;
pub mod escrow;
pub mod vault_program;
