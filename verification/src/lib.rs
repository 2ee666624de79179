//! Token-weighted governance voting: participants stake a fungible asset behind
//! one option of a time-boxed proposal, the option with the largest stake wins,
//! and every participant may reclaim their stake once the window has closed.
//!
//! The contract itself neither reads a clock nor talks to the asset ledger:
//! each operation is given the time and the caller, and hands back the
//! transfer that is to be placed.

pub mod contract;
pub mod error;
pub mod laws;
pub mod message;
pub mod proposal;
pub mod stakes;

pub use contract::{VotingContract, DEPOSIT_FOR_FT_TRANSFER, GAS_FOR_FT_TRANSFER};
pub use error::VotingError;
pub use message::{FtOnTransferMessage, Receipt, Transfer, TransferRequest};
pub use proposal::Proposal;
pub use stakes::StakeTable;
