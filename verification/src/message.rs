//! The plain values that pass between the contract and the asset ledger.

use vstd::prelude::*;

use crate::error::VotingError;

verus! {

/// The message that travels with a stake transfer and ties the ledger's
/// confirmation to a proposal and one of its options.
#[derive(Debug, PartialEq, Eq)]
pub struct FtOnTransferMessage {
    pub proposal_id: u64,
    pub option_name: String,
}

/// A request to the asset ledger `token_contract` to move `amount` from
/// `sender_id` into the custody of `receiver_id`, tagged with `msg`.
#[derive(Debug, PartialEq, Eq)]
pub struct TransferRequest {
    pub token_contract: String,
    pub sender_id: String,
    pub receiver_id: String,
    pub amount: u128,
    pub msg: FtOnTransferMessage,
}

/// An order to the asset ledger `token_contract` to pay `amount` out of the
/// contract's custody to `receiver_id`, with the deposit and the gas that go
/// with the order.
#[derive(Debug, PartialEq, Eq)]
pub struct Transfer {
    pub token_contract: String,
    pub receiver_id: String,
    pub amount: u128,
    pub memo: Option<String>,
    pub deposit: u128,
    pub gas: u64,
}

/// The answer to a confirmation: how much of the transferred amount goes back
/// to the sender, and why if anything does.
#[derive(Clone, Copy, Debug, PartialEq, Eq)]
pub struct Receipt {
    pub unspent: u128,
    pub rejection: Option<VotingError>,
}

} // verus!
