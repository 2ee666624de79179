//! The voting contract: the store of proposals and the operations on it.
//!
//! Every operation takes what it needs to know of the outside world as a plain
//! argument: the current time, the caller, the confirmation's message as far as
//! it could be read. Where an operation asks the asset ledger for a transfer it
//! returns the order instead of placing it.

use vstd::prelude::*;

use crate::error::VotingError;
use crate::message::{FtOnTransferMessage, Receipt, Transfer, TransferRequest};
use crate::proposal::{fresh_proposal, Proposal, ProposalView};
use crate::stakes::{leading_name, staked};

verus! {

/// The gas that accompanies a transfer order to the asset ledger.
pub const GAS_FOR_FT_TRANSFER: u64 = 20_000_000_000_000;

/// The deposit that accompanies a transfer order to the asset ledger.
pub const DEPOSIT_FOR_FT_TRANSFER: u128 = 1;

/// Every proposal keeps its invariant and stands at the index that is its
/// identifier.
pub open spec fn valid_state(state: Seq<ProposalView>) -> bool {
    forall|i: int| 0 <= i < state.len() ==> (#[trigger] state[i]).wf() && state[i].id == i
}

/// Why a request to create a proposal is refused, if it is: for want of an
/// option or of a window, or because the count of proposals would no longer
/// fit its counter.
pub open spec fn creation_refusal(
    state: Seq<ProposalView>,
    start_time: u64,
    end_time: u64,
    names: Seq<Seq<char>>,
) -> Option<VotingError> {
    if names.len() == 0 || start_time >= end_time {
        Some(VotingError::InvalidProposal)
    } else if state.len() >= u64::MAX {
        Some(VotingError::ArithmeticOverflow)
    } else {
        None
    }
}

/// The state after a request to create a proposal: the new proposal stands
/// last, under the identifier that is the number of proposals before it, or,
/// where the request is refused, nothing has changed.
pub open spec fn created(
    state: Seq<ProposalView>,
    description: Seq<char>,
    start_time: u64,
    end_time: u64,
    names: Seq<Seq<char>>,
    token_contract: Seq<char>,
) -> Seq<ProposalView> {
    if creation_refusal(state, start_time, end_time, names) is None {
        state.push(
            fresh_proposal(
                state.len() as u64,
                description,
                start_time,
                end_time,
                names,
                token_contract,
            ),
        )
    } else {
        state
    }
}

/// Why a confirmation is refused, if it is. The checks come in this order: the
/// message, the proposal, the ledger that confirms, the window, the option,
/// the counters.
pub open spec fn confirmation_refusal(
    state: Seq<ProposalView>,
    predecessor: Seq<char>,
    now: u64,
    sender: Seq<char>,
    amount: u128,
    msg: Option<FtOnTransferMessage>,
) -> Option<VotingError> {
    match msg {
        None => Some(VotingError::MalformedCorrelation),
        Some(m) => {
            if m.proposal_id >= state.len() {
                Some(VotingError::NotFound)
            } else {
                let proposal = state[m.proposal_id as int];
                if predecessor != proposal.token_contract {
                    Some(VotingError::Unauthorized)
                } else if now < proposal.start_time {
                    Some(VotingError::VotingNotYetOpen)
                } else if now > proposal.end_time {
                    Some(VotingError::VotingClosed)
                } else if !proposal.declares(m.option_name@) {
                    Some(VotingError::UnknownOption)
                } else if !proposal.has_room_for(m.option_name@, sender, amount) {
                    Some(VotingError::ArithmeticOverflow)
                } else {
                    None
                }
            }
        },
    }
}

/// The state after a confirmation: the stake is on the books of the proposal
/// that the message names, or, where the confirmation is refused, nothing has
/// changed.
pub open spec fn confirmed(
    state: Seq<ProposalView>,
    predecessor: Seq<char>,
    now: u64,
    sender: Seq<char>,
    amount: u128,
    msg: Option<FtOnTransferMessage>,
) -> Seq<ProposalView> {
    match msg {
        Some(m) if confirmation_refusal(state, predecessor, now, sender, amount, msg) is None => {
            state.update(
                m.proposal_id as int,
                state[m.proposal_id as int].with_vote(m.option_name@, sender, amount),
            )
        },
        _ => state,
    }
}

/// Why a tally is refused, if it is.
pub open spec fn tally_refusal(state: Seq<ProposalView>, now: u64, proposal_id: u64) -> Option<
    VotingError,
> {
    if proposal_id >= state.len() {
        Some(VotingError::NotFound)
    } else if now <= state[proposal_id as int].end_time {
        Some(VotingError::VotingStillActive)
    } else {
        None
    }
}

/// The state after a tally: the proposal holds its leading option as the
/// winner, or, where the tally is refused, nothing has changed.
pub open spec fn tallied(state: Seq<ProposalView>, now: u64, proposal_id: u64) -> Seq<
    ProposalView,
> {
    if tally_refusal(state, now, proposal_id) is None {
        state.update(proposal_id as int, state[proposal_id as int].with_winner())
    } else {
        state
    }
}

/// Why a withdrawal is refused, if it is.
pub open spec fn unstake_refusal(
    state: Seq<ProposalView>,
    caller: Seq<char>,
    now: u64,
    proposal_id: u64,
) -> Option<VotingError> {
    if proposal_id >= state.len() {
        Some(VotingError::NotFound)
    } else if now <= state[proposal_id as int].end_time {
        Some(VotingError::VotingStillActive)
    } else if staked(state[proposal_id as int].voter_stakes, caller) is None {
        Some(VotingError::NoStake)
    } else {
        None
    }
}

/// The state after a withdrawal: the caller's stake is off the books, or,
/// where the withdrawal is refused, nothing has changed.
pub open spec fn unstaked(
    state: Seq<ProposalView>,
    caller: Seq<char>,
    now: u64,
    proposal_id: u64,
) -> Seq<ProposalView> {
    if unstake_refusal(state, caller, now, proposal_id) is None {
        state.update(proposal_id as int, state[proposal_id as int].without_voter(caller))
    } else {
        state
    }
}

/// The store of proposals. Identifiers are handed out in order, starting at
/// zero, and no proposal is ever removed.
pub struct VotingContract {
    proposals: Vec<Proposal>,
    proposal_count: u64,
}

impl View for VotingContract {
    type V = Seq<ProposalView>;

    closed spec fn view(&self) -> Seq<ProposalView> {
        Seq::new(self.proposals@.len(), |i: int| self.proposals@[i]@)
    }
}

impl VotingContract {
    /// The counter of proposals equals the number of proposals held.
    pub closed spec fn counted(&self) -> bool {
        self.proposal_count == self.proposals@.len()
    }

    /// The contract's invariant.
    pub open spec fn wf(&self) -> bool {
        self.counted() && valid_state(self@)
    }

    /// A contract without proposals.
    pub fn new() -> (contract: Self)
        ensures
            contract.wf(),
            contract@ == Seq::<ProposalView>::empty(),
    {
        let contract = VotingContract { proposals: Vec::new(), proposal_count: 0 };
        assert(contract@ =~= Seq::<ProposalView>::empty());
        contract
    }

    /// Puts a contract together from its proposals, or returns `None` when one
    /// of them does not stand at the index that is its identifier.
    pub fn restore(proposals: Vec<Proposal>) -> (restored: Option<Self>)
        requires
            forall|i: int| 0 <= i < proposals@.len() ==> (#[trigger] proposals@[i]).wf(),
        ensures
            restored is Some <==> forall|i: int|
                0 <= i < proposals@.len() ==> (#[trigger] proposals@[i])@.id == i,
            restored matches Some(contract) ==> contract.wf() && contract@ == proposals@.map_values(
                |p: Proposal| p@,
            ),
    {
        let mut i: usize = 0;
        while i < proposals.len()
            invariant
                i <= proposals.len(),
                forall|j: int| 0 <= j < i ==> (#[trigger] proposals@[j])@.id == j,
            decreases proposals.len() - i,
        {
            if proposals[i].id() != i as u64 {
                return None;
            }
            i = i + 1;
        }
        let proposal_count = proposals.len() as u64;
        let contract = VotingContract { proposals, proposal_count };
        assert(contract@ =~= proposals@.map_values(|p: Proposal| p@));
        Some(contract)
    }

    /// The number of proposals created so far, which is the next identifier.
    pub fn proposal_count(&self) -> (count: u64)
        requires
            self.wf(),
        ensures
            count == self@.len(),
    {
        self.proposal_count
    }

    /// Creates a proposal and returns its identifier, the number of proposals
    /// created before it. Every name of `options` becomes an option with
    /// nothing staked; a repeated name counts once. Refused when `options` is
    /// empty or `start_time` is not before `end_time`, and when the count of
    /// proposals has reached the greatest value of its counter.
    pub fn create_proposal(
        &mut self,
        description: String,
        start_time: u64,
        end_time: u64,
        options: Vec<String>,
        token_contract_id: String,
    ) -> (outcome: Result<u64, VotingError>)
        requires
            old(self).wf(),
        ensures
            final(self).wf(),
            match outcome {
                Ok(id) => creation_refusal(
                    old(self)@,
                    start_time,
                    end_time,
                    options.deep_view(),
                ) is None && id == old(self)@.len(),
                Err(e) => creation_refusal(old(self)@, start_time, end_time, options.deep_view())
                    == Some(e),
            },
            final(self)@ == created(
                old(self)@,
                description@,
                start_time,
                end_time,
                options.deep_view(),
                token_contract_id@,
            ),
    {
        let proposal_id = self.proposal_count;
        let proposal = match Proposal::new(
            proposal_id,
            description,
            start_time,
            end_time,
            &options,
            token_contract_id,
        ) {
            Ok(proposal) => proposal,
            Err(e) => {
                return Err(e);
            },
        };
        if proposal_id == u64::MAX {
            return Err(VotingError::ArithmeticOverflow);
        }
        self.proposals.push(proposal);
        self.proposal_count = proposal_id + 1;
        assert(self@ =~= old(self)@.push(proposal@));
        Ok(proposal_id)
    }

    /// The index at which the proposal with the given identifier is held.
    fn slot(&self, proposal_id: u64) -> (slot: Option<usize>)
        requires
            self.wf(),
        ensures
            slot is Some <==> proposal_id < self@.len(),
            slot matches Some(index) ==> index == proposal_id && index < self.proposals@.len()
                && self.proposals@[index as int]@ == self@[index as int],
    {
        if proposal_id < self.proposals.len() as u64 {
            Some(proposal_id as usize)
        } else {
            None
        }
    }

    /// The proposal with the given identifier.
    pub fn get_proposal(&self, proposal_id: u64) -> (found: Result<&Proposal, VotingError>)
        requires
            self.wf(),
        ensures
            match found {
                Ok(proposal) => proposal_id < self@.len() && proposal@ == self@[proposal_id as int],
                Err(e) => proposal_id >= self@.len() && e == VotingError::NotFound,
            },
    {
        match self.slot(proposal_id) {
            Some(index) => Ok(&self.proposals[index]),
            None => Err(VotingError::NotFound),
        }
    }

    /// The first phase of a vote: the request that asks the asset ledger
    /// `token_contract_id` to move `amount` from `voter` into the custody of
    /// `custodian`, the account of this contract, tagged with the proposal and
    /// the option. Nothing is recorded until the ledger confirms.
    pub fn vote(
        &self,
        voter: String,
        custodian: String,
        proposal_id: u64,
        option_name: String,
        amount: u128,
        token_contract_id: String,
    ) -> (request: TransferRequest)
        ensures
            request.token_contract@ == token_contract_id@,
            request.sender_id@ == voter@,
            request.receiver_id@ == custodian@,
            request.amount == amount,
            request.msg.proposal_id == proposal_id,
            request.msg.option_name@ == option_name@,
    {
        TransferRequest {
            token_contract: token_contract_id,
            sender_id: voter,
            receiver_id: custodian,
            amount,
            msg: FtOnTransferMessage { proposal_id, option_name },
        }
    }

    /// The second phase of a vote: the asset ledger `predecessor` reports at
    /// time `now` that `sender_id` has transferred `amount` with the message
    /// `msg` (`None` where the message could not be read). Where every check
    /// passes the stake is recorded and nothing goes back; otherwise nothing is
    /// recorded and the whole amount goes back.
    pub fn ft_on_transfer(
        &mut self,
        predecessor: &String,
        now: u64,
        sender_id: String,
        amount: u128,
        msg: Option<FtOnTransferMessage>,
    ) -> (receipt: Receipt)
        requires
            old(self).wf(),
        ensures
            final(self).wf(),
            receipt.rejection == confirmation_refusal(
                old(self)@,
                predecessor@,
                now,
                sender_id@,
                amount,
                msg,
            ),
            receipt.unspent == if receipt.rejection is None {
                0
            } else {
                amount
            },
            final(self)@ == confirmed(old(self)@, predecessor@, now, sender_id@, amount, msg),
    {
        let message = match msg {
            Some(message) => message,
            None => {
                return Receipt {
                    unspent: amount,
                    rejection: Some(VotingError::MalformedCorrelation),
                };
            },
        };
        let proposal = match self.get_proposal(message.proposal_id) {
            Ok(proposal) => proposal,
            Err(e) => {
                return Receipt { unspent: amount, rejection: Some(e) };
            },
        };
        if *predecessor != *proposal.token_contract() {
            return Receipt { unspent: amount, rejection: Some(VotingError::Unauthorized) };
        }
        if now < proposal.start_time() {
            return Receipt { unspent: amount, rejection: Some(VotingError::VotingNotYetOpen) };
        }
        if now > proposal.end_time() {
            return Receipt { unspent: amount, rejection: Some(VotingError::VotingClosed) };
        }
        if !proposal.declares(&message.option_name) {
            return Receipt { unspent: amount, rejection: Some(VotingError::UnknownOption) };
        }
        if !proposal.has_room_for(&message.option_name, &sender_id, amount) {
            return Receipt { unspent: amount, rejection: Some(VotingError::ArithmeticOverflow) };
        }
        self.internal_vote(now, message.proposal_id, message.option_name, sender_id, amount);
        Receipt { unspent: 0, rejection: None }
    }

    /// Records, at a time `now` inside the window, a stake for a declared
    /// option that overflows no total.
    fn internal_vote(
        &mut self,
        now: u64,
        proposal_id: u64,
        option_name: String,
        voter: String,
        staked_amount: u128,
    )
        requires
            old(self).wf(),
            proposal_id < old(self)@.len(),
            old(self)@[proposal_id as int].open_at(now),
            old(self)@[proposal_id as int].declares(option_name@),
            old(self)@[proposal_id as int].has_room_for(option_name@, voter@, staked_amount),
        ensures
            final(self).wf(),
            final(self)@ == old(self)@.update(
                proposal_id as int,
                old(self)@[proposal_id as int].with_vote(option_name@, voter@, staked_amount),
            ),
    {
        assert(proposal_id < self.proposals.len());
        let index = proposal_id as usize;
        self.proposals[index].record_vote(option_name, voter, staked_amount);
        assert(self@ =~= old(self)@.update(
            proposal_id as int,
            old(self)@[proposal_id as int].with_vote(option_name@, voter@, staked_amount),
        ));
    }

    /// Finds the winner of a proposal whose window has closed and records it:
    /// the option with the greatest stake, among equals the one declared first,
    /// none when nothing is staked. Refused while votes may still come in.
    pub fn tally(&mut self, now: u64, proposal_id: u64) -> (winner: Result<
        Option<String>,
        VotingError,
    >)
        requires
            old(self).wf(),
        ensures
            final(self).wf(),
            final(self)@ == tallied(old(self)@, now, proposal_id),
            match winner {
                Ok(name) => tally_refusal(old(self)@, now, proposal_id) is None
                    && name.deep_view() == leading_name(old(self)@[proposal_id as int].options),
                Err(e) => tally_refusal(old(self)@, now, proposal_id) == Some(e),
            },
    {
        let index = match self.slot(proposal_id) {
            Some(index) => index,
            None => {
                return Err(VotingError::NotFound);
            },
        };
        if now <= self.proposals[index].end_time() {
            return Err(VotingError::VotingStillActive);
        }
        let winner = self.proposals[index].settle_winner();
        assert(self@ =~= tallied(old(self)@, now, proposal_id));
        Ok(winner)
    }

    /// The current winner of a proposal, found anew from the totals, and the
    /// stake behind each option in the order of declaration.
    pub fn get_options_and_stakes(&self, proposal_id: u64) -> (results: Result<
        (Option<String>, Vec<(String, u128)>),
        VotingError,
    >)
        requires
            self.wf(),
        ensures
            match results {
                Ok((winning_option, options_with_stakes)) => {
                    &&& proposal_id < self@.len()
                    &&& winning_option.deep_view() == leading_name(
                        self@[proposal_id as int].options,
                    )
                    &&& options_with_stakes.deep_view() == self@[proposal_id as int].options
                },
                Err(e) => proposal_id >= self@.len() && e == VotingError::NotFound,
            },
    {
        let proposal = match self.get_proposal(proposal_id) {
            Ok(proposal) => proposal,
            Err(e) => {
                return Err(e);
            },
        };
        let options_with_stakes = proposal.options().entries();
        let winning_option = proposal.leading_option();
        Ok((winning_option, options_with_stakes))
    }

    /// Takes the stake of `caller` on a proposal whose window has closed off
    /// the books and returns the order that pays it back through the
    /// proposal's asset ledger. Refused while votes may still come in, and when
    /// `caller` has no stake left on the proposal.
    pub fn unstake_tokens(&mut self, caller: String, now: u64, proposal_id: u64) -> (order: Result<
        Transfer,
        VotingError,
    >)
        requires
            old(self).wf(),
        ensures
            final(self).wf(),
            final(self)@ == unstaked(old(self)@, caller@, now, proposal_id),
            match order {
                Ok(transfer) => {
                    &&& unstake_refusal(old(self)@, caller@, now, proposal_id) is None
                    &&& transfer.token_contract@ == old(self)@[proposal_id as int].token_contract
                    &&& transfer.receiver_id@ == caller@
                    &&& Some(transfer.amount) == staked(
                        old(self)@[proposal_id as int].voter_stakes,
                        caller@,
                    )
                    &&& transfer.memo is None
                    &&& transfer.deposit == DEPOSIT_FOR_FT_TRANSFER
                    &&& transfer.gas == GAS_FOR_FT_TRANSFER
                },
                Err(e) => unstake_refusal(old(self)@, caller@, now, proposal_id) == Some(e),
            },
    {
        let index = match self.slot(proposal_id) {
            Some(index) => index,
            None => {
                return Err(VotingError::NotFound);
            },
        };
        if now <= self.proposals[index].end_time() {
            return Err(VotingError::VotingStillActive);
        }
        let staked_amount = match self.proposals[index].withdraw(&caller) {
            Some(amount) => amount,
            None => {
                assert(self@ =~= old(self)@);
                return Err(VotingError::NoStake);
            },
        };
        assert(self@ =~= unstaked(old(self)@, caller@, now, proposal_id));
        let token_contract = self.proposals[index].token_contract().clone();
        Ok(
            Transfer {
                token_contract,
                receiver_id: caller,
                amount: staked_amount,
                memo: None,
                deposit: DEPOSIT_FOR_FT_TRANSFER,
                gas: GAS_FOR_FT_TRANSFER,
            },
        )
    }
}

} // verus!
