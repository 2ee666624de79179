//! A proposal: a time-boxed decision between named options, with the stake
//! behind each option and the stake of each voter.

use vstd::prelude::*;

use crate::error::VotingError;
use crate::stakes::{
    credited, distinct_names, has_name, has_room, leading_name, lemma_credited_names,
    lemma_opening, lemma_opening_step, lemma_raised_names, opening, raised, released, staked,
    total, StakeTable, Stakes,
};

verus! {

/// The model of a proposal.
pub struct ProposalView {
    pub id: u64,
    pub description: Seq<char>,
    pub start_time: u64,
    pub end_time: u64,
    pub options: Stakes,
    pub winning_option: Option<Seq<char>>,
    pub token_contract: Seq<char>,
    pub voter_stakes: Stakes,
}

impl ProposalView {
    /// The window is not empty, there is an option to vote for, and neither an
    /// option nor a voter is listed twice.
    pub open spec fn wf(self) -> bool {
        &&& self.start_time < self.end_time
        &&& self.options.len() > 0
        &&& distinct_names(self.options)
        &&& distinct_names(self.voter_stakes)
    }

    /// Votes are accepted at `now`.
    pub open spec fn open_at(self, now: u64) -> bool {
        self.start_time <= now <= self.end_time
    }

    /// `option` is one of the declared options.
    pub open spec fn declares(self, option: Seq<char>) -> bool {
        has_name(self.options, option)
    }

    /// A stake of `amount` for `option` by `voter` overflows neither total.
    pub open spec fn has_room_for(self, option: Seq<char>, voter: Seq<char>, amount: u128) -> bool {
        has_room(self.options, option, amount) && has_room(self.voter_stakes, voter, amount)
    }

    /// The proposal after `amount` was staked for `option` by `voter`: the
    /// total of the option grows where it stands, and so does the stake of the
    /// voter, who is listed last if they were not listed before. No option is
    /// ever added.
    pub open spec fn with_vote(self, option: Seq<char>, voter: Seq<char>, amount: u128) -> Self {
        ProposalView {
            options: raised(self.options, option, amount),
            voter_stakes: credited(self.voter_stakes, voter, amount),
            ..self
        }
    }

    /// The proposal after a tally: the leading option is the winner.
    pub open spec fn with_winner(self) -> Self {
        ProposalView { winning_option: leading_name(self.options), ..self }
    }

    /// The proposal after `voter` took their stake back.
    pub open spec fn without_voter(self, voter: Seq<char>) -> Self {
        ProposalView { voter_stakes: released(self.voter_stakes, voter), ..self }
    }

    /// The stake behind the options equals the stake held for the voters.
    pub open spec fn balanced(self) -> bool {
        total(self.options) == total(self.voter_stakes)
    }

    /// No more is held for the voters than is staked behind the options.
    pub open spec fn covered(self) -> bool {
        total(self.voter_stakes) <= total(self.options)
    }
}

/// The model of a proposal that was just created from a list of option names.
pub open spec fn fresh_proposal(
    id: u64,
    description: Seq<char>,
    start_time: u64,
    end_time: u64,
    names: Seq<Seq<char>>,
    token_contract: Seq<char>,
) -> ProposalView {
    ProposalView {
        id,
        description,
        start_time,
        end_time,
        options: opening(names),
        winning_option: None,
        token_contract,
        voter_stakes: Stakes::empty(),
    }
}

/// A proposal of the voting contract.
pub struct Proposal {
    id: u64,
    description: String,
    start_time: u64,
    end_time: u64,
    options: StakeTable,
    winning_option: Option<String>,
    token_contract: String,
    voter_stakes: StakeTable,
}

impl View for Proposal {
    type V = ProposalView;

    closed spec fn view(&self) -> ProposalView {
        ProposalView {
            id: self.id,
            description: self.description@,
            start_time: self.start_time,
            end_time: self.end_time,
            options: self.options@,
            winning_option: match self.winning_option {
                Some(name) => Some(name@),
                None => None,
            },
            token_contract: self.token_contract@,
            voter_stakes: self.voter_stakes@,
        }
    }
}

impl Proposal {
    /// The proposal's invariant.
    pub open spec fn wf(&self) -> bool {
        self@.wf()
    }

    /// A proposal that nobody has voted on yet. Every name of `options` becomes
    /// an option with nothing staked; a repeated name counts once. Refused when
    /// `options` is empty or the window is.
    pub fn new(
        id: u64,
        description: String,
        start_time: u64,
        end_time: u64,
        options: &Vec<String>,
        token_contract: String,
    ) -> (created: Result<Proposal, VotingError>)
        ensures
            match created {
                Ok(proposal) => {
                    &&& options@.len() > 0 && start_time < end_time
                    &&& proposal.wf()
                    &&& proposal@ == fresh_proposal(
                        id,
                        description@,
                        start_time,
                        end_time,
                        options.deep_view(),
                        token_contract@,
                    )
                },
                Err(e) => (options@.len() == 0 || start_time >= end_time) && e
                    == VotingError::InvalidProposal,
            },
    {
        if options.len() == 0 || start_time >= end_time {
            return Err(VotingError::InvalidProposal);
        }
        let ghost names = options.deep_view();
        let mut table = StakeTable::new();
        let mut i: usize = 0;
        while i < options.len()
            invariant
                i <= options.len(),
                names == options.deep_view(),
                table.wf(),
                table@ == opening(names.take(i as int)),
            decreases options.len() - i,
        {
            proof {
                lemma_opening(names.take(i as int));
                lemma_opening_step(names.take(i as int + 1));
                assert(names.take(i as int + 1).drop_last() == names.take(i as int));
            }
            table.credit(options[i].clone(), 0);
            i = i + 1;
        }
        proof {
            assert(names.take(i as int) == names);
            lemma_opening(names);
        }
        Ok(
            Proposal {
                id,
                description,
                start_time,
                end_time,
                options: table,
                winning_option: None,
                token_contract,
                voter_stakes: StakeTable::new(),
            },
        )
    }

    /// Puts a proposal together from its parts, or returns `None` when the
    /// parts break the invariant: an empty window, no option, or a name that
    /// is listed twice among the options or among the voters.
    pub fn restore(
        id: u64,
        description: String,
        start_time: u64,
        end_time: u64,
        options: Vec<(String, u128)>,
        winning_option: Option<String>,
        token_contract: String,
        voter_stakes: Vec<(String, u128)>,
    ) -> (restored: Option<Proposal>)
        ensures
            restored is Some <==> (ProposalView {
                id,
                description: description@,
                start_time,
                end_time,
                options: options.deep_view(),
                winning_option: winning_option.deep_view(),
                token_contract: token_contract@,
                voter_stakes: voter_stakes.deep_view(),
            }).wf(),
            restored matches Some(p) ==> p@ == (ProposalView {
                id,
                description: description@,
                start_time,
                end_time,
                options: options.deep_view(),
                winning_option: winning_option.deep_view(),
                token_contract: token_contract@,
                voter_stakes: voter_stakes.deep_view(),
            }),
    {
        if start_time >= end_time || options.len() == 0 {
            return None;
        }
        let option_table = match StakeTable::from_entries(options) {
            Some(table) => table,
            None => {
                return None;
            },
        };
        let voter_table = match StakeTable::from_entries(voter_stakes) {
            Some(table) => table,
            None => {
                return None;
            },
        };
        Some(
            Proposal {
                id,
                description,
                start_time,
                end_time,
                options: option_table,
                winning_option,
                token_contract,
                voter_stakes: voter_table,
            },
        )
    }

    /// The proposal's identifier.
    pub fn id(&self) -> (id: u64)
        ensures
            id == self@.id,
    {
        self.id
    }

    /// The proposal's description.
    pub fn description(&self) -> (description: &String)
        ensures
            description@ == self@.description,
    {
        &self.description
    }

    /// The first moment at which votes are accepted.
    pub fn start_time(&self) -> (start_time: u64)
        ensures
            start_time == self@.start_time,
    {
        self.start_time
    }

    /// The last moment at which votes are accepted.
    pub fn end_time(&self) -> (end_time: u64)
        ensures
            end_time == self@.end_time,
    {
        self.end_time
    }

    /// The options with the stake behind each, in the order of declaration.
    pub fn options(&self) -> (options: &StakeTable)
        ensures
            options@ == self@.options,
    {
        &self.options
    }

    /// The winner that the last tally found, if a tally has run and found one.
    pub fn winning_option(&self) -> (winner: &Option<String>)
        ensures
            winner.deep_view() == self@.winning_option,
    {
        &self.winning_option
    }

    /// The asset ledger from which this proposal accepts stake.
    pub fn token_contract(&self) -> (token_contract: &String)
        ensures
            token_contract@ == self@.token_contract,
    {
        &self.token_contract
    }

    /// The stake that each voter has on this proposal.
    pub fn voter_stakes(&self) -> (voter_stakes: &StakeTable)
        ensures
            voter_stakes@ == self@.voter_stakes,
    {
        &self.voter_stakes
    }

    /// Whether votes are accepted at `now`.
    pub fn is_open_at(&self, now: u64) -> (open: bool)
        ensures
            open == self@.open_at(now),
    {
        self.start_time <= now && now <= self.end_time
    }

    /// Whether `option_name` is one of the declared options.
    pub fn declares(&self, option_name: &String) -> (declared: bool)
        requires
            self.wf(),
        ensures
            declared == self@.declares(option_name@),
    {
        self.options.find(option_name).is_some()
    }

    /// Whether `amount` more for `option_name` by `voter` overflows neither the
    /// option's total nor the voter's.
    pub fn has_room_for(&self, option_name: &String, voter: &String, amount: u128) -> (fits: bool)
        requires
            self.wf(),
        ensures
            fits == self@.has_room_for(option_name@, voter@, amount),
    {
        self.options.has_room_for(option_name, amount) && self.voter_stakes.has_room_for(
            voter,
            amount,
        )
    }

    /// Adds `amount` to the total of the declared option `option_name` and to
    /// the stake of `voter`. A voter that is not listed yet is appended.
    pub fn record_vote(&mut self, option_name: String, voter: String, amount: u128)
        requires
            old(self).wf(),
            old(self)@.declares(option_name@),
            old(self)@.has_room_for(option_name@, voter@, amount),
        ensures
            final(self).wf(),
            final(self)@ == old(self)@.with_vote(option_name@, voter@, amount),
    {
        proof {
            lemma_credited_names(self@.options, option_name@, amount);
            lemma_raised_names(self@.options, option_name@, amount);
            // The option is declared, so crediting it raises its total in place.
            assert(credited(self@.options, option_name@, amount) == raised(
                self@.options,
                option_name@,
                amount,
            ));
        }
        self.options.credit(option_name, amount);
        self.voter_stakes.credit(voter, amount);
    }

    /// The option with the greatest stake behind it; among equals the one that
    /// was declared first; `None` when nothing is staked.
    pub fn leading_option(&self) -> (winner: Option<String>)
        ensures
            winner.deep_view() == leading_name(self@.options),
    {
        match self.options.leading() {
            Some(i) => Some(self.options.name_at(i).clone()),
            None => None,
        }
    }

    /// Records the leading option as the winner and returns it.
    pub fn settle_winner(&mut self) -> (winner: Option<String>)
        ensures
            final(self)@ == old(self)@.with_winner(),
            winner.deep_view() == leading_name(old(self)@.options),
    {
        let winner = self.leading_option();
        self.winning_option = winner.clone();
        winner
    }

    /// Takes the stake of `voter` off the books and returns it; `None` when
    /// `voter` has no stake here.
    pub fn withdraw(&mut self, voter: &String) -> (amount: Option<u128>)
        requires
            old(self).wf(),
        ensures
            final(self).wf(),
            amount == staked(old(self)@.voter_stakes, voter@),
            final(self)@ == old(self)@.without_voter(voter@),
    {
        self.voter_stakes.release(voter)
    }
}

} // verus!
