//! What holds of the voting contract whatever the calls and their order.

use vstd::prelude::*;

use crate::contract::{
    confirmation_refusal, confirmed, created, creation_refusal, tallied, tally_refusal,
    unstake_refusal, unstaked, valid_state,
};
use crate::error::VotingError;
use crate::message::FtOnTransferMessage;
use crate::proposal::{fresh_proposal, ProposalView};
use crate::stakes::{
    credited, has_name, leader, leading_name, leads, lemma_credited_names, lemma_credited_staked,
    lemma_leader_is, lemma_no_leader, lemma_opening, lemma_opening_of_distinct,
    lemma_raised_names, lemma_released_names, lemma_total_bounds_entry, lemma_total_credited,
    lemma_total_released, position, raised, released, staked, total, Stakes,
};

verus! {

/// One call that may change the state of the contract, with its arguments.
pub enum Step {
    Create {
        description: Seq<char>,
        start_time: u64,
        end_time: u64,
        names: Seq<Seq<char>>,
        token_contract: Seq<char>,
    },
    Confirm {
        predecessor: Seq<char>,
        now: u64,
        sender: Seq<char>,
        amount: u128,
        msg: Option<FtOnTransferMessage>,
    },
    Tally { now: u64, proposal_id: u64 },
    Unstake { caller: Seq<char>, now: u64, proposal_id: u64 },
}

/// The state after one call.
pub open spec fn after_step(state: Seq<ProposalView>, step: Step) -> Seq<ProposalView> {
    match step {
        Step::Create { description, start_time, end_time, names, token_contract } => created(
            state,
            description,
            start_time,
            end_time,
            names,
            token_contract,
        ),
        Step::Confirm { predecessor, now, sender, amount, msg } => confirmed(
            state,
            predecessor,
            now,
            sender,
            amount,
            msg,
        ),
        Step::Tally { now, proposal_id } => tallied(state, now, proposal_id),
        Step::Unstake { caller, now, proposal_id } => unstaked(state, caller, now, proposal_id),
    }
}

/// The state after a sequence of calls, taken in order.
pub open spec fn after_steps(state: Seq<ProposalView>, steps: Seq<Step>) -> Seq<ProposalView>
    decreases steps.len(),
{
    if steps.len() == 0 {
        state
    } else {
        after_step(after_steps(state, steps.drop_last()), steps.last())
    }
}

/// In every proposal the stake behind the options equals the stake held for
/// the voters.
pub open spec fn balanced_state(state: Seq<ProposalView>) -> bool {
    forall|i: int| 0 <= i < state.len() ==> (#[trigger] state[i]).balanced()
}

/// In no proposal is more held for the voters than is staked behind the
/// options.
pub open spec fn covered_state(state: Seq<ProposalView>) -> bool {
    forall|i: int| 0 <= i < state.len() ==> (#[trigger] state[i]).covered()
}

/// Creating a proposal keeps the state valid, and balanced if it was. Where
/// the request is not refused, the new proposal stands last under the
/// identifier that is the number of proposals before it, has exactly the
/// declared names as options, nothing staked behind them and nothing held for
/// voters.
pub proof fn law_creation_starts_balanced(
    state: Seq<ProposalView>,
    description: Seq<char>,
    start_time: u64,
    end_time: u64,
    names: Seq<Seq<char>>,
    token_contract: Seq<char>,
)
    requires
        valid_state(state),
    ensures
        valid_state(created(state, description, start_time, end_time, names, token_contract)),
        balanced_state(state) ==> balanced_state(
            created(state, description, start_time, end_time, names, token_contract),
        ),
        creation_refusal(state, start_time, end_time, names) is None ==> {
            let proposal = created(
                state,
                description,
                start_time,
                end_time,
                names,
                token_contract,
            ).last();
            &&& proposal.id == state.len()
            &&& total(proposal.options) == 0
            &&& total(proposal.voter_stakes) == 0
            &&& forall|name: Seq<char>| has_name(proposal.options, name) <==> names.contains(name)
        },
{
    lemma_opening(names);
}

/// A confirmation changes the stake behind the options and the stake held for
/// the voters of a proposal by the same amount: by what was transferred where
/// it is accepted, by nothing where it is refused.
pub proof fn law_confirmation_keeps_balance(
    state: Seq<ProposalView>,
    predecessor: Seq<char>,
    now: u64,
    sender: Seq<char>,
    amount: u128,
    msg: Option<FtOnTransferMessage>,
)
    requires
        valid_state(state),
    ensures
        valid_state(confirmed(state, predecessor, now, sender, amount, msg)),
        confirmed(state, predecessor, now, sender, amount, msg).len() == state.len(),
        forall|i: int|
            0 <= i < state.len() ==> {
                let before = #[trigger] state[i];
                let after = confirmed(state, predecessor, now, sender, amount, msg)[i];
                let applied: nat = if confirmation_refusal(
                    state,
                    predecessor,
                    now,
                    sender,
                    amount,
                    msg,
                ) is None && msg->0.proposal_id == i {
                    amount as nat
                } else {
                    0
                };
                &&& total(after.options) == total(before.options) + applied
                &&& total(after.voter_stakes) == total(before.voter_stakes) + applied
            },
        balanced_state(state) ==> balanced_state(
            confirmed(state, predecessor, now, sender, amount, msg),
        ),
{
    let after = confirmed(state, predecessor, now, sender, amount, msg);
    if confirmation_refusal(state, predecessor, now, sender, amount, msg) is None {
        let m = msg->0;
        let id = m.proposal_id as int;
        let before = state[id];
        // The option is declared, so raising its total is crediting it.
        assert(raised(before.options, m.option_name@, amount) == credited(
            before.options,
            m.option_name@,
            amount,
        ));
        lemma_total_credited(before.options, m.option_name@, amount);
        lemma_total_credited(before.voter_stakes, sender, amount);
        lemma_credited_names(before.options, m.option_name@, amount);
        lemma_credited_names(before.voter_stakes, sender, amount);
        assert(after[id] == before.with_vote(m.option_name@, sender, amount));
        assert forall|i: int| 0 <= i < after.len() implies (#[trigger] after[i]).wf() && after[i].id
            == i by {
            if i != id {
                assert(after[i] == state[i]);
            }
        }
    }
}

/// An accepted confirmation adds the amount to what is staked behind the named
/// option, which is a declared one, and to what is held for the sender, and
/// leaves every other option and every other voter with what they had.
pub proof fn law_confirmation_credits_option_and_voter(
    state: Seq<ProposalView>,
    predecessor: Seq<char>,
    now: u64,
    sender: Seq<char>,
    amount: u128,
    msg: FtOnTransferMessage,
    option: Seq<char>,
    voter: Seq<char>,
)
    requires
        valid_state(state),
        confirmation_refusal(state, predecessor, now, sender, amount, Some(msg)) is None,
    ensures
        ({
            let id = msg.proposal_id as int;
            let before = state[id];
            let after = confirmed(state, predecessor, now, sender, amount, Some(msg))[id];
            &&& staked(before.options, msg.option_name@) is Some
            &&& staked(after.options, msg.option_name@) == Some(
                (staked(before.options, msg.option_name@)->0 + amount) as u128,
            )
            &&& staked(after.voter_stakes, sender) == Some(
                (match staked(before.voter_stakes, sender) {
                    Some(had) => had + amount,
                    None => amount as int,
                }) as u128,
            )
            &&& option != msg.option_name@ ==> staked(after.options, option) == staked(
                before.options,
                option,
            )
            &&& voter != sender ==> staked(after.voter_stakes, voter) == staked(
                before.voter_stakes,
                voter,
            )
        }),
{
    let before = state[msg.proposal_id as int];
    lemma_credited_staked(before.options, msg.option_name@, amount, msg.option_name@);
    lemma_credited_staked(before.options, msg.option_name@, amount, option);
    lemma_credited_staked(before.voter_stakes, sender, amount, sender);
    lemma_credited_staked(before.voter_stakes, sender, amount, voter);
}

/// No call removes a proposal or gives it another place, and none changes a
/// proposal's identifier, description, window or asset ledger, nor adds,
/// removes, renames or moves one of its options. A creation adds one proposal
/// at the end or none; every other call adds none.
pub proof fn law_step_keeps_what_is_fixed(state: Seq<ProposalView>, step: Step)
    requires
        valid_state(state),
    ensures
        valid_state(after_step(state, step)),
        state.len() <= after_step(state, step).len() <= state.len() + 1,
        !(step is Create) ==> after_step(state, step).len() == state.len(),
        forall|i: int|
            0 <= i < state.len() ==> {
                let before = #[trigger] state[i];
                let after = after_step(state, step)[i];
                &&& after.id == before.id
                &&& after.description == before.description
                &&& after.start_time == before.start_time
                &&& after.end_time == before.end_time
                &&& after.token_contract == before.token_contract
                &&& after.options.len() == before.options.len()
                &&& forall|j: int|
                    0 <= j < before.options.len() ==> (#[trigger] after.options[j]).0
                        == before.options[j].0
            },
{
    match step {
        Step::Create { description, start_time, end_time, names, token_contract } => {
            law_creation_starts_balanced(
                state,
                description,
                start_time,
                end_time,
                names,
                token_contract,
            );
        },
        Step::Confirm { predecessor, now, sender, amount, msg } => {
            law_confirmation_keeps_balance(state, predecessor, now, sender, amount, msg);
            if confirmation_refusal(state, predecessor, now, sender, amount, msg) is None {
                let m = msg->0;
                lemma_raised_names(state[m.proposal_id as int].options, m.option_name@, amount);
            }
        },
        Step::Tally { now, proposal_id } => {},
        Step::Unstake { caller, now, proposal_id } => {
            if unstake_refusal(state, caller, now, proposal_id) is None {
                law_unstake_pays_what_was_held(state, caller, now, proposal_id);
            }
        },
    }
}

/// A voter who is on the books of a proposal stays there until they withdraw:
/// the only call after which a voter is no longer listed is that voter's own
/// withdrawal from that proposal, made after its window has closed.
pub proof fn law_only_a_withdrawal_removes_a_voter(
    state: Seq<ProposalView>,
    step: Step,
    proposal_id: int,
    voter: Seq<char>,
)
    requires
        valid_state(state),
        0 <= proposal_id < state.len(),
        has_name(state[proposal_id].voter_stakes, voter),
        !has_name(after_step(state, step)[proposal_id].voter_stakes, voter),
    ensures
        step matches Step::Unstake { caller, now, proposal_id: id } && caller == voter && id
            == proposal_id && now > state[proposal_id].end_time,
{
    match step {
        Step::Create { description, start_time, end_time, names, token_contract } => {},
        Step::Confirm { predecessor, now, sender, amount, msg } => {
            if confirmation_refusal(state, predecessor, now, sender, amount, msg) is None {
                lemma_credited_names(state[proposal_id].voter_stakes, sender, amount);
            }
        },
        Step::Tally { now, proposal_id: id } => {},
        Step::Unstake { caller, now, proposal_id: id } => {
            if unstake_refusal(state, caller, now, id) is None && id == proposal_id
                && caller != voter {
                let held = state[proposal_id].voter_stakes;
                lemma_released_names(held, caller);
                assert(staked(released(held, caller), voter) == staked(held, voter));
            }
        },
    }
}

/// One call that is no withdrawal keeps the stake behind the options of every
/// proposal equal to the stake held for its voters; any call keeps the stake
/// held for the voters within the stake behind the options.
pub proof fn law_step_keeps_the_books(state: Seq<ProposalView>, step: Step)
    requires
        valid_state(state),
    ensures
        balanced_state(state) && !(step is Unstake) ==> balanced_state(after_step(state, step)),
        covered_state(state) ==> covered_state(after_step(state, step)),
{
    match step {
        Step::Create { description, start_time, end_time, names, token_contract } => {
            lemma_opening(names);
        },
        Step::Confirm { predecessor, now, sender, amount, msg } => {
            law_confirmation_keeps_balance(state, predecessor, now, sender, amount, msg);
        },
        Step::Tally { now, proposal_id } => {},
        Step::Unstake { caller, now, proposal_id } => {
            if unstake_refusal(state, caller, now, proposal_id) is None {
                law_unstake_pays_what_was_held(state, caller, now, proposal_id);
            }
        },
    }
}

/// Whatever proposals are created, whatever confirmations arrive and whatever
/// tallies run, in whatever order: as long as nobody has withdrawn, after each
/// call the stake behind the options of every proposal equals the stake held
/// for its voters.
pub proof fn law_balance_holds_until_a_withdrawal(state: Seq<ProposalView>, steps: Seq<Step>)
    requires
        valid_state(state),
        balanced_state(state),
        forall|k: int| 0 <= k < steps.len() ==> !(#[trigger] steps[k] is Unstake),
    ensures
        forall|k: int|
            0 <= k <= steps.len() ==> balanced_state(#[trigger] after_steps(state, steps.take(k))),
{
    assert forall|k: int| 0 <= k <= steps.len() implies balanced_state(
        #[trigger] after_steps(state, steps.take(k)),
    ) by {
        lemma_balance_after(state, steps.take(k));
    }
}

/// Whatever is called and in whatever order, withdrawals included: after each
/// call no more is held for the voters of a proposal than is staked behind its
/// options.
pub proof fn law_claims_stay_covered(state: Seq<ProposalView>, steps: Seq<Step>)
    requires
        valid_state(state),
        covered_state(state),
    ensures
        forall|k: int|
            0 <= k <= steps.len() ==> covered_state(#[trigger] after_steps(state, steps.take(k)))
                && valid_state(after_steps(state, steps.take(k))),
{
    assert forall|k: int| 0 <= k <= steps.len() implies covered_state(
        #[trigger] after_steps(state, steps.take(k)),
    ) && valid_state(after_steps(state, steps.take(k))) by {
        lemma_steps(state, steps.take(k));
    }
}

/// A sequence of calls keeps the state valid and keeps claims covered.
proof fn lemma_steps(state: Seq<ProposalView>, steps: Seq<Step>)
    requires
        valid_state(state),
    ensures
        valid_state(after_steps(state, steps)),
        covered_state(state) ==> covered_state(after_steps(state, steps)),
    decreases steps.len(),
{
    if steps.len() > 0 {
        lemma_steps(state, steps.drop_last());
        let before = after_steps(state, steps.drop_last());
        law_step_keeps_what_is_fixed(before, steps.last());
        law_step_keeps_the_books(before, steps.last());
    }
}

/// A sequence of calls without a withdrawal keeps the books balanced.
proof fn lemma_balance_after(state: Seq<ProposalView>, steps: Seq<Step>)
    requires
        valid_state(state),
        balanced_state(state),
        forall|k: int| 0 <= k < steps.len() ==> !(#[trigger] steps[k] is Unstake),
    ensures
        balanced_state(after_steps(state, steps)),
    decreases steps.len(),
{
    if steps.len() > 0 {
        let front = steps.drop_last();
        assert forall|k: int| 0 <= k < front.len() implies !(#[trigger] front[k] is Unstake) by {
            assert(front[k] == steps[k]);
        }
        lemma_balance_after(state, front);
        lemma_steps(state, front);
        let before = after_steps(state, front);
        law_step_keeps_the_books(before, steps.last());
    }
}

/// A confirmation is accepted exactly when its message could be read, names
/// a proposal that exists and one of its declared options, comes from that
/// proposal's ledger inside its window, and overflows no total. One that is
/// refused changes nothing; one that is accepted with a positive amount
/// changes the state. Nothing is ever applied in part.
pub proof fn law_confirmation_is_all_or_nothing(
    state: Seq<ProposalView>,
    predecessor: Seq<char>,
    now: u64,
    sender: Seq<char>,
    amount: u128,
    msg: Option<FtOnTransferMessage>,
)
    requires
        valid_state(state),
    ensures
        confirmation_refusal(state, predecessor, now, sender, amount, msg) is None <==> {
            &&& msg matches Some(m)
            &&& m.proposal_id < state.len()
            &&& predecessor == state[m.proposal_id as int].token_contract
            &&& state[m.proposal_id as int].open_at(now)
            &&& state[m.proposal_id as int].declares(m.option_name@)
            &&& state[m.proposal_id as int].has_room_for(m.option_name@, sender, amount)
        },
        confirmation_refusal(state, predecessor, now, sender, amount, msg) is Some ==> confirmed(
            state,
            predecessor,
            now,
            sender,
            amount,
            msg,
        ) == state,
        confirmation_refusal(state, predecessor, now, sender, amount, msg) is None && amount > 0
            ==> confirmed(state, predecessor, now, sender, amount, msg) != state,
{
    law_confirmation_keeps_balance(state, predecessor, now, sender, amount, msg);
    if confirmation_refusal(state, predecessor, now, sender, amount, msg) is None {
        let id = msg->0.proposal_id as int;
        assert(total(confirmed(state, predecessor, now, sender, amount, msg)[id].options) == total(
            state[id].options,
        ) + amount);
    }
}

/// A confirmation that names an option which its proposal did not declare is
/// refused and changes nothing, whatever else holds of it.
pub proof fn law_undeclared_option_is_refused(
    state: Seq<ProposalView>,
    predecessor: Seq<char>,
    now: u64,
    sender: Seq<char>,
    amount: u128,
    msg: FtOnTransferMessage,
)
    requires
        msg.proposal_id < state.len(),
        !state[msg.proposal_id as int].declares(msg.option_name@),
    ensures
        confirmation_refusal(state, predecessor, now, sender, amount, Some(msg)) is Some,
        confirmed(state, predecessor, now, sender, amount, Some(msg)) == state,
{
}

/// No confirmation opens an option or closes one: after it every proposal
/// lists exactly the option names that it listed before.
pub proof fn law_confirmation_opens_no_option(
    state: Seq<ProposalView>,
    predecessor: Seq<char>,
    now: u64,
    sender: Seq<char>,
    amount: u128,
    msg: Option<FtOnTransferMessage>,
    proposal_id: int,
    name: Seq<char>,
)
    requires
        0 <= proposal_id < state.len(),
    ensures
        has_name(confirmed(state, predecessor, now, sender, amount, msg)[proposal_id].options, name)
            <==> has_name(state[proposal_id].options, name),
{
    if confirmation_refusal(state, predecessor, now, sender, amount, msg) is None {
        lemma_raised_names(state[proposal_id].options, msg->0.option_name@, amount);
    }
}

/// A confirmation that arrives before the window of its proposal opens or
/// after it closes is refused and changes nothing.
pub proof fn law_confirmation_outside_window_changes_nothing(
    state: Seq<ProposalView>,
    predecessor: Seq<char>,
    now: u64,
    sender: Seq<char>,
    amount: u128,
    msg: FtOnTransferMessage,
)
    requires
        msg.proposal_id < state.len(),
        now < state[msg.proposal_id as int].start_time || now > state[msg.proposal_id
            as int].end_time,
    ensures
        confirmation_refusal(state, predecessor, now, sender, amount, Some(msg)) is Some,
        confirmed(state, predecessor, now, sender, amount, Some(msg)) == state,
{
}

/// A confirmation never adds, moves, renames or removes an option: every
/// option stays where it was declared, with no less behind it than before.
pub proof fn law_confirmation_keeps_option_order(
    state: Seq<ProposalView>,
    predecessor: Seq<char>,
    now: u64,
    sender: Seq<char>,
    amount: u128,
    msg: Option<FtOnTransferMessage>,
    proposal_id: int,
    i: int,
)
    requires
        0 <= proposal_id < state.len(),
        0 <= i < state[proposal_id].options.len(),
    ensures
        confirmed(state, predecessor, now, sender, amount, msg)[proposal_id].options.len()
            == state[proposal_id].options.len(),
        confirmed(state, predecessor, now, sender, amount, msg)[proposal_id].options[i].0
            == state[proposal_id].options[i].0,
        confirmed(state, predecessor, now, sender, amount, msg)[proposal_id].options[i].1
            >= state[proposal_id].options[i].1,
{
    if confirmation_refusal(state, predecessor, now, sender, amount, msg) is None {
        lemma_raised_names(state[proposal_id].options, msg->0.option_name@, amount);
    }
}

/// A tally that has run leaves nothing for a second one to change: with no
/// vote in between, the second finds the same winner, whenever it is asked for.
pub proof fn law_tally_is_idempotent(
    state: Seq<ProposalView>,
    first: u64,
    second: u64,
    proposal_id: u64,
)
    requires
        tally_refusal(state, first, proposal_id) is None,
    ensures
        tallied(tallied(state, first, proposal_id), second, proposal_id) == tallied(
            state,
            first,
            proposal_id,
        ),
        tallied(state, first, proposal_id)[proposal_id as int].winning_option == leading_name(
            state[proposal_id as int].options,
        ),
        leading_name(tallied(state, first, proposal_id)[proposal_id as int].options)
            == leading_name(state[proposal_id as int].options),
{
    let once = tallied(state, first, proposal_id);
    let id = proposal_id as int;
    assert(once[id] == state[id].with_winner());
    // The totals are as they were, so a second tally finds the winner that is recorded.
    assert(once[id].with_winner() == once[id]);
    assert(once.update(id, once[id]) == once);
}

/// The winner is the first option that holds the greatest total, and there is
/// one exactly when something is staked.
pub proof fn law_winner_is_first_with_greatest_total(stakes: Stakes)
    ensures
        match leader(stakes) {
            Some(i) => leads(stakes, i),
            None => forall|j: int| 0 <= j < stakes.len() ==> (#[trigger] stakes[j]).1 == 0,
        },
        forall|i: int| leads(stakes, i) ==> leader(stakes) == Some(i),
{
    lemma_no_leader(stakes);
    assert forall|i: int| leads(stakes, i) implies leader(stakes) == Some(i) by {
        lemma_leader_is(stakes, i);
    }
}

/// Of two options that share the greatest total, the one declared first wins,
/// provided that something is staked behind them.
pub proof fn law_tie_goes_to_first_declared(stakes: Stakes, i: int, j: int)
    requires
        0 <= i < j < stakes.len(),
        stakes[i].1 == stakes[j].1,
        stakes[i].1 > 0,
        forall|k: int| 0 <= k < stakes.len() ==> (#[trigger] stakes[k]).1 <= stakes[i].1,
        forall|k: int|
            0 <= k < stakes.len() && k != i && k != j ==> (#[trigger] stakes[k]).1 < stakes[i].1,
    ensures
        leader(stakes) == Some(i),
        leading_name(stakes) == Some(stakes[i].0),
{
    assert(leads(stakes, i));
    lemma_leader_is(stakes, i);
}

/// Of two options with equal totals the later one never wins.
pub proof fn law_later_of_equals_never_wins(stakes: Stakes, i: int, j: int)
    requires
        0 <= i < j < stakes.len(),
        stakes[i].1 == stakes[j].1,
    ensures
        leader(stakes) != Some(j),
{
    if leader(stakes) == Some(j) {
        // A leader has strictly more than every entry before it.
        assert(leads(stakes, j));
        assert(stakes[i].1 < stakes[j].1);
    }
}

/// Options without repeated names are listed as they were declared: the option
/// at index `i` is the `i`-th declared name.
pub proof fn law_options_follow_declaration(
    id: u64,
    description: Seq<char>,
    start_time: u64,
    end_time: u64,
    names: Seq<Seq<char>>,
    token_contract: Seq<char>,
    i: int,
)
    requires
        names.no_duplicates(),
        0 <= i < names.len(),
    ensures
        fresh_proposal(id, description, start_time, end_time, names, token_contract).options.len()
            == names.len(),
        fresh_proposal(id, description, start_time, end_time, names, token_contract).options[i]
            == (names[i], 0u128),
{
    lemma_opening_of_distinct(names);
}

/// A withdrawal pays out what was held for the caller, takes exactly that off
/// the stake held for voters, and leaves the totals of the options alone.
pub proof fn law_unstake_pays_what_was_held(
    state: Seq<ProposalView>,
    caller: Seq<char>,
    now: u64,
    proposal_id: u64,
)
    requires
        valid_state(state),
        unstake_refusal(state, caller, now, proposal_id) is None,
    ensures
        valid_state(unstaked(state, caller, now, proposal_id)),
        unstaked(state, caller, now, proposal_id)[proposal_id as int].options
            == state[proposal_id as int].options,
        total(unstaked(state, caller, now, proposal_id)[proposal_id as int].voter_stakes) + staked(
            state[proposal_id as int].voter_stakes,
            caller,
        )->0 == total(state[proposal_id as int].voter_stakes),
        forall|other: Seq<char>|
            other != caller ==> staked(
                unstaked(state, caller, now, proposal_id)[proposal_id as int].voter_stakes,
                other,
            ) == staked(state[proposal_id as int].voter_stakes, other),
{
    let before = state[proposal_id as int];
    let after = unstaked(state, caller, now, proposal_id);
    lemma_total_released(before.voter_stakes, caller);
    lemma_released_names(before.voter_stakes, caller);
    assert(after[proposal_id as int] == before.without_voter(caller));
    assert forall|i: int| 0 <= i < after.len() implies (#[trigger] after[i]).wf() && after[i].id
        == i by {
        if i != proposal_id {
            assert(after[i] == state[i]);
        }
    }
}

/// Where no more is held for the voters than is staked behind the options, a
/// withdrawal pays out no more than is staked behind the options.
pub proof fn law_withdrawal_is_covered(
    state: Seq<ProposalView>,
    caller: Seq<char>,
    now: u64,
    proposal_id: u64,
)
    requires
        covered_state(state),
        unstake_refusal(state, caller, now, proposal_id) is None,
    ensures
        staked(state[proposal_id as int].voter_stakes, caller)->0 <= total(
            state[proposal_id as int].options,
        ),
{
    let held = state[proposal_id as int].voter_stakes;
    lemma_total_bounds_entry(held, position(held, caller));
    assert(state[proposal_id as int].covered());
}

/// A voter who has withdrawn their stake from a proposal has none left there:
/// a second withdrawal changes nothing and is refused, for want of a stake
/// whenever it is asked for after the window has closed.
pub proof fn law_second_unstake_finds_no_stake(
    state: Seq<ProposalView>,
    caller: Seq<char>,
    first: u64,
    second: u64,
    proposal_id: u64,
)
    requires
        valid_state(state),
        unstake_refusal(state, caller, first, proposal_id) is None,
    ensures
        !has_name(
            unstaked(state, caller, first, proposal_id)[proposal_id as int].voter_stakes,
            caller,
        ),
        unstake_refusal(unstaked(state, caller, first, proposal_id), caller, second, proposal_id)
            == Some(
            if second > state[proposal_id as int].end_time {
                VotingError::NoStake
            } else {
                VotingError::VotingStillActive
            },
        ),
        unstaked(unstaked(state, caller, first, proposal_id), caller, second, proposal_id)
            == unstaked(state, caller, first, proposal_id),
{
    lemma_released_names(state[proposal_id as int].voter_stakes, caller);
}

} // verus!
