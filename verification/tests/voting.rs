use stake_voting::{
    FtOnTransferMessage, Receipt, Transfer, VotingContract, VotingError, DEPOSIT_FOR_FT_TRANSFER,
    GAS_FOR_FT_TRANSFER,
};

fn s(text: &str) -> String {
    text.to_string()
}

fn names(list: &[&str]) -> Vec<String> {
    list.iter().map(|name| name.to_string()).collect()
}

fn message(proposal_id: u64, option_name: &str) -> Option<FtOnTransferMessage> {
    Some(FtOnTransferMessage { proposal_id, option_name: s(option_name) })
}

/// A contract with one proposal: options A and B, window [100, 200], ledger T1.
fn contract_with_proposal() -> VotingContract {
    let mut contract = VotingContract::new();
    let id = contract.create_proposal(s("budget"), 100, 200, names(&["A", "B"]), s("T1"));
    assert_eq!(id, Ok(0));
    contract
}

fn confirm(
    contract: &mut VotingContract,
    ledger: &str,
    now: u64,
    sender: &str,
    amount: u128,
    proposal_id: u64,
    option: &str,
) -> Receipt {
    contract.ft_on_transfer(&s(ledger), now, s(sender), amount, message(proposal_id, option))
}

fn totals(contract: &VotingContract, proposal_id: u64) -> Vec<(String, u128)> {
    contract.get_options_and_stakes(proposal_id).unwrap().1
}

fn sum(entries: &[(String, u128)]) -> u128 {
    entries.iter().map(|entry| entry.1).sum()
}

const ACCEPTED: Receipt = Receipt { unspent: 0, rejection: None };

fn refused(amount: u128, why: VotingError) -> Receipt {
    Receipt { unspent: amount, rejection: Some(why) }
}

#[test]
fn new_contract_has_no_proposals() {
    let contract = VotingContract::new();
    assert_eq!(contract.proposal_count(), 0);
    assert!(matches!(contract.get_proposal(0), Err(VotingError::NotFound)));
}

#[test]
fn create_proposal_allocates_ids_in_order() {
    let mut contract = VotingContract::new();
    assert_eq!(contract.create_proposal(s("a"), 1, 2, names(&["x"]), s("T1")), Ok(0));
    assert_eq!(contract.create_proposal(s("b"), 5, 9, names(&["y", "z"]), s("T2")), Ok(1));
    assert_eq!(contract.create_proposal(s("c"), 0, u64::MAX, names(&["w"]), s("T1")), Ok(2));
    assert_eq!(contract.proposal_count(), 3);
    let second = contract.get_proposal(1).unwrap();
    assert_eq!(second.id(), 1);
    assert_eq!(second.description(), "b");
    assert_eq!(second.start_time(), 5);
    assert_eq!(second.end_time(), 9);
    assert_eq!(second.token_contract(), "T2");
    assert_eq!(second.winning_option(), &None);
    assert_eq!(second.options().entries(), vec![(s("y"), 0), (s("z"), 0)]);
    assert_eq!(second.voter_stakes().len(), 0);
}

#[test]
fn create_proposal_rejects_empty_options() {
    let mut contract = VotingContract::new();
    let outcome = contract.create_proposal(s("a"), 1, 2, Vec::new(), s("T1"));
    assert_eq!(outcome, Err(VotingError::InvalidProposal));
    assert_eq!(contract.proposal_count(), 0);
}

#[test]
fn create_proposal_rejects_inverted_window() {
    let mut contract = VotingContract::new();
    let outcome = contract.create_proposal(s("a"), 200, 100, names(&["A"]), s("T1"));
    assert_eq!(outcome, Err(VotingError::InvalidProposal));
    assert_eq!(contract.proposal_count(), 0);
}

#[test]
fn create_proposal_rejects_window_of_one_instant() {
    let mut contract = VotingContract::new();
    let outcome = contract.create_proposal(s("a"), 100, 100, names(&["A"]), s("T1"));
    assert_eq!(outcome, Err(VotingError::InvalidProposal));
    assert_eq!(contract.create_proposal(s("a"), 100, 101, names(&["A"]), s("T1")), Ok(0));
}

#[test]
fn rejected_creation_does_not_use_up_an_id() {
    let mut contract = VotingContract::new();
    assert!(contract.create_proposal(s("a"), 2, 1, names(&["A"]), s("T1")).is_err());
    assert_eq!(contract.create_proposal(s("b"), 1, 2, names(&["A"]), s("T1")), Ok(0));
}

#[test]
fn repeated_option_name_is_declared_once() {
    let mut contract = VotingContract::new();
    let id = contract.create_proposal(s("a"), 1, 2, names(&["A", "B", "A", "C", "B"]), s("T1"));
    assert_eq!(id, Ok(0));
    assert_eq!(totals(&contract, 0), vec![(s("A"), 0), (s("B"), 0), (s("C"), 0)]);
}

#[test]
fn get_proposal_of_unknown_id_is_not_found() {
    let contract = contract_with_proposal();
    assert!(contract.get_proposal(0).is_ok());
    assert!(matches!(contract.get_proposal(1), Err(VotingError::NotFound)));
    assert!(matches!(contract.get_proposal(u64::MAX), Err(VotingError::NotFound)));
}

#[test]
fn vote_builds_the_transfer_request() {
    let contract = contract_with_proposal();
    let request = contract.vote(s("V1"), s("voting"), 0, s("A"), 50, s("T1"));
    assert_eq!(request.token_contract, "T1");
    assert_eq!(request.sender_id, "V1");
    assert_eq!(request.receiver_id, "voting");
    assert_eq!(request.amount, 50);
    assert_eq!(request.msg, FtOnTransferMessage { proposal_id: 0, option_name: s("A") });
    assert_eq!(totals(&contract, 0), vec![(s("A"), 0), (s("B"), 0)]);
    assert_eq!(contract.get_proposal(0).unwrap().voter_stakes().len(), 0);
}

#[test]
fn scenario_two_voters_then_tally() {
    let mut contract = contract_with_proposal();
    assert_eq!(confirm(&mut contract, "T1", 150, "V1", 50, 0, "A"), ACCEPTED);
    assert_eq!(confirm(&mut contract, "T1", 160, "V2", 30, 0, "B"), ACCEPTED);
    assert_eq!(contract.tally(201, 0), Ok(Some(s("A"))));
    let (winner, results) = contract.get_options_and_stakes(0).unwrap();
    assert_eq!(winner, Some(s("A")));
    assert_eq!(results, vec![(s("A"), 50), (s("B"), 30)]);
    assert_eq!(contract.get_proposal(0).unwrap().winning_option(), &Some(s("A")));
}

#[test]
fn scenario_confirmation_before_start_is_rejected() {
    let mut contract = contract_with_proposal();
    let receipt = confirm(&mut contract, "T1", 50, "V1", 40, 0, "A");
    assert_eq!(receipt, refused(40, VotingError::VotingNotYetOpen));
    assert_eq!(totals(&contract, 0), vec![(s("A"), 0), (s("B"), 0)]);
    assert_eq!(contract.get_proposal(0).unwrap().voter_stakes().len(), 0);
}

#[test]
fn scenario_confirmation_from_other_ledger_is_rejected() {
    let mut contract = contract_with_proposal();
    let receipt = confirm(&mut contract, "T2", 150, "V1", 40, 0, "A");
    assert_eq!(receipt, refused(40, VotingError::Unauthorized));
    let receipt = confirm(&mut contract, "T2", 150, "V1", 40, 0, "undeclared");
    assert_eq!(receipt, refused(40, VotingError::Unauthorized));
    let receipt = contract.ft_on_transfer(&s("T2"), 150, s("V1"), 40, None);
    assert_eq!(receipt, refused(40, VotingError::MalformedCorrelation));
    assert_eq!(totals(&contract, 0), vec![(s("A"), 0), (s("B"), 0)]);
    assert_eq!(contract.get_proposal(0).unwrap().voter_stakes().len(), 0);
}

#[test]
fn other_ledger_is_rejected_before_the_window_is_looked_at() {
    let mut contract = contract_with_proposal();
    let receipt = confirm(&mut contract, "T2", 50, "V1", 40, 0, "A");
    assert_eq!(receipt, refused(40, VotingError::Unauthorized));
    let receipt = confirm(&mut contract, "T2", 500, "V1", 40, 0, "nobody");
    assert_eq!(receipt, refused(40, VotingError::Unauthorized));
}

#[test]
fn unreadable_message_returns_the_funds() {
    let mut contract = contract_with_proposal();
    let receipt = contract.ft_on_transfer(&s("T1"), 150, s("V1"), 40, None);
    assert_eq!(receipt, refused(40, VotingError::MalformedCorrelation));
    assert_eq!(totals(&contract, 0), vec![(s("A"), 0), (s("B"), 0)]);
}

#[test]
fn confirmation_for_unknown_proposal_returns_the_funds() {
    let mut contract = contract_with_proposal();
    let receipt = confirm(&mut contract, "T1", 150, "V1", 40, 7, "A");
    assert_eq!(receipt, refused(40, VotingError::NotFound));
    assert_eq!(totals(&contract, 0), vec![(s("A"), 0), (s("B"), 0)]);
}

#[test]
fn confirmation_after_end_is_rejected() {
    let mut contract = contract_with_proposal();
    let receipt = confirm(&mut contract, "T1", 201, "V1", 40, 0, "A");
    assert_eq!(receipt, refused(40, VotingError::VotingClosed));
    assert_eq!(totals(&contract, 0), vec![(s("A"), 0), (s("B"), 0)]);
    assert_eq!(contract.get_proposal(0).unwrap().voter_stakes().len(), 0);
}

#[test]
fn window_includes_both_ends() {
    let mut contract = contract_with_proposal();
    assert_eq!(confirm(&mut contract, "T1", 100, "V1", 1, 0, "A"), ACCEPTED);
    assert_eq!(confirm(&mut contract, "T1", 200, "V1", 2, 0, "A"), ACCEPTED);
    assert_eq!(
        confirm(&mut contract, "T1", 99, "V1", 4, 0, "A"),
        refused(4, VotingError::VotingNotYetOpen)
    );
    assert_eq!(
        confirm(&mut contract, "T1", 201, "V1", 8, 0, "A"),
        refused(8, VotingError::VotingClosed)
    );
    assert_eq!(totals(&contract, 0), vec![(s("A"), 3), (s("B"), 0)]);
}

#[test]
fn option_totals_equal_voter_totals_after_every_confirmation() {
    let mut contract = contract_with_proposal();
    let confirmations: [(&str, u64, &str, u128, &str); 7] = [
        ("T1", 100, "V1", 50, "A"),
        ("T1", 120, "V2", 30, "B"),
        ("T2", 130, "V3", 11, "A"),
        ("T1", 140, "V1", 7, "B"),
        ("T1", 250, "V2", 13, "A"),
        ("T1", 150, "V3", 0, "B"),
        ("T1", 200, "V2", 5, "A"),
    ];
    let mut expected: u128 = 0;
    for (ledger, now, sender, amount, option) in confirmations {
        let receipt = confirm(&mut contract, ledger, now, sender, amount, 0, option);
        if receipt.rejection.is_none() {
            expected += amount;
        }
        let proposal = contract.get_proposal(0).unwrap();
        let options = proposal.options().entries();
        let voters = proposal.voter_stakes().entries();
        assert_eq!(sum(&options), sum(&voters));
        assert_eq!(sum(&options), expected);
    }
    assert_eq!(expected, 92);
    assert_eq!(totals(&contract, 0), vec![(s("A"), 55), (s("B"), 37)]);
    let proposal = contract.get_proposal(0).unwrap();
    assert_eq!(
        proposal.voter_stakes().entries(),
        vec![(s("V1"), 57), (s("V2"), 35), (s("V3"), 0)]
    );
}

#[test]
fn votes_of_one_voter_add_up_across_options() {
    let mut contract = contract_with_proposal();
    assert_eq!(confirm(&mut contract, "T1", 110, "V1", 10, 0, "A"), ACCEPTED);
    assert_eq!(confirm(&mut contract, "T1", 120, "V1", 25, 0, "B"), ACCEPTED);
    assert_eq!(confirm(&mut contract, "T1", 130, "V1", 5, 0, "A"), ACCEPTED);
    assert_eq!(totals(&contract, 0), vec![(s("A"), 15), (s("B"), 25)]);
    let proposal = contract.get_proposal(0).unwrap();
    assert_eq!(proposal.voter_stakes().get(&s("V1")), Some(40));
}

#[test]
fn confirmation_for_undeclared_option_is_refused() {
    let mut contract = contract_with_proposal();
    let receipt = confirm(&mut contract, "T1", 150, "V1", 50, 0, "C");
    assert_eq!(receipt, refused(50, VotingError::UnknownOption));
    let (winner, results) = contract.get_options_and_stakes(0).unwrap();
    assert_eq!(winner, None);
    assert_eq!(results, vec![(s("A"), 0), (s("B"), 0)]);
    let proposal = contract.get_proposal(0).unwrap();
    assert_eq!(proposal.voter_stakes().len(), 0);
    assert_eq!(proposal.voter_stakes().get(&s("V1")), None);
    assert_eq!(contract.tally(201, 0), Ok(None));
}

#[test]
fn undeclared_option_is_refused_after_votes_as_well() {
    let mut contract = contract_with_proposal();
    assert_eq!(confirm(&mut contract, "T1", 150, "V1", 7, 0, "A"), ACCEPTED);
    assert_eq!(
        confirm(&mut contract, "T1", 151, "V1", 9, 0, "a"),
        refused(9, VotingError::UnknownOption)
    );
    assert_eq!(
        confirm(&mut contract, "T1", 152, "V2", 0, 0, ""),
        refused(0, VotingError::UnknownOption)
    );
    assert_eq!(totals(&contract, 0), vec![(s("A"), 7), (s("B"), 0)]);
    let proposal = contract.get_proposal(0).unwrap();
    assert_eq!(proposal.voter_stakes().entries(), vec![(s("V1"), 7)]);
}

#[test]
fn undeclared_option_is_named_before_an_overflow() {
    let mut contract = contract_with_proposal();
    assert_eq!(confirm(&mut contract, "T1", 150, "V1", u128::MAX, 0, "A"), ACCEPTED);
    assert_eq!(
        confirm(&mut contract, "T1", 151, "V1", 1, 0, "C"),
        refused(1, VotingError::UnknownOption)
    );
    assert_eq!(
        confirm(&mut contract, "T1", 151, "V1", 1, 0, "B"),
        refused(1, VotingError::ArithmeticOverflow)
    );
    assert_eq!(totals(&contract, 0), vec![(s("A"), u128::MAX), (s("B"), 0)]);
}

#[test]
fn refused_confirmation_for_undeclared_option_opens_none() {
    let mut contract = contract_with_proposal();
    assert_eq!(
        confirm(&mut contract, "T2", 150, "V1", 10, 0, "C"),
        refused(10, VotingError::Unauthorized)
    );
    assert_eq!(
        confirm(&mut contract, "T1", 99, "V1", 10, 0, "C"),
        refused(10, VotingError::VotingNotYetOpen)
    );
    assert_eq!(
        confirm(&mut contract, "T1", 201, "V1", 10, 0, "C"),
        refused(10, VotingError::VotingClosed)
    );
    assert_eq!(totals(&contract, 0), vec![(s("A"), 0), (s("B"), 0)]);
}

#[test]
fn confirmations_reach_only_the_named_proposal() {
    let mut contract = contract_with_proposal();
    assert_eq!(contract.create_proposal(s("other"), 100, 200, names(&["A"]), s("T2")), Ok(1));
    assert_eq!(confirm(&mut contract, "T2", 150, "V1", 9, 1, "A"), ACCEPTED);
    assert_eq!(
        confirm(&mut contract, "T2", 150, "V1", 9, 0, "A"),
        refused(9, VotingError::Unauthorized)
    );
    assert_eq!(totals(&contract, 0), vec![(s("A"), 0), (s("B"), 0)]);
    assert_eq!(totals(&contract, 1), vec![(s("A"), 9)]);
}

#[test]
fn option_total_overflow_is_refused() {
    let mut contract = contract_with_proposal();
    assert_eq!(confirm(&mut contract, "T1", 150, "V1", u128::MAX, 0, "A"), ACCEPTED);
    let receipt = confirm(&mut contract, "T1", 160, "V2", 1, 0, "A");
    assert_eq!(receipt, refused(1, VotingError::ArithmeticOverflow));
    assert_eq!(totals(&contract, 0), vec![(s("A"), u128::MAX), (s("B"), 0)]);
    let proposal = contract.get_proposal(0).unwrap();
    assert_eq!(proposal.voter_stakes().entries(), vec![(s("V1"), u128::MAX)]);
}

#[test]
fn voter_total_overflow_is_refused() {
    let mut contract = contract_with_proposal();
    assert_eq!(confirm(&mut contract, "T1", 150, "V1", u128::MAX - 4, 0, "A"), ACCEPTED);
    let receipt = confirm(&mut contract, "T1", 160, "V1", 5, 0, "B");
    assert_eq!(receipt, refused(5, VotingError::ArithmeticOverflow));
    assert_eq!(totals(&contract, 0), vec![(s("A"), u128::MAX - 4), (s("B"), 0)]);
    assert_eq!(confirm(&mut contract, "T1", 170, "V1", 4, 0, "B"), ACCEPTED);
    assert_eq!(totals(&contract, 0), vec![(s("A"), u128::MAX - 4), (s("B"), 4)]);
    let proposal = contract.get_proposal(0).unwrap();
    assert_eq!(proposal.voter_stakes().entries(), vec![(s("V1"), u128::MAX)]);
}

#[test]
fn tally_before_end_is_refused() {
    let mut contract = contract_with_proposal();
    assert_eq!(confirm(&mut contract, "T1", 150, "V1", 50, 0, "A"), ACCEPTED);
    assert_eq!(contract.tally(150, 0), Err(VotingError::VotingStillActive));
    assert_eq!(contract.tally(200, 0), Err(VotingError::VotingStillActive));
    assert_eq!(contract.tally(0, 0), Err(VotingError::VotingStillActive));
    assert_eq!(contract.get_proposal(0).unwrap().winning_option(), &None);
}

#[test]
fn tally_of_unknown_proposal_is_not_found() {
    let mut contract = contract_with_proposal();
    assert_eq!(contract.tally(201, 1), Err(VotingError::NotFound));
}

#[test]
fn tally_twice_gives_the_same_winner() {
    let mut contract = contract_with_proposal();
    assert_eq!(confirm(&mut contract, "T1", 150, "V1", 5, 0, "A"), ACCEPTED);
    assert_eq!(confirm(&mut contract, "T1", 160, "V2", 8, 0, "B"), ACCEPTED);
    assert_eq!(contract.tally(201, 0), Ok(Some(s("B"))));
    assert_eq!(contract.get_proposal(0).unwrap().winning_option(), &Some(s("B")));
    assert_eq!(contract.tally(300, 0), Ok(Some(s("B"))));
    assert_eq!(contract.get_proposal(0).unwrap().winning_option(), &Some(s("B")));
    assert_eq!(totals(&contract, 0), vec![(s("A"), 5), (s("B"), 8)]);
}

#[test]
fn tie_goes_to_the_option_declared_first() {
    let mut contract = VotingContract::new();
    let id = contract.create_proposal(s("tie"), 100, 200, names(&["A", "B", "C"]), s("T1"));
    assert_eq!(id, Ok(0));
    assert_eq!(confirm(&mut contract, "T1", 150, "V1", 40, 0, "C"), ACCEPTED);
    assert_eq!(confirm(&mut contract, "T1", 151, "V2", 40, 0, "B"), ACCEPTED);
    assert_eq!(confirm(&mut contract, "T1", 152, "V3", 10, 0, "A"), ACCEPTED);
    assert_eq!(contract.tally(201, 0), Ok(Some(s("B"))));
    assert_eq!(contract.get_options_and_stakes(0).unwrap().0, Some(s("B")));
}

#[test]
fn tally_without_votes_finds_no_winner() {
    let mut contract = contract_with_proposal();
    assert_eq!(contract.tally(201, 0), Ok(None));
    assert_eq!(contract.get_proposal(0).unwrap().winning_option(), &None);
    assert_eq!(contract.get_options_and_stakes(0).unwrap().0, None);
}

#[test]
fn tally_with_only_zero_stakes_finds_no_winner() {
    let mut contract = contract_with_proposal();
    assert_eq!(confirm(&mut contract, "T1", 150, "V1", 0, 0, "B"), ACCEPTED);
    assert_eq!(contract.tally(201, 0), Ok(None));
}

#[test]
fn results_need_no_tally() {
    let mut contract = contract_with_proposal();
    assert_eq!(confirm(&mut contract, "T1", 150, "V1", 3, 0, "B"), ACCEPTED);
    let (winner, results) = contract.get_options_and_stakes(0).unwrap();
    assert_eq!(winner, Some(s("B")));
    assert_eq!(results, vec![(s("A"), 0), (s("B"), 3)]);
    assert_eq!(contract.get_proposal(0).unwrap().winning_option(), &None);
}

#[test]
fn results_of_unknown_proposal_are_not_found() {
    let contract = contract_with_proposal();
    assert_eq!(contract.get_options_and_stakes(3), Err(VotingError::NotFound));
}

#[test]
fn unstake_returns_the_whole_stake() {
    let mut contract = contract_with_proposal();
    assert_eq!(confirm(&mut contract, "T1", 110, "V1", 10, 0, "A"), ACCEPTED);
    assert_eq!(confirm(&mut contract, "T1", 120, "V2", 7, 0, "A"), ACCEPTED);
    assert_eq!(confirm(&mut contract, "T1", 130, "V1", 25, 0, "B"), ACCEPTED);
    let order = contract.unstake_tokens(s("V1"), 201, 0);
    assert_eq!(
        order,
        Ok(Transfer {
            token_contract: s("T1"),
            receiver_id: s("V1"),
            amount: 35,
            memo: None,
            deposit: 1,
            gas: 20_000_000_000_000,
        })
    );
    assert_eq!(DEPOSIT_FOR_FT_TRANSFER, 1);
    assert_eq!(GAS_FOR_FT_TRANSFER, 20_000_000_000_000);
    let proposal = contract.get_proposal(0).unwrap();
    assert_eq!(proposal.voter_stakes().entries(), vec![(s("V2"), 7)]);
    assert_eq!(totals(&contract, 0), vec![(s("A"), 17), (s("B"), 25)]);
}

#[test]
fn unstake_twice_finds_no_stake() {
    let mut contract = contract_with_proposal();
    assert_eq!(confirm(&mut contract, "T1", 110, "V1", 10, 0, "A"), ACCEPTED);
    assert_eq!(contract.unstake_tokens(s("V1"), 201, 0).map(|order| order.amount), Ok(10));
    assert_eq!(contract.unstake_tokens(s("V1"), 201, 0), Err(VotingError::NoStake));
    assert_eq!(contract.unstake_tokens(s("V1"), 999, 0), Err(VotingError::NoStake));
}

#[test]
fn unstake_without_stake_is_refused() {
    let mut contract = contract_with_proposal();
    assert_eq!(confirm(&mut contract, "T1", 110, "V1", 10, 0, "A"), ACCEPTED);
    assert_eq!(contract.unstake_tokens(s("V2"), 201, 0), Err(VotingError::NoStake));
    let proposal = contract.get_proposal(0).unwrap();
    assert_eq!(proposal.voter_stakes().entries(), vec![(s("V1"), 10)]);
}

#[test]
fn unstake_before_end_is_refused() {
    let mut contract = contract_with_proposal();
    assert_eq!(confirm(&mut contract, "T1", 110, "V1", 10, 0, "A"), ACCEPTED);
    assert_eq!(contract.unstake_tokens(s("V1"), 150, 0), Err(VotingError::VotingStillActive));
    assert_eq!(contract.unstake_tokens(s("V1"), 200, 0), Err(VotingError::VotingStillActive));
    assert_eq!(contract.unstake_tokens(s("V2"), 200, 0), Err(VotingError::VotingStillActive));
    let proposal = contract.get_proposal(0).unwrap();
    assert_eq!(proposal.voter_stakes().entries(), vec![(s("V1"), 10)]);
}

#[test]
fn unstake_on_unknown_proposal_is_not_found() {
    let mut contract = contract_with_proposal();
    assert_eq!(contract.unstake_tokens(s("V1"), 201, 4), Err(VotingError::NotFound));
}

#[test]
fn unstake_of_a_zero_stake_pays_nothing_once() {
    let mut contract = contract_with_proposal();
    assert_eq!(confirm(&mut contract, "T1", 110, "V1", 0, 0, "A"), ACCEPTED);
    assert_eq!(contract.unstake_tokens(s("V1"), 201, 0).map(|order| order.amount), Ok(0));
    assert_eq!(contract.unstake_tokens(s("V1"), 202, 0), Err(VotingError::NoStake));
}

#[test]
fn unstake_leaves_the_results_as_they_were() {
    let mut contract = contract_with_proposal();
    assert_eq!(confirm(&mut contract, "T1", 110, "V1", 10, 0, "A"), ACCEPTED);
    assert_eq!(confirm(&mut contract, "T1", 120, "V2", 4, 0, "B"), ACCEPTED);
    assert_eq!(contract.tally(201, 0), Ok(Some(s("A"))));
    assert!(contract.unstake_tokens(s("V1"), 202, 0).is_ok());
    assert_eq!(contract.tally(203, 0), Ok(Some(s("A"))));
    assert_eq!(totals(&contract, 0), vec![(s("A"), 10), (s("B"), 4)]);
}

#[test]
fn unstake_keeps_the_other_voters_in_order() {
    let mut contract = contract_with_proposal();
    for (voter, amount) in [("V1", 1u128), ("V2", 2), ("V3", 3), ("V4", 4)] {
        assert_eq!(confirm(&mut contract, "T1", 110, voter, amount, 0, "A"), ACCEPTED);
    }
    assert_eq!(contract.unstake_tokens(s("V2"), 201, 0).map(|order| order.amount), Ok(2));
    let proposal = contract.get_proposal(0).unwrap();
    assert_eq!(
        proposal.voter_stakes().entries(),
        vec![(s("V1"), 1), (s("V3"), 3), (s("V4"), 4)]
    );
}
