use voting::entity::VotingError;
use voting::ledger::PollLedger;

fn s(x: &str) -> String {
    x.to_string()
}

#[test]
fn scenario_two_candidates_one_window() {
    let mut l = PollLedger::new();
    assert_eq!(l.initialize_poll(1, s("Favorite teammate"), 100, 200), Ok(()));
    assert_eq!(l.initialize_candidate(1, s("Alice")), Ok(()));
    assert_eq!(l.initialize_candidate(1, s("Bob")), Ok(()));
    assert_eq!(l.count_poll_votes(1), Ok((1, 0, 2)));
    assert_eq!(l.vote(1, s("Alice"), s("voterA"), 150), Ok(()));
    assert_eq!(l.candidate_votes(1, s("Alice")), Ok(1));
    assert_eq!(l.count_poll_votes(1), Ok((1, 1, 2)));
    assert_eq!(
        l.vote(1, s("Alice"), s("voterA"), 160),
        Err(VotingError::AlreadyVoted)
    );
    assert_eq!(l.candidate_votes(1, s("Alice")), Ok(1));
    assert_eq!(l.count_poll_votes(1), Ok((1, 1, 2)));
    assert_eq!(
        l.vote(1, s("Bob"), s("voterB"), 250),
        Err(VotingError::PollEnded)
    );
    assert_eq!(l.candidate_votes(1, s("Bob")), Ok(0));
    assert_eq!(l.count_poll_votes(1), Ok((1, 1, 2)));
}

#[test]
fn initialize_poll_twice_rejected() {
    let mut l = PollLedger::new();
    assert_eq!(l.initialize_poll(7, s("first"), 10, 20), Ok(()));
    assert_eq!(
        l.initialize_poll(7, s("second"), 30, 40),
        Err(VotingError::AlreadyExists)
    );
    // The first poll's window still governs: its bounds are 10..=20.
    assert_eq!(l.initialize_candidate(7, s("Ada")), Ok(()));
    assert_eq!(
        l.vote(7, s("Ada"), s("v1"), 35),
        Err(VotingError::PollEnded)
    );
    assert_eq!(l.vote(7, s("Ada"), s("v1"), 15), Ok(()));
    assert_eq!(l.count_poll_votes(7), Ok((7, 1, 1)));
}

#[test]
fn candidate_count_tracks_registrations() {
    let mut l = PollLedger::new();
    assert_eq!(l.initialize_poll(3, s("board seats"), 0, 1000), Ok(()));
    assert_eq!(l.count_poll_votes(3), Ok((3, 0, 0)));
    assert_eq!(l.initialize_candidate(3, s("Ada")), Ok(()));
    assert_eq!(l.count_poll_votes(3), Ok((3, 0, 1)));
    assert_eq!(l.initialize_candidate(3, s("Grace")), Ok(()));
    assert_eq!(l.count_poll_votes(3), Ok((3, 0, 2)));
    assert_eq!(l.initialize_candidate(3, s("Edsger")), Ok(()));
    assert_eq!(l.count_poll_votes(3), Ok((3, 0, 3)));
}

#[test]
fn duplicate_candidate_name_rejected() {
    let mut l = PollLedger::new();
    assert_eq!(l.initialize_poll(3, s("one seat"), 0, 1000), Ok(()));
    assert_eq!(l.initialize_candidate(3, s("Ada")), Ok(()));
    assert_eq!(
        l.initialize_candidate(3, s("Ada")),
        Err(VotingError::AlreadyExists)
    );
    assert_eq!(l.count_poll_votes(3), Ok((3, 0, 1)));
    // The same name is free under a different poll.
    assert_eq!(l.initialize_poll(4, s("another seat"), 0, 1000), Ok(()));
    assert_eq!(l.initialize_candidate(4, s("Ada")), Ok(()));
}

#[test]
fn first_vote_succeeds_second_rejected() {
    let mut l = PollLedger::new();
    assert_eq!(l.initialize_poll(9, s("weekly pick"), 50, 60), Ok(()));
    assert_eq!(l.initialize_candidate(9, s("Ada")), Ok(()));
    assert_eq!(l.vote(9, s("Ada"), s("v1"), 55), Ok(()));
    assert_eq!(l.candidate_votes(9, s("Ada")), Ok(1));
    assert_eq!(l.count_poll_votes(9), Ok((9, 1, 1)));
    assert_eq!(
        l.vote(9, s("Ada"), s("v1"), 56),
        Err(VotingError::AlreadyVoted)
    );
    assert_eq!(l.candidate_votes(9, s("Ada")), Ok(1));
    assert_eq!(l.count_poll_votes(9), Ok((9, 1, 1)));
    // A different voter for the same candidate is a fresh receipt.
    assert_eq!(l.vote(9, s("Ada"), s("v2"), 57), Ok(()));
    assert_eq!(l.candidate_votes(9, s("Ada")), Ok(2));
    assert_eq!(l.count_poll_votes(9), Ok((9, 2, 1)));
}

#[test]
fn vote_outside_window_changes_nothing() {
    let mut l = PollLedger::new();
    assert_eq!(l.initialize_poll(2, s("timed poll"), 100, 200), Ok(()));
    assert_eq!(l.initialize_candidate(2, s("Ada")), Ok(()));
    assert_eq!(
        l.vote(2, s("Ada"), s("v1"), 99),
        Err(VotingError::PollNotStarted)
    );
    assert_eq!(l.candidate_votes(2, s("Ada")), Ok(0));
    assert_eq!(l.count_poll_votes(2), Ok((2, 0, 1)));
    assert_eq!(
        l.vote(2, s("Ada"), s("v1"), 201),
        Err(VotingError::PollEnded)
    );
    assert_eq!(l.candidate_votes(2, s("Ada")), Ok(0));
    assert_eq!(l.count_poll_votes(2), Ok((2, 0, 1)));
    // The rejected attempts left no receipt: the same voter may still vote.
    assert_eq!(l.vote(2, s("Ada"), s("v1"), 100), Ok(()));
}

#[test]
fn window_bounds_are_inclusive() {
    let mut l = PollLedger::new();
    assert_eq!(l.initialize_poll(5, s("edges"), 100, 200), Ok(()));
    assert_eq!(l.initialize_candidate(5, s("Ada")), Ok(()));
    assert_eq!(l.vote(5, s("Ada"), s("early"), 100), Ok(()));
    assert_eq!(l.vote(5, s("Ada"), s("late"), 200), Ok(()));
    assert_eq!(l.count_poll_votes(5), Ok((5, 2, 1)));
}

#[test]
fn missing_entities_not_found() {
    let mut l = PollLedger::new();
    assert_eq!(l.count_poll_votes(1), Err(VotingError::NotFound));
    assert_eq!(
        l.initialize_candidate(1, s("Ada")),
        Err(VotingError::NotFound)
    );
    assert_eq!(
        l.vote(1, s("Ada"), s("v1"), 150),
        Err(VotingError::NotFound)
    );
    assert_eq!(l.candidate_votes(1, s("Ada")), Err(VotingError::NotFound));
    assert_eq!(l.initialize_poll(1, s("now it exists"), 100, 200), Ok(()));
    // The poll exists, but the candidate still does not.
    assert_eq!(
        l.vote(1, s("Ada"), s("v1"), 150),
        Err(VotingError::NotFound)
    );
    assert_eq!(l.candidate_votes(1, s("Ada")), Err(VotingError::NotFound));
}

#[test]
fn same_voter_may_vote_for_each_candidate() {
    // Receipts are unique per (poll, candidate, voter) triple, so one voter
    // casts at most one vote per candidate.
    let mut l = PollLedger::new();
    assert_eq!(l.initialize_poll(6, s("pick any"), 0, 10), Ok(()));
    assert_eq!(l.initialize_candidate(6, s("Ada")), Ok(()));
    assert_eq!(l.initialize_candidate(6, s("Grace")), Ok(()));
    assert_eq!(l.vote(6, s("Ada"), s("v1"), 5), Ok(()));
    assert_eq!(l.vote(6, s("Grace"), s("v1"), 5), Ok(()));
    assert_eq!(
        l.vote(6, s("Ada"), s("v1"), 6),
        Err(VotingError::AlreadyVoted)
    );
    assert_eq!(l.candidate_votes(6, s("Ada")), Ok(1));
    assert_eq!(l.candidate_votes(6, s("Grace")), Ok(1));
    assert_eq!(l.count_poll_votes(6), Ok((6, 2, 2)));
}

#[test]
fn inverted_window_is_unvotable() {
    // Creation does not validate the window; a poll whose start lies after
    // its end rejects every timestamp with one of the two window errors.
    let mut l = PollLedger::new();
    assert_eq!(l.initialize_poll(8, s("inverted"), 200, 100), Ok(()));
    assert_eq!(l.initialize_candidate(8, s("Ada")), Ok(()));
    assert_eq!(
        l.vote(8, s("Ada"), s("v1"), 150),
        Err(VotingError::PollNotStarted)
    );
    assert_eq!(
        l.vote(8, s("Ada"), s("v1"), 250),
        Err(VotingError::PollEnded)
    );
    assert_eq!(l.count_poll_votes(8), Ok((8, 0, 1)));
}

#[test]
fn polls_are_isolated_from_each_other() {
    let mut l = PollLedger::new();
    assert_eq!(l.initialize_poll(1, s("first"), 0, 10), Ok(()));
    assert_eq!(l.initialize_poll(2, s("second"), 0, 10), Ok(()));
    assert_eq!(l.initialize_candidate(1, s("Ada")), Ok(()));
    assert_eq!(l.initialize_candidate(2, s("Ada")), Ok(()));
    assert_eq!(l.vote(1, s("Ada"), s("v1"), 5), Ok(()));
    assert_eq!(l.count_poll_votes(1), Ok((1, 1, 1)));
    assert_eq!(l.count_poll_votes(2), Ok((2, 0, 1)));
    assert_eq!(l.candidate_votes(2, s("Ada")), Ok(0));
    // The same voter is still free to vote in the other poll.
    assert_eq!(l.vote(2, s("Ada"), s("v1"), 5), Ok(()));
    assert_eq!(l.count_poll_votes(2), Ok((2, 1, 1)));
}
