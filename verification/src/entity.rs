//! The three entity kinds of the poll ledger and the error taxonomy.
//!
//! Each entity is a persistently stored record. A `Poll` owns two monotonic
//! counters; a `Candidate` owns one; a `Voter` receipt carries no counter at
//! all, because its mere existence at its derived address is the fact it
//! records ("this identity already voted for this candidate in this poll").

use vstd::prelude::*;

verus! {

/// Why an operation was rejected. Every error is terminal for the call and
/// leaves the ledger exactly as it was.
#[derive(Clone, Copy, Debug, PartialEq, Eq, Structural)]
pub enum VotingError {
    /// The host clock is still before the poll's voting window.
    PollNotStarted,
    /// The host clock is already past the poll's voting window.
    PollEnded,
    /// A referenced poll or candidate does not exist.
    NotFound,
    /// A poll id or a candidate name was reused.
    AlreadyExists,
    /// A vote receipt for this (poll, candidate, voter) triple already exists.
    AlreadyVoted,
}

/// A poll: externally chosen id, a bounded description, an inclusive voting
/// window, and two counters that only ever move upward.
pub struct Poll {
    pub poll_id: u64,
    pub description: String,
    pub poll_start: u64,
    pub poll_end: u64,
    pub candidate_amount: u64,
    pub poll_total_votes: u64,
}

/// The mathematical image of a `Poll`.
pub struct PollView {
    pub poll_id: u64,
    pub description: Seq<char>,
    pub poll_start: u64,
    pub poll_end: u64,
    pub candidate_amount: u64,
    pub poll_total_votes: u64,
}

impl View for Poll {
    type V = PollView;

    open spec fn view(&self) -> PollView {
        PollView {
            poll_id: self.poll_id,
            description: self.description@,
            poll_start: self.poll_start,
            poll_end: self.poll_end,
            candidate_amount: self.candidate_amount,
            poll_total_votes: self.poll_total_votes,
        }
    }
}

/// A candidate registered under one poll; its name is part of its derived
/// address, so it is unique per (poll, name).
pub struct Candidate {
    pub candidate_name: String,
    pub candidate_votes: u64,
}

/// The mathematical image of a `Candidate`.
pub struct CandidateView {
    pub candidate_name: Seq<char>,
    pub candidate_votes: u64,
}

impl View for Candidate {
    type V = CandidateView;

    open spec fn view(&self) -> CandidateView {
        CandidateView {
            candidate_name: self.candidate_name@,
            candidate_votes: self.candidate_votes,
        }
    }
}

/// A vote receipt, stamped with the poll and the voter identity it proves a
/// vote for. Immutable once created; never deleted.
pub struct Voter {
    pub poll_id: u64,
    pub voter: String,
}

/// The mathematical image of a `Voter` receipt.
pub struct VoterView {
    pub poll_id: u64,
    pub voter: Seq<char>,
}

impl View for Voter {
    type V = VoterView;

    open spec fn view(&self) -> VoterView {
        VoterView { poll_id: self.poll_id, voter: self.voter@ }
    }
}

/// Any record the entity store can hold.
pub enum Entity {
    Poll(Poll),
    Candidate(Candidate),
    Voter(Voter),
}

/// The mathematical image of an `Entity`.
pub enum EntityView {
    Poll(PollView),
    Candidate(CandidateView),
    Voter(VoterView),
}

impl View for Entity {
    type V = EntityView;

    open spec fn view(&self) -> EntityView {
        match self {
            Entity::Poll(p) => EntityView::Poll(p@),
            Entity::Candidate(c) => EntityView::Candidate(c@),
            Entity::Voter(v) => EntityView::Voter(v@),
        }
    }
}

} // verus!
