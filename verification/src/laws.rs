//! The laws of the poll ledger, stated over the abstract transition functions
//! and proved once and for all. Each law speaks about every state the global
//! invariant admits, not about chosen values; the concrete scenarios live in
//! the test suite.

use crate::address::AddressView;
use crate::address::candidate_addr;
use crate::address::poll_addr;
use crate::address::receipt_addr;
use crate::entity::CandidateView;
use crate::entity::EntityView;
use crate::entity::PollView;
use crate::entity::VotingError;
use crate::ledger::candidate_addrs;
use crate::ledger::entry_ok;
use crate::ledger::inv;
use crate::ledger::lemma_families_insert_existing;
use crate::ledger::lemma_families_insert_fresh;
use crate::ledger::receipt_addrs;
use crate::ledger::receipt_addrs_for;
use crate::ledger::spec_candidate_votes;
use crate::ledger::spec_count_poll_votes;
use crate::ledger::spec_initialize_candidate;
use crate::ledger::spec_initialize_poll;
use crate::ledger::spec_vote;
use vstd::prelude::*;

verus! {

broadcast use vstd::set::group_set_axioms, vstd::map::group_map_axioms;

/// Initializing a second poll under an already-taken id is rejected with
/// `AlreadyExists`, and the first poll's fields — description, window and
/// both counters — stay exactly as the first initialization stored them.
pub proof fn law_initialize_poll_repeat(
    m: Map<AddressView, EntityView>,
    poll_id: u64,
    d1: Seq<char>,
    s1: u64,
    e1: u64,
    d2: Seq<char>,
    s2: u64,
    e2: u64,
)
    ensures
        ({
            let (m1, r1) = spec_initialize_poll(m, poll_id, d1, s1, e1);
            let (m2, r2) = spec_initialize_poll(m1, poll_id, d2, s2, e2);
            r1 is Ok ==> {
                &&& r2 == Err::<(), VotingError>(VotingError::AlreadyExists)
                &&& m2 == m1
                &&& m1[poll_addr(poll_id)] == EntityView::Poll(
                    PollView {
                        poll_id,
                        description: d1,
                        poll_start: s1,
                        poll_end: e1,
                        candidate_amount: 0,
                        poll_total_votes: 0,
                    },
                )
            }
        }),
{
}

/// A poll's stored counters are exact: `candidate_amount` equals the number
/// of candidates registered under it and `poll_total_votes` equals the number
/// of vote receipts recorded under it, so after N successful registrations
/// the tally reports a candidate count of N.
pub proof fn law_tally_counts_entities(m: Map<AddressView, EntityView>, poll_id: u64)
    requires
        inv(m),
        m.dom().contains(poll_addr(poll_id)),
    ensures
        m[poll_addr(poll_id)]->Poll_0.candidate_amount == candidate_addrs(m, poll_id).len(),
        m[poll_addr(poll_id)]->Poll_0.poll_total_votes == receipt_addrs(m, poll_id).len(),
        spec_count_poll_votes(m, poll_id) == Ok::<(u64, u64, u64), VotingError>(
            (
                poll_id,
                receipt_addrs(m, poll_id).len() as u64,
                candidate_addrs(m, poll_id).len() as u64,
            ),
        ),
{
}

/// A candidate's stored vote counter equals the number of vote receipts
/// recorded for it.
pub proof fn law_candidate_votes_count_receipts(
    m: Map<AddressView, EntityView>,
    poll_id: u64,
    name: Seq<char>,
)
    requires
        inv(m),
        m.dom().contains(candidate_addr(poll_id, name)),
    ensures
        spec_candidate_votes(m, poll_id, name) == Ok::<u64, VotingError>(
            receipt_addrs_for(m, poll_id, name).len() as u64,
        ),
{
}

/// Registering a candidate succeeds exactly when its poll exists and its
/// name is still free under that poll; a success adds that one candidate and
/// steps the poll's candidate count by exactly one.
pub proof fn law_register_candidate_increments(
    m: Map<AddressView, EntityView>,
    poll_id: u64,
    name: Seq<char>,
)
    requires
        inv(m),
        m.dom().contains(poll_addr(poll_id)) ==> m[poll_addr(poll_id)]->Poll_0.candidate_amount
            < u64::MAX,
    ensures
        ({
            let (m1, r) = spec_initialize_candidate(m, poll_id, name);
            &&& r is Ok <==> (m.dom().contains(poll_addr(poll_id)) && !m.dom().contains(
                candidate_addr(poll_id, name),
            ))
            &&& r is Ok ==> {
                &&& candidate_addrs(m1, poll_id) == candidate_addrs(m, poll_id).insert(
                    candidate_addr(poll_id, name),
                )
                &&& m1[poll_addr(poll_id)]->Poll_0.candidate_amount == m[poll_addr(
                    poll_id,
                )]->Poll_0.candidate_amount + 1
                &&& m1[poll_addr(poll_id)]->Poll_0.poll_total_votes == m[poll_addr(
                    poll_id,
                )]->Poll_0.poll_total_votes
            }
        }),
{
    let pa = poll_addr(poll_id);
    let ca = candidate_addr(poll_id, name);
    if m.dom().contains(pa) && !m.dom().contains(ca) {
        let p = m[pa]->Poll_0;
        let p2 = PollView {
            poll_id: p.poll_id,
            description: p.description,
            poll_start: p.poll_start,
            poll_end: p.poll_end,
            candidate_amount: (p.candidate_amount + 1) as u64,
            poll_total_votes: p.poll_total_votes,
        };
        let cv = CandidateView { candidate_name: name, candidate_votes: 0 };
        let ma = m.insert(ca, EntityView::Candidate(cv));
        lemma_families_insert_fresh(m, ca, EntityView::Candidate(cv));
        lemma_families_insert_existing(ma, pa, EntityView::Poll(p2));
    }
}

/// The first vote of a (poll, candidate, voter) triple inside the voting
/// window succeeds and steps the candidate's votes and the poll's total by
/// exactly one; a second vote with the identical triple is rejected with
/// `AlreadyVoted` and changes nothing, whatever in-window time it is cast at.
pub proof fn law_vote_once(
    m: Map<AddressView, EntityView>,
    poll_id: u64,
    name: Seq<char>,
    voter: Seq<char>,
    t1: u64,
    t2: u64,
)
    requires
        inv(m),
        m.dom().contains(poll_addr(poll_id)),
        m.dom().contains(candidate_addr(poll_id, name)),
        !m.dom().contains(receipt_addr(poll_id, name, voter)),
        m[poll_addr(poll_id)]->Poll_0.poll_start <= t1 <= m[poll_addr(poll_id)]->Poll_0.poll_end,
        m[poll_addr(poll_id)]->Poll_0.poll_start <= t2 <= m[poll_addr(poll_id)]->Poll_0.poll_end,
        m[poll_addr(poll_id)]->Poll_0.poll_total_votes < u64::MAX,
        m[candidate_addr(poll_id, name)]->Candidate_0.candidate_votes < u64::MAX,
    ensures
        ({
            let (m1, r1) = spec_vote(m, poll_id, name, voter, t1);
            let (m2, r2) = spec_vote(m1, poll_id, name, voter, t2);
            &&& r1 == Ok::<(), VotingError>(())
            &&& m1[candidate_addr(poll_id, name)]->Candidate_0.candidate_votes == m[candidate_addr(
                poll_id,
                name,
            )]->Candidate_0.candidate_votes + 1
            &&& m1[poll_addr(poll_id)]->Poll_0.poll_total_votes == m[poll_addr(
                poll_id,
            )]->Poll_0.poll_total_votes + 1
            &&& r2 == Err::<(), VotingError>(VotingError::AlreadyVoted)
            &&& m2 == m1
        }),
{
}

/// A vote cast before the window opens is rejected with `PollNotStarted`, and
/// one cast past the window's open side after its close with `PollEnded`;
/// neither changes any state. (A poll stored with an inverted window rejects
/// a time below both bounds as `PollNotStarted`, the check that comes first.)
pub proof fn law_vote_outside_window(
    m: Map<AddressView, EntityView>,
    poll_id: u64,
    name: Seq<char>,
    voter: Seq<char>,
    t: u64,
)
    requires
        m.dom().contains(poll_addr(poll_id)),
        m.dom().contains(candidate_addr(poll_id, name)),
    ensures
        ({
            let p = m[poll_addr(poll_id)]->Poll_0;
            let (m1, r) = spec_vote(m, poll_id, name, voter, t);
            &&& t < p.poll_start ==> r == Err::<(), VotingError>(VotingError::PollNotStarted)
                && m1 == m
            &&& p.poll_start <= t && t > p.poll_end ==> r == Err::<(), VotingError>(
                VotingError::PollEnded,
            ) && m1 == m
        }),
{
}

/// How one stored entity may change across a single transition: a poll keeps
/// its identity, description and window and its counters never shrink; a
/// candidate keeps its name and its counter never shrinks; a receipt never
/// changes at all.
pub open spec fn entity_grows(e: EntityView, e2: EntityView) -> bool {
    match (e, e2) {
        (EntityView::Poll(p), EntityView::Poll(p2)) => {
            &&& p2.poll_id == p.poll_id
            &&& p2.description == p.description
            &&& p2.poll_start == p.poll_start
            &&& p2.poll_end == p.poll_end
            &&& p2.candidate_amount >= p.candidate_amount
            &&& p2.poll_total_votes >= p.poll_total_votes
        },
        (EntityView::Candidate(c), EntityView::Candidate(c2)) => {
            &&& c2.candidate_name == c.candidate_name
            &&& c2.candidate_votes >= c.candidate_votes
        },
        (EntityView::Voter(v), EntityView::Voter(v2)) => v2 == v,
        _ => false,
    }
}

/// No entity is ever deleted, and each one only grows.
pub open spec fn state_grows(m: Map<AddressView, EntityView>, m2: Map<AddressView, EntityView>) -> bool {
    forall|a: AddressView|
        #[trigger] m.dom().contains(a) ==> m2.dom().contains(a) && entity_grows(m[a], m2[a])
}

/// Entities are immutable once their identifying seed fields are set: every
/// operation leaves each existing entity in place, changes none of its
/// identifying fields, and moves counters only upward.
pub proof fn law_entities_immutable_counters_monotonic(
    m: Map<AddressView, EntityView>,
    poll_id: u64,
    description: Seq<char>,
    poll_start: u64,
    poll_end: u64,
    name: Seq<char>,
    voter: Seq<char>,
    t: u64,
)
    requires
        inv(m),
        m.dom().contains(poll_addr(poll_id)) ==> m[poll_addr(poll_id)]->Poll_0.candidate_amount
            < u64::MAX && m[poll_addr(poll_id)]->Poll_0.poll_total_votes < u64::MAX,
        m.dom().contains(candidate_addr(poll_id, name)) ==> m[candidate_addr(
            poll_id,
            name,
        )]->Candidate_0.candidate_votes < u64::MAX,
    ensures
        state_grows(m, spec_initialize_poll(m, poll_id, description, poll_start, poll_end).0),
        state_grows(m, spec_initialize_candidate(m, poll_id, name).0),
        state_grows(m, spec_vote(m, poll_id, name, voter, t).0),
{
    let pa = poll_addr(poll_id);
    let ca = candidate_addr(poll_id, name);
    let m1 = spec_initialize_poll(m, poll_id, description, poll_start, poll_end).0;
    assert forall|a: AddressView| #[trigger] m.dom().contains(a) implies m1.dom().contains(a)
        && entity_grows(m[a], m1[a]) by {
        assert(entity_grows(m[a], m[a]));
    }
    let m2 = spec_initialize_candidate(m, poll_id, name).0;
    assert forall|a: AddressView| #[trigger] m.dom().contains(a) implies m2.dom().contains(a)
        && entity_grows(m[a], m2[a]) by {
        assert(entity_grows(m[a], m[a]));
        if a == pa {
            assert(entry_ok(a, m[a]));
        }
    }
    let m3 = spec_vote(m, poll_id, name, voter, t).0;
    assert forall|a: AddressView| #[trigger] m.dom().contains(a) implies m3.dom().contains(a)
        && entity_grows(m[a], m3[a]) by {
        assert(entity_grows(m[a], m[a]));
        if a == pa {
            assert(entry_ok(a, m[a]));
        }
        if a == ca {
            assert(entry_ok(a, m[a]));
        }
    }
}

/// Idempotence under failure: a rejected operation of any error kind leaves
/// the abstract state identical to the state before the call. (The executable
/// operations say more: on any error the ledger value itself is unchanged.)
pub proof fn law_rejection_changes_nothing(
    m: Map<AddressView, EntityView>,
    poll_id: u64,
    description: Seq<char>,
    poll_start: u64,
    poll_end: u64,
    name: Seq<char>,
    voter: Seq<char>,
    t: u64,
)
    ensures
        ({
            let (m1, r) = spec_initialize_poll(m, poll_id, description, poll_start, poll_end);
            r is Err ==> m1 == m
        }),
        ({
            let (m1, r) = spec_initialize_candidate(m, poll_id, name);
            r is Err ==> m1 == m
        }),
        ({
            let (m1, r) = spec_vote(m, poll_id, name, voter, t);
            r is Err ==> m1 == m
        }),
{
}

} // verus!

