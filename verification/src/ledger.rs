//! The transition logic: the four operations of the poll ledger, their
//! mathematical transition functions, and the global invariant that ties each
//! stored counter to the number of entities it counts.
//!
//! Every operation first derives the addresses of the entities it touches,
//! reads or creates them through the entity store, validates its preconditions
//! against the current state and the host-supplied clock, and only then writes
//! back. A rejected operation of any kind leaves the ledger exactly as it was.

use crate::address::Address;
use crate::address::AddressView;
use crate::address::candidate_addr;
use crate::address::poll_addr;
use crate::address::receipt_addr;
use crate::entity::Candidate;
use crate::entity::CandidateView;
use crate::entity::Entity;
use crate::entity::EntityView;
use crate::entity::Poll;
use crate::entity::PollView;
use crate::entity::Voter;
use crate::entity::VoterView;
use crate::entity::VotingError;
use crate::store::EntityStore;
use vstd::prelude::*;
use vstd::set_lib::lemma_len_subset;

verus! {

broadcast use vstd::set::group_set_axioms, vstd::map::group_map_axioms;

/// The longest description a poll may carry, in characters.
pub const MAX_DESCRIPTION_LEN: usize = 200;

/// The longest name a candidate may carry, in characters.
pub const MAX_CANDIDATE_NAME_LEN: usize = 32;

/// Whether `a` is the address of a candidate registered under `poll_id`.
pub open spec fn is_candidate_under(a: AddressView, poll_id: u64) -> bool {
    a matches AddressView::Candidate { poll_id: p, .. } && p == poll_id
}

/// Whether `a` is the address of a vote receipt recorded under `poll_id`.
pub open spec fn is_receipt_under(a: AddressView, poll_id: u64) -> bool {
    a matches AddressView::Receipt { poll_id: p, .. } && p == poll_id
}

/// Whether `a` is the address of a vote receipt for one candidate of one poll.
pub open spec fn is_receipt_for(a: AddressView, poll_id: u64, candidate_name: Seq<char>) -> bool {
    a matches AddressView::Receipt { poll_id: p, candidate_name: n, .. } && p == poll_id && n
        == candidate_name
}

/// The addresses of all candidates registered under a poll.
pub open spec fn candidate_addrs(m: Map<AddressView, EntityView>, poll_id: u64) -> Set<
    AddressView,
> {
    m.dom().filter(|a: AddressView| is_candidate_under(a, poll_id))
}

/// The addresses of all vote receipts recorded under a poll.
pub open spec fn receipt_addrs(m: Map<AddressView, EntityView>, poll_id: u64) -> Set<AddressView> {
    m.dom().filter(|a: AddressView| is_receipt_under(a, poll_id))
}

/// The addresses of all vote receipts recorded for one candidate of one poll.
pub open spec fn receipt_addrs_for(
    m: Map<AddressView, EntityView>,
    poll_id: u64,
    candidate_name: Seq<char>,
) -> Set<AddressView> {
    m.dom().filter(|a: AddressView| is_receipt_for(a, poll_id, candidate_name))
}

/// The entity stored at an address is of the address's kind, and its
/// identifying fields repeat the address's seeds verbatim.
pub open spec fn entry_ok(a: AddressView, e: EntityView) -> bool {
    match a {
        AddressView::Poll { poll_id } => e matches EntityView::Poll(p) && p.poll_id == poll_id
            && p.description.len() <= MAX_DESCRIPTION_LEN,
        AddressView::Candidate { poll_id, candidate_name } => e matches EntityView::Candidate(c)
            && c.candidate_name == candidate_name && candidate_name.len()
            <= MAX_CANDIDATE_NAME_LEN,
        AddressView::Receipt { poll_id, candidate_name, voter } => e matches EntityView::Voter(v)
            && v.poll_id == poll_id && v.voter == voter,
    }
}

/// A candidate's poll exists, and a receipt's poll and candidate exist.
pub open spec fn refs_ok(a: AddressView, m: Map<AddressView, EntityView>) -> bool {
    match a {
        AddressView::Poll { .. } => true,
        AddressView::Candidate { poll_id, .. } => m.dom().contains(poll_addr(poll_id)),
        AddressView::Receipt { poll_id, candidate_name, .. } => m.dom().contains(
            poll_addr(poll_id),
        ) && m.dom().contains(candidate_addr(poll_id, candidate_name)),
    }
}

/// Each stored counter equals the number of entities it counts: a poll's
/// `candidate_amount` counts the candidates registered under it, its
/// `poll_total_votes` counts the receipts recorded under it, and a
/// candidate's `candidate_votes` counts the receipts recorded for it.
pub open spec fn counters_ok(a: AddressView, m: Map<AddressView, EntityView>) -> bool {
    match a {
        AddressView::Poll { poll_id } => {
            let p = m[a]->Poll_0;
            &&& p.candidate_amount == candidate_addrs(m, poll_id).len()
            &&& p.poll_total_votes == receipt_addrs(m, poll_id).len()
        },
        AddressView::Candidate { poll_id, candidate_name } => m[a]->Candidate_0.candidate_votes
            == receipt_addrs_for(m, poll_id, candidate_name).len(),
        AddressView::Receipt { .. } => true,
    }
}

/// The global invariant of the ledger's abstract state.
pub open spec fn inv(m: Map<AddressView, EntityView>) -> bool {
    &&& m.dom().finite()
    &&& forall|a: AddressView|
        #[trigger] m.dom().contains(a) ==> entry_ok(a, m[a]) && refs_ok(a, m) && counters_ok(a, m)
}

/// What `initialize_poll` does to the abstract state.
pub open spec fn spec_initialize_poll(
    m: Map<AddressView, EntityView>,
    poll_id: u64,
    description: Seq<char>,
    poll_start: u64,
    poll_end: u64,
) -> (Map<AddressView, EntityView>, Result<(), VotingError>) {
    let pa = poll_addr(poll_id);
    if m.dom().contains(pa) {
        (m, Err(VotingError::AlreadyExists))
    } else {
        (
            m.insert(
                pa,
                EntityView::Poll(
                    PollView {
                        poll_id,
                        description,
                        poll_start,
                        poll_end,
                        candidate_amount: 0,
                        poll_total_votes: 0,
                    },
                ),
            ),
            Ok(()),
        )
    }
}

/// What `initialize_candidate` does to the abstract state.
pub open spec fn spec_initialize_candidate(
    m: Map<AddressView, EntityView>,
    poll_id: u64,
    candidate_name: Seq<char>,
) -> (Map<AddressView, EntityView>, Result<(), VotingError>) {
    let pa = poll_addr(poll_id);
    let ca = candidate_addr(poll_id, candidate_name);
    if !m.dom().contains(pa) {
        (m, Err(VotingError::NotFound))
    } else if m.dom().contains(ca) {
        (m, Err(VotingError::AlreadyExists))
    } else {
        let p = m[pa]->Poll_0;
        let p2 = PollView {
            poll_id: p.poll_id,
            description: p.description,
            poll_start: p.poll_start,
            poll_end: p.poll_end,
            candidate_amount: (p.candidate_amount + 1) as u64,
            poll_total_votes: p.poll_total_votes,
        };
        (
            m.insert(
                ca,
                EntityView::Candidate(CandidateView { candidate_name, candidate_votes: 0 }),
            ).insert(pa, EntityView::Poll(p2)),
            Ok(()),
        )
    }
}

/// What `vote` does to the abstract state, given the host clock's reading.
pub open spec fn spec_vote(
    m: Map<AddressView, EntityView>,
    poll_id: u64,
    candidate_name: Seq<char>,
    voter: Seq<char>,
    current_time: u64,
) -> (Map<AddressView, EntityView>, Result<(), VotingError>) {
    let pa = poll_addr(poll_id);
    let ca = candidate_addr(poll_id, candidate_name);
    let ra = receipt_addr(poll_id, candidate_name, voter);
    if !m.dom().contains(pa) {
        (m, Err(VotingError::NotFound))
    } else if !m.dom().contains(ca) {
        (m, Err(VotingError::NotFound))
    } else {
        let p = m[pa]->Poll_0;
        let c = m[ca]->Candidate_0;
        if current_time < p.poll_start {
            (m, Err(VotingError::PollNotStarted))
        } else if current_time > p.poll_end {
            (m, Err(VotingError::PollEnded))
        } else if m.dom().contains(ra) {
            (m, Err(VotingError::AlreadyVoted))
        } else {
            let p2 = PollView {
                poll_id: p.poll_id,
                description: p.description,
                poll_start: p.poll_start,
                poll_end: p.poll_end,
                candidate_amount: p.candidate_amount,
                poll_total_votes: (p.poll_total_votes + 1) as u64,
            };
            let c2 = CandidateView {
                candidate_name: c.candidate_name,
                candidate_votes: (c.candidate_votes + 1) as u64,
            };
            (
                m.insert(ra, EntityView::Voter(VoterView { poll_id, voter })).insert(
                    ca,
                    EntityView::Candidate(c2),
                ).insert(pa, EntityView::Poll(p2)),
                Ok(()),
            )
        }
    }
}

/// What `candidate_votes` reports of the abstract state.
pub open spec fn spec_candidate_votes(
    m: Map<AddressView, EntityView>,
    poll_id: u64,
    candidate_name: Seq<char>,
) -> Result<u64, VotingError> {
    let ca = candidate_addr(poll_id, candidate_name);
    if !m.dom().contains(ca) {
        Err(VotingError::NotFound)
    } else {
        Ok(m[ca]->Candidate_0.candidate_votes)
    }
}

/// What `count_poll_votes` reports of the abstract state.
pub open spec fn spec_count_poll_votes(m: Map<AddressView, EntityView>, poll_id: u64) -> Result<
    (u64, u64, u64),
    VotingError,
> {
    let pa = poll_addr(poll_id);
    if !m.dom().contains(pa) {
        Err(VotingError::NotFound)
    } else {
        let p = m[pa]->Poll_0;
        Ok((poll_id, p.poll_total_votes, p.candidate_amount))
    }
}

/// Inserting a fresh key grows exactly the families the key belongs to.
pub proof fn lemma_families_insert_fresh(
    m: Map<AddressView, EntityView>,
    k: AddressView,
    v: EntityView,
)
    requires
        !m.dom().contains(k),
    ensures
        forall|pid: u64|
            #[trigger] candidate_addrs(m.insert(k, v), pid) == if is_candidate_under(k, pid) {
                candidate_addrs(m, pid).insert(k)
            } else {
                candidate_addrs(m, pid)
            },
        forall|pid: u64|
            #[trigger] receipt_addrs(m.insert(k, v), pid) == if is_receipt_under(k, pid) {
                receipt_addrs(m, pid).insert(k)
            } else {
                receipt_addrs(m, pid)
            },
        forall|pid: u64, name: Seq<char>|
            #[trigger] receipt_addrs_for(m.insert(k, v), pid, name) == if is_receipt_for(
                k,
                pid,
                name,
            ) {
                receipt_addrs_for(m, pid, name).insert(k)
            } else {
                receipt_addrs_for(m, pid, name)
            },
{
    assert forall|pid: u64|
        #[trigger] candidate_addrs(m.insert(k, v), pid) == if is_candidate_under(k, pid) {
            candidate_addrs(m, pid).insert(k)
        } else {
            candidate_addrs(m, pid)
        } by {
        if is_candidate_under(k, pid) {
            assert(candidate_addrs(m.insert(k, v), pid) =~= candidate_addrs(m, pid).insert(k));
        } else {
            assert(candidate_addrs(m.insert(k, v), pid) =~= candidate_addrs(m, pid));
        }
    }
    assert forall|pid: u64|
        #[trigger] receipt_addrs(m.insert(k, v), pid) == if is_receipt_under(k, pid) {
            receipt_addrs(m, pid).insert(k)
        } else {
            receipt_addrs(m, pid)
        } by {
        if is_receipt_under(k, pid) {
            assert(receipt_addrs(m.insert(k, v), pid) =~= receipt_addrs(m, pid).insert(k));
        } else {
            assert(receipt_addrs(m.insert(k, v), pid) =~= receipt_addrs(m, pid));
        }
    }
    assert forall|pid: u64, name: Seq<char>|
        #[trigger] receipt_addrs_for(m.insert(k, v), pid, name) == if is_receipt_for(
            k,
            pid,
            name,
        ) {
            receipt_addrs_for(m, pid, name).insert(k)
        } else {
            receipt_addrs_for(m, pid, name)
        } by {
        if is_receipt_for(k, pid, name) {
            assert(receipt_addrs_for(m.insert(k, v), pid, name) =~= receipt_addrs_for(
                m,
                pid,
                name,
            ).insert(k));
        } else {
            assert(receipt_addrs_for(m.insert(k, v), pid, name) =~= receipt_addrs_for(
                m,
                pid,
                name,
            ));
        }
    }
}

/// Overwriting the value at an existing key changes no family of addresses.
pub proof fn lemma_families_insert_existing(
    m: Map<AddressView, EntityView>,
    k: AddressView,
    v: EntityView,
)
    requires
        m.dom().contains(k),
    ensures
        forall|pid: u64|
            #[trigger] candidate_addrs(m.insert(k, v), pid) == candidate_addrs(m, pid),
        forall|pid: u64| #[trigger] receipt_addrs(m.insert(k, v), pid) == receipt_addrs(m, pid),
        forall|pid: u64, name: Seq<char>|
            #[trigger] receipt_addrs_for(m.insert(k, v), pid, name) == receipt_addrs_for(
                m,
                pid,
                name,
            ),
{
    assert forall|pid: u64|
        #[trigger] candidate_addrs(m.insert(k, v), pid) == candidate_addrs(m, pid) by {
        assert(candidate_addrs(m.insert(k, v), pid) =~= candidate_addrs(m, pid));
    }
    assert forall|pid: u64|
        #[trigger] receipt_addrs(m.insert(k, v), pid) == receipt_addrs(m, pid) by {
        assert(receipt_addrs(m.insert(k, v), pid) =~= receipt_addrs(m, pid));
    }
    assert forall|pid: u64, name: Seq<char>|
        #[trigger] receipt_addrs_for(m.insert(k, v), pid, name) == receipt_addrs_for(
            m,
            pid,
            name,
        ) by {
        assert(receipt_addrs_for(m.insert(k, v), pid, name) =~= receipt_addrs_for(m, pid, name));
    }
}

/// Every family of addresses is a finite subset of the state's domain.
proof fn lemma_family_bounds(m: Map<AddressView, EntityView>, poll_id: u64, name: Seq<char>)
    requires
        m.dom().finite(),
    ensures
        candidate_addrs(m, poll_id).finite(),
        candidate_addrs(m, poll_id).len() <= m.dom().len(),
        receipt_addrs(m, poll_id).finite(),
        receipt_addrs(m, poll_id).len() <= m.dom().len(),
        receipt_addrs_for(m, poll_id, name).finite(),
        receipt_addrs_for(m, poll_id, name).len() <= m.dom().len(),
{
    assert(candidate_addrs(m, poll_id).subset_of(m.dom()));
    lemma_len_subset(candidate_addrs(m, poll_id), m.dom());
    assert(receipt_addrs(m, poll_id).subset_of(m.dom()));
    lemma_len_subset(receipt_addrs(m, poll_id), m.dom());
    assert(receipt_addrs_for(m, poll_id, name).subset_of(m.dom()));
    lemma_len_subset(receipt_addrs_for(m, poll_id, name), m.dom());
}

/// Creating a poll at a free address preserves the global invariant.
proof fn lemma_inv_create_poll(m: Map<AddressView, EntityView>, poll_id: u64, p: PollView)
    requires
        inv(m),
        !m.dom().contains(poll_addr(poll_id)),
        p.poll_id == poll_id,
        p.candidate_amount == 0,
        p.poll_total_votes == 0,
        p.description.len() <= MAX_DESCRIPTION_LEN,
    ensures
        inv(m.insert(poll_addr(poll_id), EntityView::Poll(p))),
{
    let pa = poll_addr(poll_id);
    let m2 = m.insert(pa, EntityView::Poll(p));
    lemma_families_insert_fresh(m, pa, EntityView::Poll(p));
    // No candidate or receipt can exist under a poll that does not exist.
    assert forall|x: AddressView| !(#[trigger] candidate_addrs(m, poll_id).contains(x)) by {
        if candidate_addrs(m, poll_id).contains(x) {
            assert(m.dom().contains(x));
            assert(refs_ok(x, m));
        }
    }
    assert forall|x: AddressView| !(#[trigger] receipt_addrs(m, poll_id).contains(x)) by {
        if receipt_addrs(m, poll_id).contains(x) {
            assert(m.dom().contains(x));
            assert(refs_ok(x, m));
        }
    }
    assert(candidate_addrs(m, poll_id) =~= Set::<AddressView>::empty());
    assert(receipt_addrs(m, poll_id) =~= Set::<AddressView>::empty());
    assert forall|a: AddressView| #[trigger] m2.dom().contains(a) implies entry_ok(a, m2[a])
        && refs_ok(a, m2) && counters_ok(a, m2) by {
        if a == pa {
            assert(candidate_addrs(m2, poll_id) == candidate_addrs(m, poll_id));
            assert(receipt_addrs(m2, poll_id) == receipt_addrs(m, poll_id));
        } else {
            assert(m.dom().contains(a));
            assert(entry_ok(a, m[a]) && refs_ok(a, m) && counters_ok(a, m));
            assert(m2[a] == m[a]);
            match a {
                AddressView::Poll { poll_id: pid2 } => {
                    assert(candidate_addrs(m2, pid2) == candidate_addrs(m, pid2));
                    assert(receipt_addrs(m2, pid2) == receipt_addrs(m, pid2));
                },
                AddressView::Candidate { poll_id: pid2, candidate_name: n2 } => {
                    assert(receipt_addrs_for(m2, pid2, n2) == receipt_addrs_for(m, pid2, n2));
                },
                AddressView::Receipt { .. } => {},
            }
        }
    }
}

/// Registering a candidate under an existing poll preserves the global
/// invariant.
proof fn lemma_inv_create_candidate(
    m: Map<AddressView, EntityView>,
    poll_id: u64,
    name: Seq<char>,
    p2: PollView,
)
    requires
        inv(m),
        m.dom().contains(poll_addr(poll_id)),
        !m.dom().contains(candidate_addr(poll_id, name)),
        name.len() <= MAX_CANDIDATE_NAME_LEN,
        p2.poll_id == poll_id,
        p2.description == m[poll_addr(poll_id)]->Poll_0.description,
        p2.poll_start == m[poll_addr(poll_id)]->Poll_0.poll_start,
        p2.poll_end == m[poll_addr(poll_id)]->Poll_0.poll_end,
        p2.poll_total_votes == m[poll_addr(poll_id)]->Poll_0.poll_total_votes,
        p2.candidate_amount == m[poll_addr(poll_id)]->Poll_0.candidate_amount + 1,
    ensures
        inv(
            m.insert(
                candidate_addr(poll_id, name),
                EntityView::Candidate(CandidateView { candidate_name: name, candidate_votes: 0 }),
            ).insert(poll_addr(poll_id), EntityView::Poll(p2)),
        ),
{
    let pa = poll_addr(poll_id);
    let ca = candidate_addr(poll_id, name);
    let cv = CandidateView { candidate_name: name, candidate_votes: 0 };
    let m2 = m.insert(ca, EntityView::Candidate(cv));
    let m3 = m2.insert(pa, EntityView::Poll(p2));
    lemma_families_insert_fresh(m, ca, EntityView::Candidate(cv));
    lemma_families_insert_existing(m2, pa, EntityView::Poll(p2));
    lemma_family_bounds(m, poll_id, name);
    // A receipt for a candidate that does not exist cannot exist either.
    assert forall|x: AddressView| !(#[trigger] receipt_addrs_for(m, poll_id, name).contains(
        x,
    )) by {
        if receipt_addrs_for(m, poll_id, name).contains(x) {
            assert(m.dom().contains(x));
            assert(refs_ok(x, m));
        }
    }
    assert(receipt_addrs_for(m, poll_id, name) =~= Set::<AddressView>::empty());
    assert(!candidate_addrs(m, poll_id).contains(ca));
    assert(candidate_addrs(m2, poll_id).len() == candidate_addrs(m, poll_id).len() + 1);
    assert forall|a: AddressView| #[trigger] m3.dom().contains(a) implies entry_ok(a, m3[a])
        && refs_ok(a, m3) && counters_ok(a, m3) by {
        if a == ca {
            assert(receipt_addrs_for(m3, poll_id, name) == receipt_addrs_for(m, poll_id, name));
        } else if a == pa {
            assert(m.dom().contains(a));
            assert(entry_ok(a, m[a]));
            assert(candidate_addrs(m3, poll_id) == candidate_addrs(m2, poll_id));
            assert(receipt_addrs(m3, poll_id) == receipt_addrs(m, poll_id));
        } else {
            assert(m.dom().contains(a));
            assert(entry_ok(a, m[a]) && refs_ok(a, m) && counters_ok(a, m));
            assert(m3[a] == m[a]);
            match a {
                AddressView::Poll { poll_id: pid2 } => {
                    assert(candidate_addrs(m3, pid2) == candidate_addrs(m, pid2));
                    assert(receipt_addrs(m3, pid2) == receipt_addrs(m, pid2));
                },
                AddressView::Candidate { poll_id: pid2, candidate_name: n2 } => {
                    assert(receipt_addrs_for(m3, pid2, n2) == receipt_addrs_for(m, pid2, n2));
                },
                AddressView::Receipt { .. } => {},
            }
        }
    }
}

/// Recording a fresh vote receipt and stepping both counters preserves the
/// global invariant.
proof fn lemma_inv_vote(
    m: Map<AddressView, EntityView>,
    poll_id: u64,
    name: Seq<char>,
    voter: Seq<char>,
    p2: PollView,
    c2: CandidateView,
)
    requires
        inv(m),
        m.dom().contains(poll_addr(poll_id)),
        m.dom().contains(candidate_addr(poll_id, name)),
        !m.dom().contains(receipt_addr(poll_id, name, voter)),
        p2.poll_id == poll_id,
        p2.description == m[poll_addr(poll_id)]->Poll_0.description,
        p2.poll_start == m[poll_addr(poll_id)]->Poll_0.poll_start,
        p2.poll_end == m[poll_addr(poll_id)]->Poll_0.poll_end,
        p2.candidate_amount == m[poll_addr(poll_id)]->Poll_0.candidate_amount,
        p2.poll_total_votes == m[poll_addr(poll_id)]->Poll_0.poll_total_votes + 1,
        c2.candidate_name == name,
        c2.candidate_votes == m[candidate_addr(poll_id, name)]->Candidate_0.candidate_votes + 1,
    ensures
        inv(
            m.insert(
                receipt_addr(poll_id, name, voter),
                EntityView::Voter(VoterView { poll_id, voter }),
            ).insert(candidate_addr(poll_id, name), EntityView::Candidate(c2)).insert(
                poll_addr(poll_id),
                EntityView::Poll(p2),
            ),
        ),
{
    let pa = poll_addr(poll_id);
    let ca = candidate_addr(poll_id, name);
    let ra = receipt_addr(poll_id, name, voter);
    let rv = EntityView::Voter(VoterView { poll_id, voter });
    let m2 = m.insert(ra, rv);
    let m3 = m2.insert(ca, EntityView::Candidate(c2));
    let m4 = m3.insert(pa, EntityView::Poll(p2));
    lemma_families_insert_fresh(m, ra, rv);
    lemma_families_insert_existing(m2, ca, EntityView::Candidate(c2));
    lemma_families_insert_existing(m3, pa, EntityView::Poll(p2));
    lemma_family_bounds(m, poll_id, name);
    assert(!receipt_addrs(m, poll_id).contains(ra));
    assert(!receipt_addrs_for(m, poll_id, name).contains(ra));
    assert(receipt_addrs(m2, poll_id).len() == receipt_addrs(m, poll_id).len() + 1);
    assert(receipt_addrs_for(m2, poll_id, name).len() == receipt_addrs_for(m, poll_id, name).len()
        + 1);
    assert forall|a: AddressView| #[trigger] m4.dom().contains(a) implies entry_ok(a, m4[a])
        && refs_ok(a, m4) && counters_ok(a, m4) by {
        if a == ra {
            assert(m4[a] == rv);
        } else if a == ca {
            assert(m.dom().contains(a));
            assert(entry_ok(a, m[a]));
            assert(receipt_addrs_for(m4, poll_id, name) == receipt_addrs_for(m2, poll_id, name));
        } else if a == pa {
            assert(m.dom().contains(a));
            assert(entry_ok(a, m[a]));
            assert(candidate_addrs(m4, poll_id) == candidate_addrs(m, poll_id));
            assert(receipt_addrs(m4, poll_id) == receipt_addrs(m2, poll_id));
        } else {
            assert(m.dom().contains(a));
            assert(entry_ok(a, m[a]) && refs_ok(a, m) && counters_ok(a, m));
            assert(m4[a] == m[a]);
            match a {
                AddressView::Poll { poll_id: pid2 } => {
                    assert(candidate_addrs(m4, pid2) == candidate_addrs(m, pid2));
                    assert(receipt_addrs(m4, pid2) == receipt_addrs(m, pid2));
                },
                AddressView::Candidate { poll_id: pid2, candidate_name: n2 } => {
                    assert(receipt_addrs_for(m4, pid2, n2) == receipt_addrs_for(m, pid2, n2));
                },
                AddressView::Receipt { .. } => {},
            }
        }
    }
}

/// The poll ledger state machine: polls, candidates and vote receipts held in
/// host storage at derived addresses.
pub struct PollLedger {
    store: EntityStore,
}

impl View for PollLedger {
    type V = Map<AddressView, EntityView>;

    closed spec fn view(&self) -> Map<AddressView, EntityView> {
        self.store@
    }
}

impl PollLedger {
    /// The ledger's well-formedness: distinct storage slots, and the global
    /// invariant `inv` over its abstract state.
    pub closed spec fn wf(&self) -> bool {
        self.store.wf() && inv(self@)
    }

    /// A well-formed ledger satisfies the global invariant.
    pub proof fn lemma_wf_inv(&self)
        requires
            self.wf(),
        ensures
            inv(self@),
    {
    }

    /// An empty ledger: no polls, no candidates, no receipts.
    pub fn new() -> (l: PollLedger)
        ensures
            l.wf(),
            l@ == Map::<AddressView, EntityView>::empty(),
    {
        let l = PollLedger { store: EntityStore::new() };
        proof {
            assert(l@.dom() =~= Set::<AddressView>::empty());
        }
        l
    }

    /// Create a poll with the given description and inclusive voting window.
    /// Fails with `AlreadyExists` when the poll id is already taken, and then
    /// changes nothing; otherwise stores the fields verbatim with both
    /// counters at zero.
    pub fn initialize_poll(
        &mut self,
        poll_id: u64,
        description: String,
        poll_start: u64,
        poll_end: u64,
    ) -> (r: Result<(), VotingError>)
        requires
            old(self).wf(),
            description@.len() <= MAX_DESCRIPTION_LEN,
        ensures
            final(self).wf(),
            ({
                let (m2, res) = spec_initialize_poll(
                    old(self)@,
                    poll_id,
                    description@,
                    poll_start,
                    poll_end,
                );
                final(self)@ == m2 && r == res
            }),
            r is Err ==> *final(self) == *old(self),
    {
        proof {
            self.lemma_wf_inv();
        }
        let addr = Address::for_poll(poll_id);
        let ghost pv = PollView {
            poll_id,
            description: description@,
            poll_start,
            poll_end,
            candidate_amount: 0,
            poll_total_votes: 0,
        };
        let r = self.store.create_if_absent(
            addr,
            Entity::Poll(
                Poll {
                    poll_id,
                    description,
                    poll_start,
                    poll_end,
                    candidate_amount: 0,
                    poll_total_votes: 0,
                },
            ),
        );
        match r {
            Ok(()) => {
                proof {
                    lemma_inv_create_poll(old(self)@, poll_id, pv);
                }
                Ok(())
            },
            Err(_) => Err(VotingError::AlreadyExists),
        }
    }

    /// Register a candidate under an existing poll and count it in the poll's
    /// `candidate_amount`. Fails with `NotFound` when the poll does not exist
    /// and with `AlreadyExists` when the name is already registered under this
    /// poll; a rejected registration changes nothing.
    pub fn initialize_candidate(&mut self, poll_id: u64, candidate_name: String) -> (r: Result<
        (),
        VotingError,
    >)
        requires
            old(self).wf(),
            candidate_name@.len() <= MAX_CANDIDATE_NAME_LEN,
        ensures
            final(self).wf(),
            ({
                let (m2, res) = spec_initialize_candidate(old(self)@, poll_id, candidate_name@);
                final(self)@ == m2 && r == res
            }),
            r is Err ==> *final(self) == *old(self),
    {
        proof {
            self.lemma_wf_inv();
        }
        let pa = Address::for_poll(poll_id);
        let (p_desc, p_start, p_end, p_amount, p_total) = match self.store.read(&pa) {
            None => {
                return Err(VotingError::NotFound);
            },
            Some(e) => match e {
                Entity::Poll(p) => (
                    p.description.clone(),
                    p.poll_start,
                    p.poll_end,
                    p.candidate_amount,
                    p.poll_total_votes,
                ),
                _ => {
                    proof {
                        assert(entry_ok(pa@, self@[pa@]));
                        assert(false);
                    }
                    return Err(VotingError::NotFound);
                },
            },
        };
        let ca = Address::for_candidate(poll_id, candidate_name.clone());
        let ghost cv = CandidateView { candidate_name: candidate_name@, candidate_votes: 0 };
        let created = self.store.create_if_absent(
            ca,
            Entity::Candidate(Candidate { candidate_name, candidate_votes: 0 }),
        );
        if created.is_err() {
            return Err(VotingError::AlreadyExists);
        }
        proof {
            let m = old(self)@;
            let m2 = self@;
            self.store.lemma_dom_bounded();
            lemma_families_insert_fresh(m, candidate_addr(poll_id, cv.candidate_name), EntityView::Candidate(cv));
            lemma_family_bounds(m, poll_id, cv.candidate_name);
            lemma_family_bounds(m2, poll_id, cv.candidate_name);
            assert(p_amount == candidate_addrs(m, poll_id).len());
            assert(candidate_addrs(m2, poll_id).len() == p_amount + 1);
            assert(p_amount + 1 <= usize::MAX);
        }
        let new_amount = p_amount + 1;
        self.store.write(
            pa,
            Entity::Poll(
                Poll {
                    poll_id,
                    description: p_desc,
                    poll_start: p_start,
                    poll_end: p_end,
                    candidate_amount: new_amount,
                    poll_total_votes: p_total,
                },
            ),
        );
        proof {
            let p2 = PollView {
                poll_id,
                description: p_desc@,
                poll_start: p_start,
                poll_end: p_end,
                candidate_amount: new_amount,
                poll_total_votes: p_total,
            };
            lemma_inv_create_candidate(old(self)@, poll_id, cv.candidate_name, p2);
        }
        Ok(())
    }

    /// Cast a vote: check that the poll and the candidate exist, that the
    /// host clock lies inside the poll's voting window, and that no receipt
    /// for this (poll, candidate, voter) triple exists yet. Only then create
    /// the receipt and step the candidate's and the poll's vote counters; a
    /// rejected vote of any kind changes nothing. `current_time` is the host
    /// clock's reading, taken once for this call.
    pub fn vote(
        &mut self,
        poll_id: u64,
        candidate_name: String,
        voter: String,
        current_time: u64,
    ) -> (r: Result<(), VotingError>)
        requires
            old(self).wf(),
        ensures
            final(self).wf(),
            ({
                let (m2, res) = spec_vote(
                    old(self)@,
                    poll_id,
                    candidate_name@,
                    voter@,
                    current_time,
                );
                final(self)@ == m2 && r == res
            }),
            r is Err ==> *final(self) == *old(self),
    {
        proof {
            self.lemma_wf_inv();
        }
        let ghost name = candidate_name@;
        let ghost vid = voter@;
        let pa = Address::for_poll(poll_id);
        let (p_desc, p_start, p_end, p_amount, p_total) = match self.store.read(&pa) {
            None => {
                return Err(VotingError::NotFound);
            },
            Some(e) => match e {
                Entity::Poll(p) => (
                    p.description.clone(),
                    p.poll_start,
                    p.poll_end,
                    p.candidate_amount,
                    p.poll_total_votes,
                ),
                _ => {
                    proof {
                        assert(entry_ok(pa@, self@[pa@]));
                        assert(false);
                    }
                    return Err(VotingError::NotFound);
                },
            },
        };
        let ca = Address::for_candidate(poll_id, candidate_name.clone());
        let c_votes = match self.store.read(&ca) {
            None => {
                return Err(VotingError::NotFound);
            },
            Some(e) => match e {
                Entity::Candidate(c) => c.candidate_votes,
                _ => {
                    proof {
                        assert(entry_ok(ca@, self@[ca@]));
                        assert(false);
                    }
                    return Err(VotingError::NotFound);
                },
            },
        };
        if current_time < p_start {
            return Err(VotingError::PollNotStarted);
        }
        if current_time > p_end {
            return Err(VotingError::PollEnded);
        }
        let ra = Address::for_receipt(poll_id, candidate_name.clone(), voter.clone());
        let ghost rv = EntityView::Voter(VoterView { poll_id, voter: vid });
        let created = self.store.create_if_absent(ra, Entity::Voter(Voter { poll_id, voter }));
        if created.is_err() {
            return Err(VotingError::AlreadyVoted);
        }
        proof {
            let m = old(self)@;
            let m2 = self@;
            self.store.lemma_dom_bounded();
            lemma_families_insert_fresh(m, receipt_addr(poll_id, name, vid), rv);
            lemma_family_bounds(m, poll_id, name);
            lemma_family_bounds(m2, poll_id, name);
            assert(c_votes == receipt_addrs_for(m, poll_id, name).len());
            assert(p_total == receipt_addrs(m, poll_id).len());
            assert(receipt_addrs_for(m2, poll_id, name).len() == c_votes + 1);
            assert(receipt_addrs(m2, poll_id).len() == p_total + 1);
            assert(c_votes + 1 <= usize::MAX);
            assert(p_total + 1 <= usize::MAX);
        }
        let new_votes = c_votes + 1;
        let new_total = p_total + 1;
        self.store.write(
            ca,
            Entity::Candidate(Candidate { candidate_name, candidate_votes: new_votes }),
        );
        self.store.write(
            pa,
            Entity::Poll(
                Poll {
                    poll_id,
                    description: p_desc,
                    poll_start: p_start,
                    poll_end: p_end,
                    candidate_amount: p_amount,
                    poll_total_votes: new_total,
                },
            ),
        );
        proof {
            let p2 = PollView {
                poll_id,
                description: p_desc@,
                poll_start: p_start,
                poll_end: p_end,
                candidate_amount: p_amount,
                poll_total_votes: new_total,
            };
            let c2 = CandidateView { candidate_name: name, candidate_votes: new_votes };
            lemma_inv_vote(old(self)@, poll_id, name, vid, p2, c2);
        }
        Ok(())
    }

    /// Report how many votes one candidate of one poll has received.
    /// Read-only; fails with `NotFound` when the candidate (or its poll) does
    /// not exist.
    pub fn candidate_votes(&self, poll_id: u64, candidate_name: String) -> (r: Result<
        u64,
        VotingError,
    >)
        requires
            self.wf(),
        ensures
            r == spec_candidate_votes(self@, poll_id, candidate_name@),
    {
        proof {
            self.lemma_wf_inv();
        }
        let ca = Address::for_candidate(poll_id, candidate_name);
        match self.store.read(&ca) {
            None => Err(VotingError::NotFound),
            Some(e) => match e {
                Entity::Candidate(c) => Ok(c.candidate_votes),
                _ => {
                    proof {
                        assert(entry_ok(ca@, self@[ca@]));
                        assert(false);
                    }
                    Err(VotingError::NotFound)
                },
            },
        }
    }

    /// Report a poll's tally: its id, its total vote count, and how many
    /// candidates are registered under it. Read-only.
    pub fn count_poll_votes(&self, poll_id: u64) -> (r: Result<(u64, u64, u64), VotingError>)
        requires
            self.wf(),
        ensures
            r == spec_count_poll_votes(self@, poll_id),
    {
        proof {
            self.lemma_wf_inv();
        }
        let addr = Address::for_poll(poll_id);
        match self.store.read(&addr) {
            None => Err(VotingError::NotFound),
            Some(e) => match e {
                Entity::Poll(p) => Ok((poll_id, p.poll_total_votes, p.candidate_amount)),
                _ => {
                    proof {
                        assert(entry_ok(addr@, self@[addr@]));
                        assert(false);
                    }
                    Err(VotingError::NotFound)
                },
            },
        }
    }
}

} // verus!
