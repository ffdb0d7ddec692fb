//! The address deriver: a pure map from a namespace tag and ordered seed
//! fields to a storage address.
//!
//! Every logical entity lives at an address computed from its identifying
//! fields alone, never allocated. Two derivations from the same seeds give
//! the same address, and derivations from different seeds give different
//! addresses — here not merely with overwhelming probability but exactly,
//! which `law_derivation_injective` states and proves. A hash-based deriver
//! must carry an auxiliary disambiguation value to step around collisions; an
//! exact deriver has no use for one. A vote receipt's seed includes the voter
//! identity as well as the poll id and the candidate name, so receipts of
//! different voters never collide with each other or with the candidate's own
//! address.

use vstd::prelude::*;

verus! {

/// A derived storage address: one namespace per entity kind, holding that
/// kind's ordered seed fields.
pub enum Address {
    /// Namespace for polls, seeded by the externally chosen poll id.
    Poll { poll_id: u64 },
    /// Namespace for candidates, seeded by the owning poll and the name.
    Candidate { poll_id: u64, candidate_name: String },
    /// Namespace for vote receipts, seeded by the poll, the candidate and
    /// the voter identity.
    Receipt { poll_id: u64, candidate_name: String, voter: String },
}

/// The mathematical image of an `Address`.
pub enum AddressView {
    Poll { poll_id: u64 },
    Candidate { poll_id: u64, candidate_name: Seq<char> },
    Receipt { poll_id: u64, candidate_name: Seq<char>, voter: Seq<char> },
}

impl View for Address {
    type V = AddressView;

    open spec fn view(&self) -> AddressView {
        match self {
            Address::Poll { poll_id } => AddressView::Poll { poll_id: *poll_id },
            Address::Candidate { poll_id, candidate_name } => AddressView::Candidate {
                poll_id: *poll_id,
                candidate_name: candidate_name@,
            },
            Address::Receipt { poll_id, candidate_name, voter } => AddressView::Receipt {
                poll_id: *poll_id,
                candidate_name: candidate_name@,
                voter: voter@,
            },
        }
    }
}

/// The address a poll is stored at.
pub open spec fn poll_addr(poll_id: u64) -> AddressView {
    AddressView::Poll { poll_id }
}

/// The address a candidate is stored at.
pub open spec fn candidate_addr(poll_id: u64, candidate_name: Seq<char>) -> AddressView {
    AddressView::Candidate { poll_id, candidate_name }
}

/// The address a vote receipt is stored at.
pub open spec fn receipt_addr(poll_id: u64, candidate_name: Seq<char>, voter: Seq<char>) -> AddressView {
    AddressView::Receipt { poll_id, candidate_name, voter }
}

impl Address {
    /// Derive the address of a poll from its id.
    pub fn for_poll(poll_id: u64) -> (a: Address)
        ensures
            a@ == poll_addr(poll_id),
    {
        Address::Poll { poll_id }
    }

    /// Derive the address of a candidate from its poll and its name.
    pub fn for_candidate(poll_id: u64, candidate_name: String) -> (a: Address)
        ensures
            a@ == candidate_addr(poll_id, candidate_name@),
    {
        Address::Candidate { poll_id, candidate_name }
    }

    /// Derive the address of a vote receipt from its poll, its candidate and
    /// the voter identity.
    pub fn for_receipt(poll_id: u64, candidate_name: String, voter: String) -> (a: Address)
        ensures
            a@ == receipt_addr(poll_id, candidate_name@, voter@),
    {
        Address::Receipt { poll_id, candidate_name, voter }
    }

    /// Whether two addresses are the same derived location.
    pub fn equals(&self, other: &Address) -> (r: bool)
        ensures
            r == (self@ == other@),
    {
        match (self, other) {
            (Address::Poll { poll_id: a }, Address::Poll { poll_id: b }) => a == b,
            (
                Address::Candidate { poll_id: a, candidate_name: na },
                Address::Candidate { poll_id: b, candidate_name: nb },
            ) => *a == *b && na.eq(nb),
            (
                Address::Receipt { poll_id: a, candidate_name: na, voter: va },
                Address::Receipt { poll_id: b, candidate_name: nb, voter: vb },
            ) => *a == *b && na.eq(nb) && va.eq(vb),
            _ => false,
        }
    }
}

/// Address derivation is collision-free: two derived addresses are equal
/// exactly when their namespace and every seed field agree. In particular a
/// receipt's address never collides with another voter's receipt, with a
/// candidate's address, or with a poll's address. Determinism holds by
/// construction, the deriver being a pure function of its seeds.
pub proof fn law_derivation_injective(
    p1: u64,
    n1: Seq<char>,
    v1: Seq<char>,
    p2: u64,
    n2: Seq<char>,
    v2: Seq<char>,
)
    ensures
        receipt_addr(p1, n1, v1) == receipt_addr(p2, n2, v2) <==> (p1 == p2 && n1 == n2 && v1
            == v2),
        candidate_addr(p1, n1) == candidate_addr(p2, n2) <==> (p1 == p2 && n1 == n2),
        poll_addr(p1) == poll_addr(p2) <==> p1 == p2,
        receipt_addr(p1, n1, v1) != candidate_addr(p2, n2),
        receipt_addr(p1, n1, v1) != poll_addr(p2),
        candidate_addr(p1, n1) != poll_addr(p2),
{
}

} // verus!
