//! The entity store: a keyed map from derived addresses to entities with
//! create-if-absent, read, and update-in-place operations.
//!
//! Abstractly the store is a `Map<AddressView, EntityView>`; concretely it is
//! a vector of entries whose addresses are pairwise distinct. Rejecting a
//! creation at an occupied address is the store's whole contribution to the
//! ledger's uniqueness guarantees.

use crate::address::Address;
use crate::address::AddressView;
use crate::entity::Entity;
use crate::entity::EntityView;
use crate::entity::VotingError;
use vstd::prelude::*;

verus! {

broadcast use vstd::set::group_set_axioms, vstd::std_specs::vec::axiom_spec_len;

/// One stored record together with the address it was created at.
pub struct Entry {
    pub addr: Address,
    pub value: Entity,
}

/// No two entries occupy the same derived address.
pub open spec fn unique_addrs(s: Seq<Entry>) -> bool {
    forall|i: int, j: int|
        #![trigger s[i].addr, s[j].addr]
        0 <= i < j < s.len() ==> s[i].addr@ != s[j].addr@
}

/// The keyed map a sequence of entries denotes.
pub open spec fn map_of(s: Seq<Entry>) -> Map<AddressView, EntityView>
    decreases s.len(),
{
    if s.len() == 0 {
        Map::empty()
    } else {
        map_of(s.drop_last()).insert(s.last().addr@, s.last().value@)
    }
}

proof fn lemma_unique_drop_last(s: Seq<Entry>)
    requires
        unique_addrs(s),
        s.len() > 0,
    ensures
        unique_addrs(s.drop_last()),
{
    assert forall|i: int, j: int|
        0 <= i < j < s.drop_last().len() implies #[trigger] s.drop_last()[i].addr@
        != #[trigger] s.drop_last()[j].addr@ by {
        assert(s.drop_last()[i] == s[i]);
        assert(s.drop_last()[j] == s[j]);
    }
}

proof fn lemma_map_of_contains(s: Seq<Entry>, a: AddressView)
    ensures
        map_of(s).dom().contains(a) <==> exists|i: int| 0 <= i < s.len() && s[i].addr@ == a,
    decreases s.len(),
{
    if s.len() > 0 {
        lemma_map_of_contains(s.drop_last(), a);
        if s.last().addr@ == a {
            assert(s[s.len() - 1].addr@ == a);
        } else {
            if exists|i: int| 0 <= i < s.len() && s[i].addr@ == a {
                let i = choose|i: int| 0 <= i < s.len() && s[i].addr@ == a;
                assert(s.drop_last()[i].addr@ == a);
            }
            if exists|i: int| 0 <= i < s.drop_last().len() && s.drop_last()[i].addr@ == a {
                let i = choose|i: int| 0 <= i < s.drop_last().len() && s.drop_last()[i].addr@
                    == a;
                assert(s[i].addr@ == a);
            }
        }
    }
}

proof fn lemma_map_of_index(s: Seq<Entry>, i: int)
    requires
        unique_addrs(s),
        0 <= i < s.len(),
    ensures
        map_of(s).dom().contains(s[i].addr@),
        map_of(s)[s[i].addr@] == s[i].value@,
    decreases s.len(),
{
    if i < s.len() - 1 {
        lemma_unique_drop_last(s);
        lemma_map_of_index(s.drop_last(), i);
        assert(s.drop_last()[i] == s[i]);
        assert(s[i].addr@ != s.last().addr@);
    }
}

proof fn lemma_map_of_dom_len(s: Seq<Entry>)
    requires
        unique_addrs(s),
    ensures
        map_of(s).dom().finite(),
        map_of(s).dom().len() == s.len(),
    decreases s.len(),
{
    if s.len() == 0 {
        assert(map_of(s).dom() =~= Set::<AddressView>::empty());
    } else {
        lemma_unique_drop_last(s);
        lemma_map_of_dom_len(s.drop_last());
        lemma_map_of_contains(s.drop_last(), s.last().addr@);
        if map_of(s.drop_last()).dom().contains(s.last().addr@) {
            let i = choose|i: int|
                0 <= i < s.drop_last().len() && s.drop_last()[i].addr@ == s.last().addr@;
            assert(s[i].addr@ == s[s.len() - 1].addr@);
            assert(false);
        }
    }
}

proof fn lemma_map_of_update(s: Seq<Entry>, i: int, e: Entry)
    requires
        unique_addrs(s),
        0 <= i < s.len(),
        e.addr@ == s[i].addr@,
    ensures
        unique_addrs(s.update(i, e)),
        map_of(s.update(i, e)) == map_of(s).insert(e.addr@, e.value@),
    decreases s.len(),
{
    let s2 = s.update(i, e);
    assert forall|x: int, y: int|
        0 <= x < y < s2.len() implies #[trigger] s2[x].addr@ != #[trigger] s2[y].addr@ by {
        assert(s2[x].addr@ == s[x].addr@);
        assert(s2[y].addr@ == s[y].addr@);
    }
    if i == s.len() - 1 {
        assert(s2.drop_last() =~= s.drop_last());
        assert(s2.last() == e);
        assert(map_of(s.drop_last()).insert(s.last().addr@, s.last().value@).insert(
            e.addr@,
            e.value@,
        ) =~= map_of(s.drop_last()).insert(e.addr@, e.value@));
    } else {
        lemma_unique_drop_last(s);
        assert(s2.drop_last() =~= s.drop_last().update(i, e));
        assert(s.drop_last()[i] == s[i]);
        lemma_map_of_update(s.drop_last(), i, e);
        assert(s2.last() == s.last());
        assert(s[i].addr@ != s.last().addr@);
        assert(map_of(s.drop_last()).insert(e.addr@, e.value@).insert(
            s.last().addr@,
            s.last().value@,
        ) =~= map_of(s.drop_last()).insert(s.last().addr@, s.last().value@).insert(
            e.addr@,
            e.value@,
        ));
    }
}

/// Host-provided keyed storage: entities live at derived addresses, and a
/// second creation at an occupied address is rejected.
pub struct EntityStore {
    entries: Vec<Entry>,
}

impl View for EntityStore {
    type V = Map<AddressView, EntityView>;

    closed spec fn view(&self) -> Map<AddressView, EntityView> {
        map_of(self.entries@)
    }
}

impl EntityStore {
    /// The store's internal invariant: addresses are pairwise distinct.
    pub closed spec fn wf(&self) -> bool {
        unique_addrs(self.entries@)
    }

    /// An empty store.
    pub fn new() -> (s: EntityStore)
        ensures
            s.wf(),
            s@ == Map::<AddressView, EntityView>::empty(),
    {
        EntityStore { entries: Vec::new() }
    }

    /// The store holds at most `usize::MAX` distinct addresses; the ledger
    /// uses this bound to show its counters cannot overflow.
    pub proof fn lemma_dom_bounded(&self)
        requires
            self.wf(),
        ensures
            self@.dom().finite(),
            self@.dom().len() <= usize::MAX,
    {
        lemma_map_of_dom_len(self.entries@);
        assert(self.entries.len() == self.entries@.len());
    }

    fn find_index(&self, addr: &Address) -> (r: Option<usize>)
        ensures
            match r {
                Some(i) => 0 <= i < self.entries@.len() && self.entries@[i as int].addr@
                    == addr@,
                None => forall|i: int|
                    0 <= i < self.entries@.len() ==> self.entries@[i].addr@ != addr@,
            },
    {
        let mut i: usize = 0;
        while i < self.entries.len()
            invariant
                i <= self.entries@.len(),
                forall|j: int| 0 <= j < i ==> self.entries@[j].addr@ != addr@,
            decreases self.entries@.len() - i,
        {
            if self.entries[i].addr.equals(addr) {
                return Some(i);
            }
            i = i + 1;
        }
        None
    }

    /// Look an entity up by its derived address.
    pub fn read(&self, addr: &Address) -> (r: Option<&Entity>)
        requires
            self.wf(),
        ensures
            match r {
                Some(e) => self@.dom().contains(addr@) && e@ == self@[addr@],
                None => !self@.dom().contains(addr@),
            },
    {
        match self.find_index(addr) {
            Some(i) => {
                proof {
                    lemma_map_of_index(self.entries@, i as int);
                }
                Some(&self.entries[i].value)
            },
            None => {
                proof {
                    lemma_map_of_contains(self.entries@, addr@);
                }
                None
            },
        }
    }

    /// Create an entity at a derived address, atomically failing if the
    /// address is already occupied. A rejected creation changes nothing.
    pub fn create_if_absent(&mut self, addr: Address, value: Entity) -> (r: Result<
        (),
        VotingError,
    >)
        requires
            old(self).wf(),
        ensures
            final(self).wf(),
            old(self)@.dom().contains(addr@) ==> r == Err::<(), VotingError>(
                VotingError::AlreadyExists,
            ) && *final(self) == *old(self),
            !old(self)@.dom().contains(addr@) ==> r == Ok::<(), VotingError>(())
                && final(self)@ == old(self)@.insert(addr@, value@),
    {
        match self.find_index(&addr) {
            Some(i) => {
                proof {
                    lemma_map_of_index(self.entries@, i as int);
                }
                Err(VotingError::AlreadyExists)
            },
            None => {
                proof {
                    lemma_map_of_contains(self.entries@, addr@);
                }
                let ghost old_entries = self.entries@;
                self.entries.push(Entry { addr, value });
                proof {
                    let s2 = self.entries@;
                    assert(s2.drop_last() =~= old_entries);
                    assert forall|x: int, y: int|
                        0 <= x < y < s2.len() implies #[trigger] s2[x].addr@ != #[trigger] s2[y].addr@ by {
                        if y < s2.len() - 1 {
                            assert(s2[x] == old_entries[x]);
                            assert(s2[y] == old_entries[y]);
                        } else {
                            assert(s2[x] == old_entries[x]);
                            assert(s2[y].addr@ == addr@);
                        }
                    }
                }
                Ok(())
            },
        }
    }

    /// Update the entity at an address the caller has already created or
    /// read; the address keeps its entity kind's place in the map.
    pub fn write(&mut self, addr: Address, value: Entity)
        requires
            old(self).wf(),
            old(self)@.dom().contains(addr@),
        ensures
            final(self).wf(),
            final(self)@ == old(self)@.insert(addr@, value@),
    {
        proof {
            lemma_map_of_contains(self.entries@, addr@);
        }
        match self.find_index(&addr) {
            Some(i) => {
                let ghost old_entries = self.entries@;
                let ghost new_entry = Entry { addr, value };
                self.entries.set(i, Entry { addr, value });
                proof {
                    lemma_map_of_update(old_entries, i as int, new_entry);
                }
            },
            None => {
                proof {
                    assert(false);
                }
            },
        }
    }
}

} // verus!
