//! From a touched volume to the entity that it belongs to.
//!
//! A vulnerability volume is an entity of its own, owned by the entity that it
//! makes vulnerable. A hit on the volume is a hit on that owner: the first
//! entity, going up from the volume, that is not itself a vulnerability volume.

use vstd::prelude::*;
use std::collections::HashMap;

verus! {

broadcast use vstd::std_specs::hash::group_hash_axioms;

/// The entity reached from `from` by going up at most `hops` owners: each
/// vulnerability volume (a key of `owners`) is replaced by its direct owner,
/// and the walk stops at the first entity that is not a vulnerability volume.
pub open spec fn climb(owners: Map<u64, u64>, from: u64, hops: nat) -> u64
    decreases hops,
{
    if hops == 0 || !owners.contains_key(from) {
        from
    } else {
        climb(owners, owners[from], (hops - 1) as nat)
    }
}

/// The entity that a hit on `from` falls on: the end of the walk up from
/// `from`, which takes no more hops than there are vulnerability volumes.
pub open spec fn top_owner(owners: Map<u64, u64>, from: u64) -> u64 {
    climb(owners, from, owners.dom().len())
}

/// The walk up from `from` ends: after some number of hops it stands on an
/// entity that is not a vulnerability volume.
pub open spec fn grounded(owners: Map<u64, u64>, from: u64) -> bool {
    exists|hops: nat| !owners.contains_key(#[trigger] climb(owners, from, hops))
}

/// The direct owner of every vulnerability volume.
pub struct Owners {
    links: HashMap<u64, u64>,
}

impl View for Owners {
    type V = Map<u64, u64>;

    /// The index as a map from each vulnerability volume to its direct owner.
    closed spec fn view(&self) -> Map<u64, u64> {
        self.links@
    }
}

impl Owners {
    /// An index without any vulnerability volume.
    pub fn new() -> (owners: Owners)
        ensures
            owners@ == Map::<u64, u64>::empty(),
    {
        Owners { links: HashMap::new() }
    }

    /// Records that `volume` is a vulnerability volume whose direct owner is
    /// `owner`; an earlier record for `volume` is replaced.
    pub fn insert(&mut self, volume: u64, owner: u64)
        ensures
            final(self)@ == old(self)@.insert(volume, owner),
    {
        self.links.insert(volume, owner);
    }

    /// The number of vulnerability volumes in the index.
    pub fn len(&self) -> (n: usize)
        ensures
            n == self@.dom().len(),
            self@.dom().finite(),
    {
        self.links.len()
    }

    /// The direct owner of `entity`, where it is a vulnerability volume.
    pub fn owner_of(&self, entity: u64) -> (owner: Option<u64>)
        ensures
            owner == (if self@.contains_key(entity) {
                Some(self@[entity])
            } else {
                None
            }),
    {
        match self.links.get(&entity) {
            Some(owner) => Some(*owner),
            None => None,
        }
    }

    /// The entity that a hit on `start` falls on: `start` itself where it is
    /// no vulnerability volume, else the first entity above it that is none.
    /// The walk gives up after as many hops as there are vulnerability
    /// volumes, so it ends on an index that holds a cycle too.
    pub fn resolve_owner(&self, start: u64) -> (top: u64)
        ensures
            top == top_owner(self@, start),
            grounded(self@, start) ==> !self@.contains_key(top),
    {
        let limit: usize = self.links.len();
        let mut entity: u64 = start;
        let mut hops: usize = 0;
        while hops < limit
            invariant
                hops <= limit,
                limit == self@.dom().len(),
                climb(self@, start, limit as nat) == climb(self@, entity, (limit - hops) as nat),
            decreases limit - hops,
        {
            match self.links.get(&entity) {
                Some(owner) => {
                    entity = *owner;
                    hops = hops + 1;
                },
                None => {
                    proof {
                        lemma_grounded_ends_on_owner(self@, start);
                    }
                    return entity;
                },
            }
        }
        proof {
            lemma_grounded_ends_on_owner(self@, start);
        }
        entity
    }
}

/// Going up `first` hops and then `then` hops is going up `first + then` hops.
pub proof fn lemma_climb_in_two_legs(owners: Map<u64, u64>, from: u64, first: nat, then: nat)
    ensures
        climb(owners, from, first + then) == climb(owners, climb(owners, from, first), then),
    decreases first,
{
    if first == 0 || !owners.contains_key(from) {
        if first > 0 {
            lemma_climb_stays(owners, from, then);
        }
    } else {
        lemma_climb_in_two_legs(owners, owners[from], (first - 1) as nat, then);
    }
}

/// From an entity that is no vulnerability volume the walk goes nowhere.
pub proof fn lemma_climb_stays(owners: Map<u64, u64>, from: u64, hops: nat)
    requires
        !owners.contains_key(from),
    ensures
        climb(owners, from, hops) == from,
{
}

/// Once the walk stands on an entity that is no vulnerability volume, more
/// hops change nothing.
pub proof fn lemma_climb_settles(owners: Map<u64, u64>, from: u64, hops: nat, more: nat)
    requires
        !owners.contains_key(climb(owners, from, hops)),
        hops <= more,
    ensures
        climb(owners, from, more) == climb(owners, from, hops),
{
    lemma_climb_in_two_legs(owners, from, hops, (more - hops) as nat);
    lemma_climb_stays(owners, climb(owners, from, hops), (more - hops) as nat);
}

/// The entities that the walk stands on before its hop number `count`.
spec fn trail(owners: Map<u64, u64>, from: u64, count: nat) -> Set<u64>
    decreases count,
{
    if count == 0 {
        Set::empty()
    } else {
        trail(owners, from, (count - 1) as nat).insert(climb(owners, from, (count - 1) as nat))
    }
}

/// The walk stands on a vulnerability volume before each of its first `count`
/// hops.
spec fn on_volumes(owners: Map<u64, u64>, from: u64, count: nat) -> bool {
    forall|i: nat| i < count ==> owners.contains_key(#[trigger] climb(owners, from, i))
}

/// The walk stands on a different entity before each of its first `count` hops.
spec fn never_twice(owners: Map<u64, u64>, from: u64, count: nat) -> bool {
    forall|i: nat, j: nat|
        i < j < count ==> #[trigger] climb(owners, from, i) != #[trigger] climb(owners, from, j)
}

/// A walk that stands on a different vulnerability volume before each of its
/// first `count` hops has passed `count` of them.
proof fn lemma_trail_counts(owners: Map<u64, u64>, from: u64, count: nat)
    requires
        on_volumes(owners, from, count),
        never_twice(owners, from, count),
    ensures
        trail(owners, from, count).finite(),
        trail(owners, from, count).len() == count,
        trail(owners, from, count).subset_of(owners.dom()),
        forall|e: u64|
            trail(owners, from, count).contains(e) ==> exists|i: nat|
                i < count && climb(owners, from, i) == e,
    decreases count,
{
    if count > 0 {
        let before = (count - 1) as nat;
        lemma_trail_counts(owners, from, before);
        let last = climb(owners, from, before);
        if trail(owners, from, before).contains(last) {
            let i = choose|i: nat| i < before && climb(owners, from, i) == last;
            assert(climb(owners, from, i) != climb(owners, from, before));
        }
        assert forall|e: u64| trail(owners, from, count).contains(e) implies exists|i: nat|
            i < count && climb(owners, from, i) == e by {
            if e == last {
                assert(before < count && climb(owners, from, before) == e);
            } else {
                let i = choose|i: nat| i < before && climb(owners, from, i) == e;
                assert(i < count && climb(owners, from, i) == e);
            }
        }
    }
}

/// A walk that comes back to an entity it stood on before goes round for ever:
/// it stands on a vulnerability volume before every hop.
proof fn lemma_round_trip_never_ends(owners: Map<u64, u64>, from: u64, a: nat, b: nat, hops: nat)
    requires
        a < b,
        climb(owners, from, a) == climb(owners, from, b),
        on_volumes(owners, from, b + 1),
    ensures
        owners.contains_key(climb(owners, from, hops)),
    decreases hops,
{
    if hops > b {
        let rest = (hops - b) as nat;
        lemma_climb_in_two_legs(owners, from, b, rest);
        lemma_climb_in_two_legs(owners, from, a, rest);
        lemma_round_trip_never_ends(owners, from, a, b, a + rest);
    }
}

/// A walk that ends at all ends within as many hops as there are vulnerability
/// volumes, and then stands on an entity that is none: the owner that the hit
/// falls on.
pub proof fn lemma_grounded_ends_on_owner(owners: Map<u64, u64>, from: u64)
    requires
        owners.dom().finite(),
    ensures
        grounded(owners, from) ==> !owners.contains_key(top_owner(owners, from)),
        forall|hops: nat|
            !owners.contains_key(#[trigger] climb(owners, from, hops)) ==> top_owner(owners, from)
                == climb(owners, from, hops),
{
    let n = owners.dom().len();
    if grounded(owners, from) {
        let k = choose|k: nat| !owners.contains_key(#[trigger] climb(owners, from, k));
        if owners.contains_key(climb(owners, from, n)) {
            assert forall|i: nat| i < n + 1 implies owners.contains_key(
                #[trigger] climb(owners, from, i),
            ) by {
                if !owners.contains_key(climb(owners, from, i)) {
                    lemma_climb_settles(owners, from, i, n);
                }
            }
            assert(on_volumes(owners, from, n + 1));
            if never_twice(owners, from, n + 1) {
                lemma_trail_counts(owners, from, n + 1);
                vstd::set_lib::lemma_len_subset(trail(owners, from, n + 1), owners.dom());
                assert(false);
            } else {
                let (a, b) = choose|a: nat, b: nat|
                    a < b < n + 1 && #[trigger] climb(owners, from, a) == #[trigger] climb(
                        owners,
                        from,
                        b,
                    );
                assert(on_volumes(owners, from, b + 1));
                lemma_round_trip_never_ends(owners, from, a, b, k);
                assert(false);
            }
        }
    }
    assert forall|hops: nat| !owners.contains_key(#[trigger] climb(owners, from, hops)) implies top_owner(
        owners,
        from,
    ) == climb(owners, from, hops) by {
        assert(grounded(owners, from));
        if hops <= n {
            lemma_climb_settles(owners, from, hops, n);
        } else {
            lemma_climb_settles(owners, from, n, hops);
        }
    }
}

} // verus!
