//! What holds of every scene: whom a hit destroys, and how long a countdown
//! lets its entity live.

use vstd::prelude::*;
use crate::arena::{
    after_decay, after_decays, after_hits, alive, expiring, falls, hurt_index, is_volume,
    lasting, lemma_wound_is_sound, lemma_without_is_sound, node, owns, sound, with_family,
    without, wound, Node,
};
use crate::decay::Decay;
use crate::hit::{lemma_targets_are_the_owners_hit, targets};
use crate::ownership::{climb, grounded, lemma_grounded_ends_on_owner, top_owner};
use crate::spawn::{Family, Role};

verus! {

/// The entity numbers below `n`.
spec fn numbers_below(n: nat) -> Set<u64> {
    Set::new(|id: u64| id < n)
}

/// There are finitely many entity numbers below `n`.
proof fn lemma_numbers_below_is_finite(n: nat)
    ensures
        numbers_below(n).finite(),
    decreases n,
{
    if n == 0 {
        assert(numbers_below(0) =~= Set::<u64>::empty());
    } else {
        lemma_numbers_below_is_finite((n - 1) as nat);
        if n - 1 <= u64::MAX {
            assert(numbers_below(n) =~= numbers_below((n - 1) as nat).insert((n - 1) as u64));
        } else {
            assert(numbers_below(n) =~= numbers_below((n - 1) as nat));
        }
    }
}

/// A scene has finitely many vulnerability volumes.
pub proof fn lemma_hurt_index_is_finite(slots: Seq<Option<Node>>)
    ensures
        hurt_index(slots).dom().finite(),
{
    lemma_numbers_below_is_finite(slots.len());
    assert(hurt_index(slots).dom().subset_of(numbers_below(slots.len())));
    vstd::set_lib::lemma_len_subset(hurt_index(slots).dom(), numbers_below(slots.len()));
}

/// In a well-formed scene, going up from any entity ends on an entity that is
/// no vulnerability volume.
pub proof fn lemma_scene_walks_end(slots: Seq<Option<Node>>, from: u64)
    requires
        sound(slots),
    ensures
        grounded(hurt_index(slots), from),
    decreases from,
{
    let index = hurt_index(slots);
    if index.contains_key(from) {
        assert(alive(slots, from));
        let owner = index[from];
        lemma_scene_walks_end(slots, owner);
        let hops = choose|hops: nat| !index.contains_key(#[trigger] climb(index, owner, hops));
        assert(climb(index, from, hops + 1) == climb(index, owner, hops));
    } else {
        assert(climb(index, from, 0) == from);
    }
}

/// In a well-formed scene, an entity belongs to every entity that the walk up
/// from it stands on.
pub proof fn lemma_walk_stays_among_owners(slots: Seq<Option<Node>>, from: u64, hops: nat)
    requires
        sound(slots),
    ensures
        owns(slots, climb(hurt_index(slots), from, hops), from),
    decreases hops,
{
    let index = hurt_index(slots);
    if hops > 0 && index.contains_key(from) {
        assert(alive(slots, from));
        lemma_walk_stays_among_owners(slots, index[from], (hops - 1) as nat);
    }
}

/// What falls with some entities falls with more of them.
pub proof fn lemma_falls_with_more(
    slots: Seq<Option<Node>>,
    roots: Set<u64>,
    more: Set<u64>,
    id: u64,
)
    requires
        roots.subset_of(more),
        falls(slots, roots, id),
    ensures
        falls(slots, more, id),
    decreases id,
{
    if !roots.contains(id) {
        lemma_falls_with_more(slots, roots, more, node(slots, id).owner.unwrap());
    }
}

/// Hit resolution: where an attack volume overlaps an entity, the owner behind
/// that entity is no vulnerability volume, the touched entity belongs to it,
/// and after the step the owner is gone with all that it owns, the touched
/// entity among it. This holds however often the owner is hit at that step.
pub proof fn lemma_hit_destroys_owner_with_all_it_owns(
    slots: Seq<Option<Node>>,
    overlaps: Seq<Seq<u64>>,
    i: int,
    j: int,
)
    requires
        sound(slots),
        0 <= i < overlaps.len(),
        0 <= j < overlaps[i].len(),
    ensures
        ({
            let owner = top_owner(hurt_index(slots), overlaps[i][j]);
            let after = after_hits(slots, overlaps);
            &&& !is_volume(slots, owner)
            &&& owns(slots, owner, overlaps[i][j])
            &&& !alive(after, owner)
            &&& !alive(after, overlaps[i][j])
            &&& forall|id: u64| owns(slots, owner, id) ==> !#[trigger] alive(after, id)
            &&& sound(after)
        }),
{
    let index = hurt_index(slots);
    let touched = overlaps[i][j];
    let owner = top_owner(index, touched);
    let doomed = targets(index, overlaps).to_set();
    let after = after_hits(slots, overlaps);
    lemma_hurt_index_is_finite(slots);
    lemma_scene_walks_end(slots, touched);
    lemma_grounded_ends_on_owner(index, touched);
    lemma_walk_stays_among_owners(slots, touched, index.dom().len());
    lemma_targets_are_the_owners_hit(index, overlaps);
    assert(targets(index, overlaps).contains(owner));
    assert(set![owner].subset_of(doomed));
    assert forall|id: u64| owns(slots, owner, id) implies !#[trigger] alive(after, id) by {
        lemma_falls_with_more(slots, set![owner], doomed, id);
    }
    assert(owns(slots, owner, owner));
    lemma_without_is_sound(slots, doomed);
}

/// Hit resolution spares what no hit owner owns: an entity is there after the
/// step exactly when it was there before and belongs to none of the owners
/// that were hit.
pub proof fn lemma_hit_spares_the_rest(slots: Seq<Option<Node>>, overlaps: Seq<Seq<u64>>, id: u64)
    requires
        sound(slots),
    ensures
        alive(after_hits(slots, overlaps), id) <==> alive(slots, id) && !falls(
            slots,
            targets(hurt_index(slots), overlaps).to_set(),
            id,
        ),
        alive(after_hits(slots, overlaps), id) ==> node(after_hits(slots, overlaps), id) == node(
            slots,
            id,
        ),
{
}

/// Each spawn event makes an enemy of its own: the body and its vulnerability
/// volume get two fresh numbers, the volume is owned by that body, and what
/// was in the scene stays as it was.
pub proof fn lemma_family_is_its_own(slots: Seq<Option<Node>>, family: Family)
    requires
        sound(slots),
        slots.len() + 2 <= u64::MAX,
        family.body.decay is None,
        family.hurtbox.decay is None,
    ensures
        ({
            let after = with_family(slots, family);
            let body = slots.len() as u64;
            let hurtbox = (slots.len() + 1) as u64;
            &&& sound(after)
            &&& !alive(slots, body) && !alive(slots, hurtbox)
            &&& alive(after, body) && node(after, body).blueprint == family.body
            &&& node(after, body).owner is None
            &&& alive(after, hurtbox) && node(after, hurtbox).blueprint == family.hurtbox
            &&& node(after, hurtbox).owner == Some(body)
            &&& forall|id: u64| #[trigger]
                alive(slots, id) ==> alive(after, id) && node(after, id) == node(slots, id)
            &&& family.hurtbox.role == Role::Hurtbox ==> hurt_index(after) == hurt_index(slots).insert(
                hurtbox,
                body,
            )
        }),
{
    let after = with_family(slots, family);
    let body = slots.len() as u64;
    let hurtbox = (slots.len() + 1) as u64;
    assert forall|id: u64| #[trigger] alive(after, id) implies {
        &&& node(after, id).owner matches Some(owner) ==> owner < id && alive(after, owner)
        &&& node(after, id).decay matches Some(decay) ==> decay.counter >= 1
    } by {
        if id < slots.len() {
            assert(alive(slots, id));
        }
    }
    if family.hurtbox.role == Role::Hurtbox {
        assert forall|id: u64| is_volume(after, id) <==> (is_volume(slots, id) || id == hurtbox) by {
            if id < slots.len() {
                assert(alive(slots, id) <==> alive(after, id));
            }
        }
        assert(hurt_index(after) =~= hurt_index(slots).insert(hurtbox, body));
    }
}

/// One step of the countdowns leaves the scene well formed.
pub proof fn lemma_after_decay_is_sound(slots: Seq<Option<Node>>)
    requires
        sound(slots),
    ensures
        sound(after_decay(slots)),
{
    lemma_wound_is_sound(slots);
    lemma_without_is_sound(wound(slots), expiring(slots));
}

/// A lasting entity is untouched by a step of the countdowns.
pub proof fn lemma_lasting_outlasts_decay(slots: Seq<Option<Node>>, id: u64)
    requires
        sound(slots),
        lasting(slots, id),
    ensures
        !falls(wound(slots), expiring(slots), id),
        lasting(after_decay(slots), id),
        node(after_decay(slots), id) == node(slots, id),
    decreases id,
{
    if let Some(owner) = node(slots, id).owner {
        lemma_lasting_outlasts_decay(slots, owner);
    }
}

/// What is gone stays gone through every step of the countdowns.
pub proof fn lemma_gone_stays_gone(slots: Seq<Option<Node>>, id: u64, steps: nat)
    requires
        !alive(slots, id),
    ensures
        !alive(after_decays(slots, steps), id),
    decreases steps,
{
    if steps > 0 {
        lemma_gone_stays_gone(after_decay(slots), id, (steps - 1) as nat);
    }
}

/// The lifetime of a transient entity: with a countdown that stands at `n`,
/// and owned by nothing that has a countdown itself, the entity is there
/// after each of the next `n - 1` steps, its countdown lower by one each time,
/// and is gone from step `n` on.
pub proof fn lemma_countdown_lifetime(slots: Seq<Option<Node>>, id: u64, steps: nat)
    requires
        sound(slots),
        alive(slots, id),
        node(slots, id).decay is Some,
        node(slots, id).owner matches Some(owner) ==> lasting(slots, owner),
    ensures
        ({
            let n = node(slots, id).decay.unwrap().counter;
            let after = after_decays(slots, steps);
            &&& steps < n ==> alive(after, id) && node(after, id).decay == Some(
                Decay { counter: (n - steps) as usize },
            )
            &&& steps >= n ==> !alive(after, id)
        }),
    decreases steps,
{
    if steps > 0 {
        let next = after_decay(slots);
        let decay = node(slots, id).decay.unwrap();
        lemma_after_decay_is_sound(slots);
        if let Some(owner) = node(slots, id).owner {
            lemma_lasting_outlasts_decay(slots, owner);
        }
        if decay.expires() {
            assert(expiring(slots).contains(id));
            assert(falls(wound(slots), expiring(slots), id));
            lemma_gone_stays_gone(next, id, (steps - 1) as nat);
        } else {
            assert(!expiring(slots).contains(id));
            assert(!falls(wound(slots), expiring(slots), id));
            assert(alive(next, id));
            lemma_countdown_lifetime(next, id, (steps - 1) as nat);
        }
    }
}

} // verus!
