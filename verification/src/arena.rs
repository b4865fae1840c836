//! The scene: the entities that exist, who owns whom, and what each step of
//! the game does to them.
//!
//! Entities are numbered in the order of their creation, and a number is never
//! used again. An entity may have one owner, created before it; destroying an
//! entity destroys all that it owns.

use vstd::prelude::*;
use crate::control::{decide, Axis, Decision, Keys, Movement};
use crate::decay::{
    lemma_pass_timer_by_timer, runs_out_among, still_running, wound_down, wound_from, Decay, Timer,
};
use crate::hit::{lists, targets};
use crate::ownership::Owners;
use crate::spawn::{attack, camera, enemy, player, Blueprint, Family, Role};

verus! {

/// One entity of the scene.
#[derive(Clone, Copy, Debug, PartialEq, Eq, Structural)]
pub struct Node {
    /// What the entity was created as.
    pub blueprint: Blueprint,
    /// The entity that owns this one.
    pub owner: Option<u64>,
    /// The countdown, where the entity is transient.
    pub decay: Option<Decay>,
    /// Where the entity moves.
    pub movement: Movement,
    /// Where the entity faces, in degrees counterclockwise from straight up.
    pub facing: u16,
}

/// The scene.
pub struct Arena {
    slots: Vec<Option<Node>>,
}

/// The entity `id` exists.
pub open spec fn alive(slots: Seq<Option<Node>>, id: u64) -> bool {
    id < slots.len() && slots[id as int] is Some
}

/// The entity `id`, where it exists.
pub open spec fn node(slots: Seq<Option<Node>>, id: u64) -> Node {
    slots[id as int].unwrap()
}

/// The scene is well formed: its entities can be numbered; every owner exists
/// and was created before what it owns; and no countdown stands at zero.
pub open spec fn sound(slots: Seq<Option<Node>>) -> bool {
    &&& slots.len() <= u64::MAX
    &&& forall|id: u64| #[trigger]
        alive(slots, id) ==> {
            &&& node(slots, id).owner matches Some(owner) ==> owner < id && alive(slots, owner)
            &&& node(slots, id).decay matches Some(decay) ==> decay.counter >= 1
        }
}

/// The entity `id` is one of `roots`, or is owned, directly or through other
/// entities, by one of them.
pub open spec fn falls(slots: Seq<Option<Node>>, roots: Set<u64>, id: u64) -> bool
    decreases id,
{
    roots.contains(id) || (alive(slots, id) && match node(slots, id).owner {
        Some(owner) => owner < id && falls(slots, roots, owner),
        None => false,
    })
}

/// The entity `id` is `root`, or is owned, directly or through other entities,
/// by `root`.
pub open spec fn owns(slots: Seq<Option<Node>>, root: u64, id: u64) -> bool {
    falls(slots, set![root], id)
}

/// The scene after the entities of `roots` are destroyed, each with all that
/// it owns.
pub open spec fn without(slots: Seq<Option<Node>>, roots: Set<u64>) -> Seq<Option<Node>> {
    Seq::new(
        slots.len(),
        |i: int|
            if falls(slots, roots, i as u64) {
                None
            } else {
                slots[i]
            },
    )
}

/// An entity as it is created from `blueprint`: it stands still and faces
/// where the blueprint turns it.
pub open spec fn fresh(blueprint: Blueprint, owner: Option<u64>) -> Node {
    Node {
        blueprint,
        owner,
        decay: blueprint.decay,
        movement: Movement { x: Axis::Zero, y: Axis::Zero },
        facing: blueprint.turn,
    }
}

/// Whether the scene takes an entity of `blueprint` under `owner`: the owner,
/// where one is named, must exist, and a countdown must not start at zero.
pub open spec fn accepts(slots: Seq<Option<Node>>, blueprint: Blueprint, owner: Option<u64>) -> bool {
    &&& owner matches Some(o) ==> alive(slots, o)
    &&& blueprint.decay matches Some(decay) ==> decay.counter >= 1
}

/// A body and the vulnerability volume that it owns, as numbered at their
/// creation.
#[derive(Clone, Copy, Debug, PartialEq, Eq, Structural)]
pub struct Spawned {
    pub body: u64,
    pub hurtbox: u64,
}

/// The scene after a body of `family` and its vulnerability volume are
/// created: the body takes the next number, the volume the one after it.
pub open spec fn with_family(slots: Seq<Option<Node>>, family: Family) -> Seq<Option<Node>> {
    slots.push(Some(fresh(family.body, None))).push(
        Some(fresh(family.hurtbox, Some(slots.len() as u64))),
    )
}

/// The entities whose countdown runs out at the next step.
pub open spec fn expiring(slots: Seq<Option<Node>>) -> Set<u64> {
    Set::new(
        |id: u64|
            alive(slots, id) && (node(slots, id).decay matches Some(decay) && decay.expires()),
    )
}

/// The entity one step later, as far as its countdown goes: a countdown that
/// goes on is lower by one.
pub open spec fn wound_node(n: Node) -> Node {
    Node {
        blueprint: n.blueprint,
        owner: n.owner,
        decay: match n.decay {
            Some(decay) => if decay.expires() {
                Some(decay)
            } else {
                Some(Decay { counter: (decay.counter - 1) as usize })
            },
            None => None,
        },
        movement: n.movement,
        facing: n.facing,
    }
}

/// The scene with every countdown that goes on lowered by one.
pub open spec fn wound(slots: Seq<Option<Node>>) -> Seq<Option<Node>> {
    Seq::new(
        slots.len(),
        |i: int|
            match slots[i] {
                Some(n) => Some(wound_node(n)),
                None => None,
            },
    )
}

/// The timer `t` is the countdown of an entity of the scene.
pub open spec fn counts_down(slots: Seq<Option<Node>>, t: Timer) -> bool {
    alive(slots, t.entity) && node(slots, t.entity).decay == Some(t.decay)
}

/// The countdowns of the first `n` entities, in the order of their creation.
pub open spec fn timers_below(slots: Seq<Option<Node>>, n: nat) -> Seq<Timer>
    decreases n,
{
    if n == 0 {
        Seq::empty()
    } else {
        let earlier = timers_below(slots, (n - 1) as nat);
        let id = (n - 1) as u64;
        if alive(slots, id) && node(slots, id).decay is Some {
            earlier.push(Timer { entity: id, decay: node(slots, id).decay.unwrap() })
        } else {
            earlier
        }
    }
}

/// The countdowns of the scene, in the order of their entities' creation.
pub open spec fn timers_of(slots: Seq<Option<Node>>) -> Seq<Timer> {
    timers_below(slots, slots.len())
}

/// The entity `id` is a vulnerability volume with an owner.
pub open spec fn is_volume(slots: Seq<Option<Node>>, id: u64) -> bool {
    alive(slots, id) && node(slots, id).blueprint.role == Role::Hurtbox && node(slots, id).owner
        is Some
}

/// The direct owner of every vulnerability volume of the scene.
pub open spec fn hurt_index(slots: Seq<Option<Node>>) -> Map<u64, u64> {
    Map::new(|id: u64| is_volume(slots, id), |id: u64| node(slots, id).owner.unwrap())
}

/// The scene after one step of hit resolution, where `overlaps` holds for each
/// active attack volume the entities that it overlaps.
pub open spec fn after_hits(slots: Seq<Option<Node>>, overlaps: Seq<Seq<u64>>) -> Seq<Option<Node>> {
    without(slots, targets(hurt_index(slots), overlaps).to_set())
}

/// The scene after one step of every countdown.
pub open spec fn after_decay(slots: Seq<Option<Node>>) -> Seq<Option<Node>> {
    without(wound(slots), expiring(slots))
}

/// The entity `id` is a player.
pub open spec fn is_player(slots: Seq<Option<Node>>, id: u64) -> bool {
    alive(slots, id) && node(slots, id).blueprint.role == Role::Player
}

/// The players among the first `n` entities, in the order of their creation.
pub open spec fn players_below(slots: Seq<Option<Node>>, n: nat) -> Seq<u64>
    decreases n,
{
    if n == 0 {
        Seq::empty()
    } else {
        let earlier = players_below(slots, (n - 1) as nat);
        if is_player(slots, (n - 1) as u64) {
            earlier.push((n - 1) as u64)
        } else {
            earlier
        }
    }
}

/// The players of the scene, in the order of their creation.
pub open spec fn players_of(slots: Seq<Option<Node>>) -> Seq<u64> {
    players_below(slots, slots.len())
}

/// The entity after the controller steered it: it moves along `movement` and,
/// where `facing` names an orientation, faces there.
pub open spec fn steered_node(n: Node, movement: Movement, facing: Option<u16>) -> Node {
    Node {
        blueprint: n.blueprint,
        owner: n.owner,
        decay: n.decay,
        movement,
        facing: match facing {
            Some(degrees) => degrees,
            None => n.facing,
        },
    }
}

/// The scene after the controller's decision is carried out: a respawn creates
/// an enemy; steering sets the player's movement and orientation and, on a
/// swing, creates an attack volume owned by the player.
pub open spec fn steered(slots: Seq<Option<Node>>, decision: Decision) -> Seq<Option<Node>> {
    match decision {
        Decision::Respawn => with_family(slots, enemy()),
        Decision::Idle => slots,
        Decision::Steer { player, movement, facing, attack: swings } => {
            let turned = slots.update(
                player as int,
                Some(steered_node(node(slots, player), movement, facing)),
            );
            if swings {
                turned.push(Some(fresh(attack(), Some(player))))
            } else {
                turned
            }
        },
    }
}

/// The scene after `steps` steps of every countdown.
pub open spec fn after_decays(slots: Seq<Option<Node>>, steps: nat) -> Seq<Option<Node>>
    decreases steps,
{
    if steps == 0 {
        slots
    } else {
        after_decays(after_decay(slots), (steps - 1) as nat)
    }
}

/// The entity `id` exists and is lasting: neither it nor anything that owns it
/// has a countdown.
pub open spec fn lasting(slots: Seq<Option<Node>>, id: u64) -> bool
    decreases id,
{
    alive(slots, id) && node(slots, id).decay is None && match node(slots, id).owner {
        Some(owner) => owner < id && lasting(slots, owner),
        None => true,
    }
}

impl View for Arena {
    type V = Seq<Option<Node>>;

    /// The scene as a sequence: at each number the entity of that number, or
    /// nothing where it was destroyed.
    closed spec fn view(&self) -> Seq<Option<Node>> {
        self.slots@
    }
}

impl Arena {
    /// The scene is well formed.
    pub open spec fn wf(&self) -> bool {
        sound(self@)
    }

    /// A scene without entities.
    pub fn new() -> (arena: Arena)
        ensures
            arena@ == Seq::<Option<Node>>::empty(),
            arena.wf(),
    {
        Arena { slots: Vec::new() }
    }

    /// The number of entities ever created; the next entity gets this number.
    pub fn created(&self) -> (n: usize)
        ensures
            n == self@.len(),
    {
        self.slots.len()
    }

    /// The entity `id`, where it exists.
    pub fn get(&self, id: u64) -> (found: Option<Node>)
        ensures
            found == (if alive(self@, id) {
                Some(node(self@, id))
            } else {
                None
            }),
    {
        if id < self.slots.len() as u64 {
            self.slots[id as usize]
        } else {
            None
        }
    }

    /// Whether the entity `id` exists.
    pub fn is_alive(&self, id: u64) -> (yes: bool)
        ensures
            yes == alive(self@, id),
    {
        self.get(id).is_some()
    }

    /// Creates an entity from `blueprint`, owned by `owner` where one is
    /// named, and returns its number. Nothing is created, and nothing
    /// returned, where the owner does not exist or the blueprint's countdown
    /// starts at zero.
    pub fn spawn(&mut self, blueprint: Blueprint, owner: Option<u64>) -> (id: Option<u64>)
        requires
            old(self).wf(),
        ensures
            final(self).wf(),
            accepts(old(self)@, blueprint, owner) ==> {
                &&& id == Some(old(self)@.len() as u64)
                &&& final(self)@ == old(self)@.push(Some(fresh(blueprint, owner)))
            },
            !accepts(old(self)@, blueprint, owner) ==> id is None && final(self)@ == old(self)@,
    {
        if let Some(o) = owner {
            if !self.is_alive(o) {
                return None;
            }
        }
        if let Some(decay) = blueprint.decay {
            if decay.counter == 0 {
                return None;
            }
        }
        let id: u64 = self.slots.len() as u64;
        let created = Node {
            blueprint,
            owner,
            decay: blueprint.decay,
            movement: Movement { x: Axis::Zero, y: Axis::Zero },
            facing: blueprint.turn,
        };
        self.slots.push(Some(created));
        let count: usize = self.slots.len();
        proof {
            assert forall|e: u64| #[trigger] alive(self@, e) implies {
                &&& node(self@, e).owner matches Some(owner) ==> owner < e && alive(self@, owner)
                &&& node(self@, e).decay matches Some(decay) ==> decay.counter >= 1
            } by {
                if e < old(self)@.len() {
                    assert(alive(old(self)@, e));
                }
            }
        }
        Some(id)
    }

    /// Creates a body of `family` and, owned by it, its vulnerability volume.
    fn spawn_family(&mut self, family: Family) -> (ids: Spawned)
        requires
            old(self).wf(),
            family.body.decay is None,
            family.hurtbox.decay is None,
        ensures
            final(self).wf(),
            final(self)@ == with_family(old(self)@, family),
            ids.body == old(self)@.len(),
            ids.hurtbox == old(self)@.len() + 1,
    {
        let body: u64 = self.slots.len() as u64;
        self.spawn(family.body, None);
        let hurtbox: u64 = self.slots.len() as u64;
        self.spawn(family.hurtbox, Some(body));
        Spawned { body, hurtbox }
    }

    /// Creates the camera and returns its number.
    pub fn spawn_camera(&mut self) -> (id: u64)
        requires
            old(self).wf(),
        ensures
            final(self).wf(),
            final(self)@ == old(self)@.push(Some(fresh(camera(), None))),
            id == old(self)@.len(),
    {
        let id: u64 = self.slots.len() as u64;
        self.spawn(crate::spawn::spawn_camera(), None);
        id
    }

    /// Creates a player and, owned by it, its vulnerability volume.
    pub fn spawn_player(&mut self) -> (ids: Spawned)
        requires
            old(self).wf(),
        ensures
            final(self).wf(),
            final(self)@ == with_family(old(self)@, player()),
            ids.body == old(self)@.len(),
            ids.hurtbox == old(self)@.len() + 1,
    {
        self.spawn_family(crate::spawn::spawn_player())
    }

    /// Creates an enemy and, owned by it, its vulnerability volume. This is
    /// what a spawn event does; each event creates an enemy of its own.
    pub fn spawn_enemy(&mut self) -> (ids: Spawned)
        requires
            old(self).wf(),
        ensures
            final(self).wf(),
            final(self)@ == with_family(old(self)@, enemy()),
            ids.body == old(self)@.len(),
            ids.hurtbox == old(self)@.len() + 1,
    {
        self.spawn_family(crate::spawn::spawn_enemy())
    }

    /// The scene at startup: the camera, the player with its vulnerability
    /// volume, and the first enemy with its own, numbered 0 to 4 in this order.
    pub fn startup() -> (arena: Arena)
        ensures
            arena.wf(),
            arena@ == with_family(
                with_family(seq![Some(fresh(camera(), None))], player()),
                enemy(),
            ),
    {
        let mut arena = Arena::new();
        arena.spawn_camera();
        proof {
            assert(arena@ =~= seq![Some(fresh(camera(), None))]);
        }
        arena.spawn_player();
        arena.spawn_enemy();
        arena
    }

    /// The countdowns of the scene, in the order of their entities' creation.
    pub fn timers(&self) -> (timers: Vec<Timer>)
        ensures
            timers@ == timers_of(self@),
            forall|t: Timer| #[trigger] timers@.contains(t) <==> counts_down(self@, t),
    {
        let mut timers: Vec<Timer> = Vec::new();
        let mut i: usize = 0;
        while i < self.slots.len()
            invariant
                i <= self.slots.len(),
                timers@ == timers_below(self@, i as nat),
            decreases self.slots.len() - i,
        {
            if let Some(found) = self.slots[i] {
                if let Some(decay) = found.decay {
                    timers.push(Timer { entity: i as u64, decay });
                }
            }
            i = i + 1;
        }
        proof {
            lemma_timers_below(self@, self@.len());
        }
        timers
    }

    /// One step of every countdown of the scene: a countdown above one goes
    /// down by one; every other runs out, and its entity is destroyed with all
    /// that it owns.
    pub fn decay_system(&mut self)
        requires
            old(self).wf(),
        ensures
            final(self).wf(),
            final(self)@ == after_decay(old(self)@),
    {
        let ghost before = self@;
        let timers = self.timers();
        let pass = crate::decay::decay_system(&timers);
        proof {
            lemma_pass_timer_by_timer(timers@);
            assert forall|j: int| 0 <= j < pass.running@.len() implies alive(
                before,
                (#[trigger] pass.running@[j]).entity,
            ) by {
                let i = choose|i: int|
                    0 <= i < timers@.len() && !(#[trigger] timers@[i]).decay.expires()
                        && pass.running@[j] == wound_down()(timers@[i]);
                assert(timers@.contains(timers@[i]));
            }
        }
        let mut k: usize = 0;
        while k < pass.running.len()
            invariant
                k <= pass.running.len(),
                sound(before),
                self@.len() == before.len(),
                forall|t: Timer| #[trigger] timers@.contains(t) <==> counts_down(before, t),
                forall|j: int|
                    0 <= j < pass.running@.len() ==> wound_from(timers@, #[trigger] pass.running@[j]),
                forall|j: int|
                    0 <= j < pass.running@.len() ==> alive(
                        before,
                        (#[trigger] pass.running@[j]).entity,
                    ),
                forall|i: int|
                    0 <= i < before.len() ==> #[trigger] self@[i] == before[i] || self@[i] == wound(
                        before,
                    )[i],
                forall|j: int|
                    0 <= j < k ==> self@[(#[trigger] pass.running@[j]).entity as int] == wound(
                        before,
                    )[pass.running@[j].entity as int],
            decreases pass.running.len() - k,
        {
            let timer = pass.running[k];
            let ghost so_far = self@;
            proof {
                let i = choose|i: int|
                    0 <= i < timers@.len() && !(#[trigger] timers@[i]).decay.expires() && timer
                        == wound_down()(timers@[i]);
                assert(timers@.contains(timers@[i]));
                assert(counts_down(before, timers@[i]));
                assert(so_far[timer.entity as int] == before[timer.entity as int]
                    || so_far[timer.entity as int] == wound(before)[timer.entity as int]);
            }
            let count: usize = self.slots.len();
            let at: usize = timer.entity as usize;
            let found: Node = self.slots[at].unwrap();
            self.slots.set(
                at,
                Some(
                    Node {
                        blueprint: found.blueprint,
                        owner: found.owner,
                        decay: Some(timer.decay),
                        movement: found.movement,
                        facing: found.facing,
                    },
                ),
            );
            proof {
                assert(self@[at as int] == wound(before)[at as int]);
                assert forall|i: int| 0 <= i < before.len() implies #[trigger] self@[i] == before[i]
                    || self@[i] == wound(before)[i] by {
                    if i != at {
                        assert(self@[i] == so_far[i]);
                    }
                }
                assert forall|j: int| 0 <= j < k + 1 implies self@[(
                #[trigger] pass.running@[j]).entity as int] == wound(
                    before,
                )[pass.running@[j].entity as int] by {
                    let other = pass.running@[j].entity as int;
                    assert(alive(before, pass.running@[j].entity));
                    if other != at {
                        assert(self@[other] == so_far[other]);
                    }
                }
            }
            k = k + 1;
        }
        proof {
            assert forall|i: int| 0 <= i < before.len() implies self@[i] == wound(before)[i] by {
                if self@[i] != wound(before)[i] {
                    assert(self@[i] == before[i]);
                    let id = i as u64;
                    let t = Timer { entity: id, decay: node(before, id).decay.unwrap() };
                    assert(counts_down(before, t));
                    assert(timers@.contains(t));
                    let at = choose|at: int| 0 <= at < timers@.len() && timers@[at] == t;
                    assert(!timers@[at].decay.expires());
                    assert(pass.running@.contains(wound_down()(timers@[at])));
                    let j = choose|j: int|
                        0 <= j < pass.running@.len() && pass.running@[j] == wound_down()(
                            timers@[at],
                        );
                    assert(pass.running@[j].entity == id);
                }
            }
            assert(self@ =~= wound(before));
            lemma_wound_is_sound(before);
            assert forall|e: u64| pass.expired@.to_set().contains(e) <==> expiring(before).contains(
                e,
            ) by {
                if pass.expired@.contains(e) {
                    assert(runs_out_among(timers@, e));
                    let i = choose|i: int|
                        0 <= i < timers@.len() && (#[trigger] timers@[i]).decay.expires()
                            && timers@[i].entity == e;
                    assert(timers@.contains(timers@[i]));
                    assert(counts_down(before, timers@[i]));
                }
                if expiring(before).contains(e) {
                    let t = Timer { entity: e, decay: node(before, e).decay.unwrap() };
                    assert(counts_down(before, t));
                    assert(timers@.contains(t));
                    let i = choose|i: int| 0 <= i < timers@.len() && timers@[i] == t;
                    assert(timers@[i].decay.expires() && timers@[i].entity == e);
                    assert(runs_out_among(timers@, e));
                }
            }
            assert(pass.expired@.to_set() =~= expiring(before));
        }
        self.destroy_all(&pass.expired);
    }

    /// The direct owner of every vulnerability volume of the scene.
    pub fn owners(&self) -> (owners: Owners)
        ensures
            owners@ == hurt_index(self@),
    {
        let mut owners = Owners::new();
        let mut i: usize = 0;
        while i < self.slots.len()
            invariant
                i <= self.slots.len(),
                owners@ == Map::new(
                    |id: u64| id < i && is_volume(self@, id),
                    |id: u64| node(self@, id).owner.unwrap(),
                ),
            decreases self.slots.len() - i,
        {
            let ghost so_far = owners@;
            let mut grows: bool = false;
            if let Some(found) = self.slots[i] {
                if let Some(owner) = found.owner {
                    if found.blueprint.role == Role::Hurtbox {
                        owners.insert(i as u64, owner);
                        grows = true;
                    }
                }
            }
            proof {
                assert(grows == is_volume(self@, i as u64));
                assert(owners@ =~= Map::new(
                    |id: u64| id < i + 1 && is_volume(self@, id),
                    |id: u64| node(self@, id).owner.unwrap(),
                ));
            }
            i = i + 1;
        }
        proof {
            assert(owners@ =~= hurt_index(self@));
        }
        owners
    }

    /// One step of hit resolution on the scene. `overlaps` holds, for each
    /// active attack volume, the entities that it overlaps. Behind each of
    /// them the owner is found: the entity itself, or, for a vulnerability
    /// volume, the first entity above it that is none. Each such owner is
    /// destroyed with all that it owns. Hits on what does not exist, and
    /// second hits on one owner, change nothing.
    pub fn hitbox_system(&mut self, overlaps: &Vec<Vec<u64>>)
        requires
            old(self).wf(),
        ensures
            final(self).wf(),
            final(self)@ == after_hits(old(self)@, lists(overlaps@)),
    {
        let owners = self.owners();
        let doomed = crate::hit::hitbox_system(overlaps, &owners);
        self.destroy_all(&doomed);
    }

    /// The players of the scene, in the order of their creation.
    pub fn players(&self) -> (players: Vec<u64>)
        ensures
            players@ == players_of(self@),
            forall|id: u64| players@.contains(id) <==> is_player(self@, id),
    {
        let mut players: Vec<u64> = Vec::new();
        let mut i: usize = 0;
        while i < self.slots.len()
            invariant
                i <= self.slots.len(),
                players@ == players_below(self@, i as nat),
            decreases self.slots.len() - i,
        {
            if let Some(found) = self.slots[i] {
                if found.blueprint.role == Role::Player {
                    players.push(i as u64);
                }
            }
            i = i + 1;
        }
        proof {
            lemma_players_below(self@, self@.len());
        }
        players
    }

    /// One step of the controller on the scene. The respawn key creates an
    /// enemy and leaves the player alone. Otherwise, where the scene has
    /// exactly one player, the player moves as the direction keys ask and
    /// turns to face the movement, and the attack key creates an attack volume
    /// owned by the player. With no player, or more than one, nothing changes.
    pub fn player_controller(&mut self, keys: &Keys) -> (decision: Decision)
        requires
            old(self).wf(),
        ensures
            final(self).wf(),
            decision == decide(players_of(old(self)@), *keys),
            final(self)@ == steered(old(self)@, decision),
    {
        let players = self.players();
        let decision = crate::control::player_controller(&players, keys);
        match decision {
            Decision::Respawn => {
                self.spawn_enemy();
            },
            Decision::Idle => {},
            Decision::Steer { player, movement, facing, attack: swings } => {
                proof {
                    assert(players@.contains(players@[0]));
                    assert(is_player(self@, player));
                }
                let ghost before = self@;
                let count: usize = self.slots.len();
                assert(player < count);
                let found: Node = self.slots[player as usize].unwrap();
                let turned = Node {
                    blueprint: found.blueprint,
                    owner: found.owner,
                    decay: found.decay,
                    movement,
                    facing: match facing {
                        Some(degrees) => degrees,
                        None => found.facing,
                    },
                };
                self.slots.set(player as usize, Some(turned));
                proof {
                    assert forall|id: u64| #[trigger] alive(self@, id) implies {
                        &&& node(self@, id).owner matches Some(owner) ==> owner < id && alive(
                            self@,
                            owner,
                        )
                        &&& node(self@, id).decay matches Some(decay) ==> decay.counter >= 1
                    } by {
                        assert(alive(before, id));
                        if let Some(owner) = node(before, id).owner {
                            assert(alive(before, owner));
                        }
                    }
                }
                if swings {
                    self.spawn(crate::spawn::spawn_attack(), Some(player));
                }
            },
        }
        decision
    }

    /// One fixed step of the game on the scene, its three systems in the order
    /// of the plan: the controller, the countdowns, hit resolution.
    pub fn fixed_update(&mut self, keys: &Keys, overlaps: &Vec<Vec<u64>>) -> (decision: Decision)
        requires
            old(self).wf(),
        ensures
            final(self).wf(),
            decision == decide(players_of(old(self)@), *keys),
            final(self)@ == after_hits(
                after_decay(steered(old(self)@, decision)),
                lists(overlaps@),
            ),
    {
        let decision = self.player_controller(keys);
        self.decay_system();
        self.hitbox_system(overlaps);
        decision
    }

    /// Destroys each entity of `roots` with all that it owns. An entity that
    /// does not exist, or is named or reached twice, is passed over.
    pub fn destroy_all(&mut self, roots: &Vec<u64>)
        requires
            old(self).wf(),
        ensures
            final(self).wf(),
            final(self)@ == without(old(self)@, roots@.to_set()),
    {
        let ghost before = self@;
        let ghost doomed = roots@.to_set();
        let mut next: Vec<Option<Node>> = Vec::new();
        let mut i: usize = 0;
        while i < self.slots.len()
            invariant
                i <= self.slots.len(),
                self@ == before,
                sound(before),
                doomed == roots@.to_set(),
                next@.len() == i,
                forall|k: int|
                    0 <= k < i ==> #[trigger] next@[k] == (if falls(before, doomed, k as u64) {
                        None
                    } else {
                        before[k]
                    }),
            decreases self.slots.len() - i,
        {
            let id: u64 = i as u64;
            let kept: Option<Node> = match self.slots[i] {
                None => None,
                Some(found) => {
                    let owner_fell: bool = match found.owner {
                        Some(owner) => {
                            proof {
                                assert(alive(before, id));
                            }
                            next[owner as usize].is_none()
                        },
                        None => false,
                    };
                    if crate::hit::holds(roots, id) || owner_fell {
                        None
                    } else {
                        Some(found)
                    }
                },
            };
            next.push(kept);
            i = i + 1;
        }
        self.slots = next;
        proof {
            assert(self@ =~= without(before, doomed));
            lemma_without_is_sound(before, doomed);
        }
    }

    /// Destroys the entity `root` with all that it owns; nothing happens where
    /// it does not exist.
    pub fn despawn_recursive(&mut self, root: u64)
        requires
            old(self).wf(),
        ensures
            final(self).wf(),
            final(self)@ == without(old(self)@, set![root]),
            forall|id: u64| alive(final(self)@, id) <==> alive(old(self)@, id) && !owns(old(self)@, root, id),
    {
        let mut roots: Vec<u64> = Vec::new();
        roots.push(root);
        proof {
            assert(roots@[0] == root);
            assert(roots@.to_set() =~= set![root]);
        }
        self.destroy_all(&roots);
    }
}

/// Destroying entities with all that they own leaves the ownership forest
/// whole.
pub proof fn lemma_without_is_sound(slots: Seq<Option<Node>>, roots: Set<u64>)
    requires
        sound(slots),
    ensures
        sound(without(slots, roots)),
{
    let after = without(slots, roots);
    assert forall|id: u64| #[trigger] alive(after, id) implies {
        &&& node(after, id).owner matches Some(owner) ==> owner < id && alive(after, owner)
        &&& node(after, id).decay matches Some(decay) ==> decay.counter >= 1
    } by {
        assert(alive(slots, id));
        assert(!falls(slots, roots, id));
    }
}

/// Lowering the countdowns that go on leaves the scene well formed.
pub proof fn lemma_wound_is_sound(slots: Seq<Option<Node>>)
    requires
        sound(slots),
    ensures
        sound(wound(slots)),
{
    let after = wound(slots);
    assert forall|id: u64| #[trigger] alive(after, id) implies {
        &&& node(after, id).owner matches Some(owner) ==> owner < id && alive(after, owner)
        &&& node(after, id).decay matches Some(decay) ==> decay.counter >= 1
    } by {
        assert(alive(slots, id));
        if let Some(owner) = node(slots, id).owner {
            assert(alive(slots, owner));
        }
    }
}

/// The list of players holds exactly the players.
pub proof fn lemma_players_below(slots: Seq<Option<Node>>, n: nat)
    requires
        n <= slots.len() <= u64::MAX,
    ensures
        forall|id: u64| #[trigger]
            players_below(slots, n).contains(id) <==> id < n && is_player(slots, id),
    decreases n,
{
    if n > 0 {
        let earlier = players_below(slots, (n - 1) as nat);
        let last = (n - 1) as u64;
        let grown = earlier.push(last);
        lemma_players_below(slots, (n - 1) as nat);
        assert(grown[earlier.len() as int] == last);
        assert forall|id: u64| #[trigger]
            players_below(slots, n).contains(id) <==> id < n && is_player(slots, id) by {
            assert(earlier.contains(id) <==> id < n - 1 && is_player(slots, id));
            assert(players_below(slots, n) == if is_player(slots, last) {
                grown
            } else {
                earlier
            });
            if earlier.contains(id) {
                let k = choose|k: int| 0 <= k < earlier.len() && earlier[k] == id;
                assert(grown[k] == id);
            }
            if grown.contains(id) && id != last {
                let k = choose|k: int| 0 <= k < grown.len() && grown[k] == id;
                assert(earlier[k] == id);
            }
        }
    }
}

/// The list of countdowns holds exactly the countdowns of the entities.
pub proof fn lemma_timers_below(slots: Seq<Option<Node>>, n: nat)
    requires
        n <= slots.len() <= u64::MAX,
    ensures
        forall|t: Timer| #[trigger]
            timers_below(slots, n).contains(t) <==> t.entity < n && counts_down(slots, t),
    decreases n,
{
    if n > 0 {
        let earlier = timers_below(slots, (n - 1) as nat);
        let id = (n - 1) as u64;
        lemma_timers_below(slots, (n - 1) as nat);
        if alive(slots, id) && node(slots, id).decay is Some {
            let last = Timer { entity: id, decay: node(slots, id).decay.unwrap() };
            let grown = earlier.push(last);
            assert(grown[earlier.len() as int] == last);
            assert forall|t: Timer| #[trigger]
                timers_below(slots, n).contains(t) <==> t.entity < n && counts_down(slots, t) by {
                assert(earlier.contains(t) <==> t.entity < n - 1 && counts_down(slots, t));
                if earlier.contains(t) {
                    let k = choose|k: int| 0 <= k < earlier.len() && earlier[k] == t;
                    assert(grown[k] == t);
                }
                if grown.contains(t) && t != last {
                    let k = choose|k: int| 0 <= k < grown.len() && grown[k] == t;
                    assert(earlier[k] == t);
                }
            }
        } else {
            assert forall|t: Timer| #[trigger]
                timers_below(slots, n).contains(t) <==> t.entity < n && counts_down(slots, t) by {
                assert(earlier.contains(t) <==> t.entity < n - 1 && counts_down(slots, t));
            }
        }
    }
}

} // verus!
