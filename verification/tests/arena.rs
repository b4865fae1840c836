use skirmish::arena::{Arena, Node, Spawned};
use skirmish::control::{Axis, Decision, Keys, Movement};
use skirmish::decay::Decay;
use skirmish::spawn::{spawn_attack, spawn_camera, spawn_enemy, spawn_player, Blueprint, Role};

fn alive_ids(arena: &Arena) -> Vec<u64> {
    (0..arena.created() as u64).filter(|id| arena.is_alive(*id)).collect()
}

fn children_of(arena: &Arena, owner: u64) -> Vec<u64> {
    (0..arena.created() as u64)
        .filter(|id| matches!(arena.get(*id), Some(n) if n.owner == Some(owner)))
        .collect()
}

fn transient(counter: usize) -> Blueprint {
    Blueprint { decay: Some(Decay { counter }), ..spawn_attack() }
}

#[test]
fn new_scene_is_empty() {
    let arena = Arena::new();
    assert_eq!(arena.created(), 0);
    assert!(!arena.is_alive(0));
    assert_eq!(arena.get(0), None);
    assert!(arena.players().is_empty());
}

#[test]
fn startup_creates_camera_player_and_first_enemy() {
    let arena = Arena::startup();
    assert_eq!(arena.created(), 5);
    assert_eq!(alive_ids(&arena), vec![0, 1, 2, 3, 4]);
    let roles: Vec<Role> = (0..5).map(|id| arena.get(id).unwrap().blueprint.role).collect();
    assert_eq!(roles, vec![Role::Camera, Role::Player, Role::Hurtbox, Role::Enemy, Role::Hurtbox]);
    let owners: Vec<Option<u64>> = (0..5).map(|id| arena.get(id).unwrap().owner).collect();
    assert_eq!(owners, vec![None, None, Some(1), None, Some(3)]);
    assert_eq!(arena.get(0).unwrap().blueprint, spawn_camera());
    assert_eq!(arena.get(1).unwrap().blueprint, spawn_player().body);
    assert_eq!(arena.get(2).unwrap().blueprint, spawn_player().hurtbox);
    assert_eq!(arena.get(3).unwrap().blueprint, spawn_enemy().body);
    assert_eq!(arena.get(4).unwrap().blueprint, spawn_enemy().hurtbox);
    assert_eq!(arena.players(), vec![1]);
    // The player starts turned by 45 degrees and stands still.
    let player = arena.get(1).unwrap();
    assert_eq!(player.facing, 45);
    assert_eq!(player.movement, Movement { x: Axis::Zero, y: Axis::Zero });
}

#[test]
fn two_spawn_events_make_two_enemies_each_with_its_own_volume() {
    let mut arena = Arena::new();
    let first = arena.spawn_enemy();
    let second = arena.spawn_enemy();
    assert_eq!(first, Spawned { body: 0, hurtbox: 1 });
    assert_eq!(second, Spawned { body: 2, hurtbox: 3 });
    assert_ne!(first.body, second.body);
    assert_ne!(first.hurtbox, second.hurtbox);
    for ids in [first, second] {
        let body = arena.get(ids.body).unwrap();
        assert_eq!(body.blueprint.role, Role::Enemy);
        assert_eq!(body.owner, None);
        let volume = arena.get(ids.hurtbox).unwrap();
        assert_eq!(volume.blueprint.role, Role::Hurtbox);
        assert_eq!(volume.owner, Some(ids.body));
        assert_eq!(children_of(&arena, ids.body), vec![ids.hurtbox]);
    }
    // Destroying one leaves the other whole.
    arena.despawn_recursive(first.body);
    assert_eq!(alive_ids(&arena), vec![second.body, second.hurtbox]);
}

#[test]
fn respawn_key_triggers_a_spawn_event_each_time() {
    let mut arena = Arena::startup();
    let respawn = Keys { respawn: true, key_d: true, attack: true, ..Keys::default() };
    let player_before = arena.get(1).unwrap();
    assert_eq!(arena.player_controller(&respawn), Decision::Respawn);
    assert_eq!(arena.player_controller(&respawn), Decision::Respawn);
    assert_eq!(arena.created(), 9);
    assert_eq!(arena.get(5).unwrap().blueprint.role, Role::Enemy);
    assert_eq!(arena.get(6).unwrap().owner, Some(5));
    assert_eq!(arena.get(7).unwrap().blueprint.role, Role::Enemy);
    assert_eq!(arena.get(8).unwrap().owner, Some(7));
    // The player is left alone on such a step.
    assert_eq!(arena.get(1).unwrap(), player_before);
}

#[test]
fn hit_on_the_enemy_volume_destroys_enemy_and_volume_in_one_step() {
    let mut arena = Arena::startup();
    arena.hitbox_system(&vec![vec![4]]);
    assert!(!arena.is_alive(3));
    assert!(!arena.is_alive(4));
    assert_eq!(alive_ids(&arena), vec![0, 1, 2]);
    assert_eq!(arena.created(), 5);
}

#[test]
fn second_overlap_with_the_same_owner_changes_nothing_more() {
    let mut once = Arena::startup();
    once.hitbox_system(&vec![vec![4]]);
    let mut twice = Arena::startup();
    twice.hitbox_system(&vec![vec![4, 4], vec![4, 3]]);
    assert_eq!(alive_ids(&once), alive_ids(&twice));
    // A hit on what is already gone is passed over.
    twice.hitbox_system(&vec![vec![4], vec![3], vec![99]]);
    assert_eq!(alive_ids(&twice), vec![0, 1, 2]);
}

#[test]
fn hit_on_a_body_destroys_it_with_all_it_owns() {
    let mut arena = Arena::startup();
    let keys = Keys { attack: true, ..Keys::default() };
    arena.player_controller(&keys);
    assert_eq!(children_of(&arena, 1), vec![2, 5]);
    arena.hitbox_system(&vec![vec![2]]);
    assert_eq!(alive_ids(&arena), vec![0, 3, 4]);
}

#[test]
fn owners_index_lists_the_volumes() {
    let arena = Arena::startup();
    let owners = arena.owners();
    assert_eq!(owners.len(), 2);
    assert_eq!(owners.owner_of(2), Some(1));
    assert_eq!(owners.owner_of(4), Some(3));
    assert_eq!(owners.owner_of(1), None);
    assert_eq!(owners.resolve_owner(4), 3);
}

#[test]
fn steering_sets_movement_and_orientation() {
    let mut arena = Arena::startup();
    let right = Keys { key_d: true, ..Keys::default() };
    let decision = arena.player_controller(&right);
    assert_eq!(
        decision,
        Decision::Steer {
            player: 1,
            movement: Movement { x: Axis::Positive, y: Axis::Zero },
            facing: Some(270),
            attack: false
        }
    );
    let player = arena.get(1).unwrap();
    assert_eq!(player.movement, Movement { x: Axis::Positive, y: Axis::Zero });
    assert_eq!(player.facing, 270);
    // Standing still keeps the orientation.
    arena.player_controller(&Keys::default());
    let player = arena.get(1).unwrap();
    assert!(player.movement.is_still());
    assert_eq!(player.facing, 270);
    assert_eq!(arena.created(), 5);
}

#[test]
fn attack_key_creates_an_attack_volume_owned_by_the_player() {
    let mut arena = Arena::startup();
    arena.player_controller(&Keys { attack: true, arrow_up: true, ..Keys::default() });
    assert_eq!(arena.created(), 6);
    let attack = arena.get(5).unwrap();
    assert_eq!(attack.blueprint, spawn_attack());
    assert_eq!(attack.owner, Some(1));
    assert_eq!(attack.decay, Some(Decay { counter: 32 }));
    assert_eq!(arena.get(1).unwrap().facing, 0);
}

#[test]
fn without_exactly_one_player_the_controller_changes_nothing() {
    let mut none = Arena::new();
    none.spawn_enemy();
    let keys = Keys { attack: true, key_w: true, ..Keys::default() };
    assert_eq!(none.player_controller(&keys), Decision::Idle);
    assert_eq!(none.created(), 2);
    let mut two = Arena::new();
    two.spawn_player();
    two.spawn_player();
    assert_eq!(two.players(), vec![0, 2]);
    let before: Vec<Option<Node>> = (0..4).map(|id| two.get(id)).collect();
    assert_eq!(two.player_controller(&keys), Decision::Idle);
    let after: Vec<Option<Node>> = (0..4).map(|id| two.get(id)).collect();
    assert_eq!(before, after);
    assert_eq!(two.created(), 4);
}

#[test]
fn attack_volume_lives_through_thirty_one_steps() {
    let mut arena = Arena::startup();
    arena.player_controller(&Keys { attack: true, ..Keys::default() });
    for step in 1..=40usize {
        arena.decay_system();
        if step < 32 {
            assert_eq!(arena.get(5).unwrap().decay, Some(Decay { counter: 32 - step }));
        } else {
            assert!(!arena.is_alive(5));
        }
        assert_eq!(alive_ids(&arena)[..5], [0, 1, 2, 3, 4]);
    }
}

#[test]
fn counter_of_one_is_gone_after_the_next_step() {
    let mut arena = Arena::new();
    let id = arena.spawn(transient(1), None).unwrap();
    assert!(arena.is_alive(id));
    arena.decay_system();
    assert!(!arena.is_alive(id));
}

#[test]
fn counter_of_n_lives_through_n_minus_one_steps() {
    for n in 1..=12usize {
        let mut arena = Arena::startup();
        let id = arena.spawn(transient(n), Some(1)).unwrap();
        for step in 1..=n + 2 {
            arena.decay_system();
            assert_eq!(arena.is_alive(id), step < n);
            if step < n {
                assert_eq!(arena.get(id).unwrap().decay, Some(Decay { counter: n - step }));
            }
        }
    }
}

#[test]
fn expiry_destroys_what_the_entity_owns() {
    let mut arena = Arena::new();
    let top = arena.spawn(transient(2), None).unwrap();
    let child = arena.spawn(transient(9), Some(top)).unwrap();
    let grandchild = arena.spawn(spawn_enemy().hurtbox, Some(child)).unwrap();
    let other = arena.spawn(transient(2), None).unwrap();
    let lasting = arena.spawn(spawn_enemy().body, None).unwrap();
    arena.decay_system();
    assert_eq!(alive_ids(&arena), vec![top, child, grandchild, other, lasting]);
    assert_eq!(arena.get(child).unwrap().decay, Some(Decay { counter: 8 }));
    arena.decay_system();
    assert_eq!(alive_ids(&arena), vec![lasting]);
}

#[test]
fn spawn_refuses_a_missing_owner_and_a_zero_countdown() {
    let mut arena = Arena::new();
    assert_eq!(arena.spawn(spawn_attack(), Some(0)), None);
    assert_eq!(arena.spawn(transient(0), None), None);
    assert_eq!(arena.created(), 0);
    let body = arena.spawn(spawn_enemy().body, None);
    assert_eq!(body, Some(0));
    assert_eq!(arena.spawn(spawn_attack(), Some(0)), Some(1));
    arena.despawn_recursive(0);
    assert_eq!(arena.spawn(spawn_attack(), Some(0)), None);
    // A number is never used again.
    assert_eq!(arena.spawn(spawn_enemy().body, None), Some(2));
    assert_eq!(arena.created(), 3);
}

#[test]
fn despawn_recursive_takes_the_whole_subtree_and_nothing_else() {
    let mut arena = Arena::new();
    let a = arena.spawn(spawn_enemy().body, None).unwrap();
    let b = arena.spawn(spawn_enemy().hurtbox, Some(a)).unwrap();
    let c = arena.spawn(spawn_enemy().hurtbox, Some(b)).unwrap();
    let d = arena.spawn(spawn_enemy().body, None).unwrap();
    let e = arena.spawn(spawn_enemy().hurtbox, Some(d)).unwrap();
    let f = arena.spawn(spawn_enemy().hurtbox, Some(a)).unwrap();
    arena.despawn_recursive(b);
    assert_eq!(alive_ids(&arena), vec![a, d, e, f]);
    arena.despawn_recursive(b);
    assert_eq!(alive_ids(&arena), vec![a, d, e, f]);
    arena.despawn_recursive(99);
    assert_eq!(alive_ids(&arena), vec![a, d, e, f]);
    arena.destroy_all(&vec![a, e, a]);
    assert_eq!(alive_ids(&arena), vec![d]);
    assert!(!arena.is_alive(c));
}

#[test]
fn hit_walks_up_through_nested_volumes() {
    let mut arena = Arena::new();
    let body = arena.spawn(spawn_enemy().body, None).unwrap();
    let outer = arena.spawn(spawn_enemy().hurtbox, Some(body)).unwrap();
    let inner = arena.spawn(spawn_enemy().hurtbox, Some(outer)).unwrap();
    let bystander = arena.spawn_enemy();
    assert_eq!(arena.owners().resolve_owner(inner), body);
    arena.hitbox_system(&vec![vec![inner]]);
    assert_eq!(alive_ids(&arena), vec![bystander.body, bystander.hurtbox]);
}

#[test]
fn fixed_update_runs_controller_countdowns_and_hits() {
    let mut arena = Arena::startup();
    let swing = Keys { attack: true, key_w: true, ..Keys::default() };
    let decision = arena.fixed_update(&swing, &vec![]);
    assert!(matches!(decision, Decision::Steer { player: 1, attack: true, .. }));
    // The attack volume was created and has already counted one step.
    assert_eq!(arena.get(5).unwrap().decay, Some(Decay { counter: 31 }));
    // It now overlaps the enemy's vulnerability volume.
    arena.fixed_update(&Keys::default(), &vec![vec![4]]);
    assert_eq!(alive_ids(&arena), vec![0, 1, 2, 5]);
    assert_eq!(arena.get(5).unwrap().decay, Some(Decay { counter: 30 }));
    for _ in 0..29 {
        arena.fixed_update(&Keys::default(), &vec![vec![]]);
    }
    assert_eq!(arena.get(5).unwrap().decay, Some(Decay { counter: 1 }));
    arena.fixed_update(&Keys::default(), &vec![vec![]]);
    assert_eq!(alive_ids(&arena), vec![0, 1, 2]);
}

#[test]
fn timers_list_the_countdowns_in_creation_order() {
    let mut arena = Arena::startup();
    assert!(arena.timers().is_empty());
    let a = arena.spawn(transient(3), None).unwrap();
    let b = arena.spawn(transient(1), Some(1)).unwrap();
    assert_eq!(
        arena.timers(),
        vec![
            skirmish::decay::Timer { entity: a, decay: Decay { counter: 3 } },
            skirmish::decay::Timer { entity: b, decay: Decay { counter: 1 } },
        ]
    );
    arena.decay_system();
    assert_eq!(
        arena.timers(),
        vec![skirmish::decay::Timer { entity: a, decay: Decay { counter: 2 } }]
    );
}
