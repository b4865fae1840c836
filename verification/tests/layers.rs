use avian2d::collision::CollisionLayers;
use skirmish::layer::{hitbox, hurtbox, layers_of, may_overlap, physics, AvianLayers};

#[test]
fn hitbox_sits_on_hit_and_looks_for_hurt() {
    assert_eq!(hitbox(), CollisionLayers::from_bits(0b100, 0b010));
}

#[test]
fn hurtbox_sits_on_hurt_and_looks_for_hit() {
    assert_eq!(hurtbox(), CollisionLayers::from_bits(0b010, 0b100));
}

#[test]
fn physics_sits_on_physics_and_looks_for_physics() {
    assert_eq!(physics(), CollisionLayers::from_bits(0b001, 0b001));
}

#[test]
fn layer_bits_follow_declaration_order() {
    assert_eq!(AvianLayers::Physics.to_bits(), 1);
    assert_eq!(AvianLayers::Hurt.to_bits(), 2);
    assert_eq!(AvianLayers::Hit.to_bits(), 4);
    assert_eq!(AvianLayers::all_bits(), 7);
}

#[test]
fn hit_and_physics_never_overlap() {
    assert!(!may_overlap(AvianLayers::Hit, AvianLayers::Physics));
    assert!(!may_overlap(AvianLayers::Physics, AvianLayers::Hit));
    assert!(!hitbox().interacts_with(physics()));
    assert!(!physics().interacts_with(hitbox()));
}

#[test]
fn hurt_and_hit_overlap() {
    assert!(may_overlap(AvianLayers::Hurt, AvianLayers::Hit));
    assert!(may_overlap(AvianLayers::Hit, AvianLayers::Hurt));
    assert!(hurtbox().interacts_with(hitbox()));
    assert!(hitbox().interacts_with(hurtbox()));
}

#[test]
fn overlap_table_is_the_counterpart_relation() {
    let all = [AvianLayers::Physics, AvianLayers::Hurt, AvianLayers::Hit];
    for a in all {
        for b in all {
            assert_eq!(may_overlap(a, b), b == a.counterpart());
            assert_eq!(layers_of(a).interacts_with(layers_of(b)), b == a.counterpart());
        }
    }
}
